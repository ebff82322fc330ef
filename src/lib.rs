//! In-memory model of COCO object-detection datasets, with validation, merging,
//! splitting and path rebasing.

pub mod models;
pub mod validation;
pub mod split;
pub mod transform;
