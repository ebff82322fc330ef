use vstd::prelude::*;
use crate::models::{Dataset, Identifiable};

verus! {

/// The collection in which a duplicate id was found.
#[derive(Clone, Copy, Debug, PartialEq, Eq)]
pub enum EntityKind {
    Image,
    Annotation,
    Category,
}

/// Two entities of one collection share an id.
#[derive(Clone, Copy, Debug, PartialEq, Eq)]
pub struct DuplicateIdError {
    pub entity_kind: EntityKind,
}

/// The ids of a collection, in order.
pub open spec fn ids_of<I: Identifiable<u32>>(items: Seq<I>) -> Seq<u32> {
    items.map_values(|x: I| x.id_spec())
}

/// The outcome of checking that no two entities of one kind share an id.
pub open spec fn uniqueness_result(ids: Seq<u32>, kind: EntityKind) -> Result<(), DuplicateIdError> {
    if ids.no_duplicates() {
        Ok(())
    } else {
        Err(DuplicateIdError { entity_kind: kind })
    }
}

/// The outcome of validating a dataset: images, then annotations, then
/// categories, stopping at the first collection with a repeated id.
pub open spec fn validation_result(d: Dataset) -> Result<(), DuplicateIdError> {
    if !ids_of(d.images@).no_duplicates() {
        Err(DuplicateIdError { entity_kind: EntityKind::Image })
    } else if !ids_of(d.annotations@).no_duplicates() {
        Err(DuplicateIdError { entity_kind: EntityKind::Annotation })
    } else if !ids_of(d.categories@).no_duplicates() {
        Err(DuplicateIdError { entity_kind: EntityKind::Category })
    } else {
        Ok(())
    }
}

/// Fails, naming `kind`, exactly when two of `items` share an id.
pub fn assert_id_uniqueness<I: Identifiable<u32>>(items: &Vec<I>, kind: EntityKind) -> (r: Result<
    (),
    DuplicateIdError,
>)
    ensures
        r == uniqueness_result(ids_of(items@), kind),
{
    let n = items.len();
    let mut i: usize = 0;
    while i < n
        invariant
            n == items@.len(),
            i <= n,
            forall|a: int, b: int|
                0 <= a < b < i ==> #[trigger] items@[a].id_spec() != #[trigger] items@[b].id_spec(),
        decreases n - i,
    {
        let id = items[i].get_id();
        let mut j: usize = 0;
        while j < i
            invariant
                n == items@.len(),
                i < n,
                j <= i,
                id == items@[i as int].id_spec(),
                forall|a: int| 0 <= a < j ==> #[trigger] items@[a].id_spec() != id,
                forall|a: int, b: int|
                    0 <= a < b < i ==> #[trigger] items@[a].id_spec() != #[trigger] items@[b].id_spec(),
            decreases i - j,
        {
            if items[j].get_id() == id {
                assert(ids_of(items@)[j as int] == ids_of(items@)[i as int]);
                return Err(DuplicateIdError { entity_kind: kind });
            }
            j += 1;
        }
        i += 1;
    }
    assert(ids_of(items@).no_duplicates()) by {
        assert forall|a: int, b: int|
            0 <= a < ids_of(items@).len() && 0 <= b < ids_of(items@).len() && a != b implies
            ids_of(items@)[a] != ids_of(items@)[b] by {
            if a < b {
                assert(items@[a].id_spec() != items@[b].id_spec());
            } else {
                assert(items@[b].id_spec() != items@[a].id_spec());
            }
        }
    }
    Ok(())
}

impl Dataset {
    /// Checks that ids are unique among images, among annotations and among
    /// categories, in that order, and reports the first collection that fails.
    pub fn validate(&self) -> (r: Result<(), DuplicateIdError>)
        ensures
            r == validation_result(*self),
            r is Ok <==> {
                &&& ids_of(self.images@).no_duplicates()
                &&& ids_of(self.annotations@).no_duplicates()
                &&& ids_of(self.categories@).no_duplicates()
            },
    {
        if let Err(e) = assert_id_uniqueness(&self.images, EntityKind::Image) {
            return Err(e);
        }
        if let Err(e) = assert_id_uniqueness(&self.annotations, EntityKind::Annotation) {
            return Err(e);
        }
        if let Err(e) = assert_id_uniqueness(&self.categories, EntityKind::Category) {
            return Err(e);
        }
        Ok(())
    }
}

} // verus!
