use annotstein::models::{Annotation, BoundingBox, Category, Dataset, Image, Info, License};
use annotstein::transform::{merge_clone, merge_drain};
use annotstein::validation::{assert_id_uniqueness, DuplicateIdError, EntityKind};

fn image(id: u32, file_name: &str) -> Image {
    Image {
        id,
        file_name: file_name.to_string(),
        date_captured: String::new(),
        width: 10,
        height: 10,
        coco_url: String::new(),
        license: 0,
        flickr_url: String::new(),
    }
}

fn bbox(x: f32, y: f32, w: f32, h: f32) -> BoundingBox {
    BoundingBox { x: x.to_bits(), y: y.to_bits(), width: w.to_bits(), height: h.to_bits() }
}

fn annotation(id: u32, image_id: u32, category_id: u32) -> Annotation {
    Annotation {
        id,
        image_id,
        category_id,
        bbox: bbox(0.0, 0.0, 5.0, 5.0),
        area: 0.0f32.to_bits(),
        iscrowd: 0,
        segmentation: vec![],
        attributes: vec![],
    }
}

fn category(id: u32, name: &str) -> Category {
    Category { id, supercategory: String::new(), name: name.to_string() }
}

fn license(id: u32) -> License {
    License { id, name: format!("license {}", id), description: String::new() }
}

fn dataset(images: Vec<Image>, annotations: Vec<Annotation>, categories: Vec<Category>) -> Dataset {
    Dataset::new(images, annotations, categories, Info::new(), vec![])
}

fn image_ids(d: &Dataset) -> Vec<u32> {
    d.images.iter().map(|i| i.id).collect()
}

fn annotation_ids(d: &Dataset) -> Vec<u32> {
    d.annotations.iter().map(|a| a.id).collect()
}

fn category_ids(d: &Dataset) -> Vec<u32> {
    d.categories.iter().map(|c| c.id).collect()
}

fn fraction_count(fraction: f32, len: usize) -> usize {
    (fraction * len as f32).floor() as usize
}

#[test]
fn validate_accepts_unique_ids() {
    let d = dataset(
        vec![image(1, "a.jpg"), image(2, "b.jpg")],
        vec![annotation(1, 1, 1), annotation(2, 2, 2)],
        vec![category(1, "cat"), category(2, "dog")],
    );
    assert_eq!(d.validate(), Ok(()));
}

#[test]
fn validate_rejects_shared_image_id() {
    let d = dataset(vec![image(5, "a.jpg"), image(5, "b.jpg")], vec![], vec![]);
    assert_eq!(d.validate(), Err(DuplicateIdError { entity_kind: EntityKind::Image }));
}

#[test]
fn validate_rejects_shared_annotation_id() {
    let d = dataset(
        vec![image(1, "a.jpg")],
        vec![annotation(3, 1, 1), annotation(3, 1, 1)],
        vec![category(1, "cat")],
    );
    assert_eq!(d.validate(), Err(DuplicateIdError { entity_kind: EntityKind::Annotation }));
}

#[test]
fn validate_rejects_shared_category_id() {
    let d = dataset(vec![image(1, "a.jpg")], vec![], vec![category(1, "cat"), category(1, "dog")]);
    assert_eq!(d.validate(), Err(DuplicateIdError { entity_kind: EntityKind::Category }));
}

#[test]
fn validate_reports_images_first() {
    let d = dataset(
        vec![image(1, "a.jpg"), image(1, "b.jpg")],
        vec![annotation(2, 1, 1), annotation(2, 1, 1)],
        vec![category(4, "cat"), category(4, "cat")],
    );
    assert_eq!(d.validate(), Err(DuplicateIdError { entity_kind: EntityKind::Image }));
}

#[test]
fn validate_accepts_empty_dataset() {
    assert_eq!(dataset(vec![], vec![], vec![]).validate(), Ok(()));
}

#[test]
fn id_uniqueness_names_the_given_kind() {
    let cats = vec![category(1, "a"), category(2, "b"), category(1, "c")];
    assert_eq!(
        assert_id_uniqueness(&cats, EntityKind::Category),
        Err(DuplicateIdError { entity_kind: EntityKind::Category })
    );
    let cats = vec![category(1, "a"), category(2, "b"), category(3, "c")];
    assert_eq!(assert_id_uniqueness(&cats, EntityKind::Category), Ok(()));
}

#[test]
fn fresh_info_defaults() {
    let info = Info::new();
    assert_eq!(info.version, "0.1.0");
    assert_eq!(info.name, "");
    assert_eq!(info.description, "");
    assert_eq!(info.author, "");
    assert!(!info.date.is_empty());
}

#[test]
fn merge_of_nothing_is_empty() {
    for d in [merge_clone(vec![]), merge_drain(vec![])] {
        assert!(d.images.is_empty());
        assert!(d.annotations.is_empty());
        assert!(d.categories.is_empty());
        assert!(d.licenses.is_empty());
        assert_eq!(d.info.version, "0.1.0");
        assert_eq!(d.info.name, "");
    }
}

fn two_datasets() -> (Dataset, Dataset) {
    let mut a = dataset(
        vec![image(1, "a.jpg"), image(2, "b.jpg")],
        vec![annotation(1, 1, 1)],
        vec![category(1, "cat")],
    );
    a.licenses = vec![license(1)];
    a.info.name = "first".to_string();
    let mut b = dataset(
        vec![image(7, "c.jpg")],
        vec![annotation(9, 7, 2), annotation(8, 7, 1)],
        vec![category(2, "dog")],
    );
    b.licenses = vec![license(2), license(3)];
    (a, b)
}

#[test]
fn merge_clone_concatenates_in_order() {
    let (a, b) = two_datasets();
    let m = merge_clone(vec![a.clone(), b.clone()]);
    assert_eq!(m.images, [a.images.clone(), b.images.clone()].concat());
    assert_eq!(m.annotations, [a.annotations.clone(), b.annotations.clone()].concat());
    assert_eq!(m.categories, [a.categories.clone(), b.categories.clone()].concat());
    assert_eq!(m.licenses, [a.licenses.clone(), b.licenses.clone()].concat());
    assert_eq!(m.info.name, "");
}

#[test]
fn merge_drain_concatenates_in_order() {
    let (a, b) = two_datasets();
    let m = merge_drain(vec![a.clone(), b.clone()]);
    assert_eq!(image_ids(&m), vec![1, 2, 7]);
    assert_eq!(annotation_ids(&m), vec![1, 9, 8]);
    assert_eq!(category_ids(&m), vec![1, 2]);
    assert_eq!(m.licenses.iter().map(|l| l.id).collect::<Vec<u32>>(), vec![1, 2, 3]);
    assert_eq!(m.info.name, "");
}

#[test]
fn merge_keeps_colliding_ids() {
    let a = dataset(vec![image(7, "a.jpg")], vec![], vec![]);
    let b = dataset(vec![image(7, "b.jpg")], vec![], vec![]);
    let m = merge_drain(vec![a, b]);
    assert_eq!(image_ids(&m), vec![7, 7]);
    assert_eq!(m.validate(), Err(DuplicateIdError { entity_kind: EntityKind::Image }));
}

fn split_source() -> Dataset {
    dataset(
        vec![image(4, "a.jpg"), image(2, "b.jpg"), image(9, "c.jpg"), image(3, "d.jpg")],
        vec![annotation(1, 4, 1), annotation(2, 9, 2), annotation(3, 2, 1), annotation(4, 3, 3)],
        vec![category(1, "cat"), category(2, "dog"), category(3, "cow"), category(4, "unused")],
    )
}

#[test]
fn split_partitions_image_ids() {
    let d = split_source();
    let (d1, d2) = d.image_split(fraction_count(0.5, d.images.len()));
    assert_eq!(image_ids(&d1), vec![4, 2]);
    assert_eq!(image_ids(&d2), vec![9, 3]);
    let mut all = [image_ids(&d1), image_ids(&d2)].concat();
    all.sort();
    assert_eq!(all, vec![2, 3, 4, 9]);
}

#[test]
fn split_keeps_references_inside_each_part() {
    let d = split_source();
    let (d1, d2) = d.image_split(2);
    assert_eq!(annotation_ids(&d1), vec![1, 3]);
    assert_eq!(category_ids(&d1), vec![1]);
    assert_eq!(annotation_ids(&d2), vec![2, 4]);
    assert_eq!(category_ids(&d2), vec![2, 3]);
    for part in [&d1, &d2] {
        let ids = image_ids(part);
        assert!(part.annotations.iter().all(|a| ids.contains(&a.image_id)));
        assert!(part.categories.iter().all(|c| part.annotations.iter().any(|a| a.category_id == c.id)));
        assert!(part.licenses.is_empty());
        assert_eq!(part.info.version, "0.1.0");
    }
}

#[test]
fn split_size_is_floor_of_fraction() {
    let d = split_source();
    for (fraction, expected) in [(0.0f32, 0usize), (0.3, 1), (0.5, 2), (0.99, 3), (1.0, 4)] {
        let (d1, d2) = d.image_split(fraction_count(fraction, d.images.len()));
        assert_eq!(d1.images.len(), expected);
        assert_eq!(d2.images.len(), 4 - expected);
    }
}

#[test]
fn split_beyond_count_takes_everything() {
    let d = split_source();
    let (d1, d2) = d.image_split(100);
    assert_eq!(image_ids(&d1), vec![4, 2, 9, 3]);
    assert!(d2.images.is_empty());
    assert!(d2.annotations.is_empty());
    assert!(d2.categories.is_empty());
}

#[test]
fn split_keeps_images_with_one_id_together() {
    let d = dataset(vec![image(1, "a.jpg"), image(2, "b.jpg"), image(1, "c.jpg")], vec![], vec![]);
    let (d1, d2) = d.image_split(1);
    assert_eq!(image_ids(&d1), vec![1, 1]);
    assert_eq!(image_ids(&d2), vec![2]);
}

#[test]
fn rebase_joins_base_path() {
    let mut d = dataset(vec![image(1, "a.jpg")], vec![annotation(1, 1, 1)], vec![category(1, "cat")]);
    d.rebase("/data");
    assert_eq!(d.images[0].file_name, "/data/a.jpg");
    assert_eq!(d.images[0].id, 1);
    assert_eq!(d.annotations.len(), 1);
}

#[test]
fn rebase_normalizes_the_path() {
    let mut d = dataset(vec![image(1, "./sub//a.jpg"), image(2, "/abs/b.jpg")], vec![], vec![]);
    d.rebase("/data/");
    assert_eq!(d.images[0].file_name, "/data/sub/a.jpg");
    assert_eq!(d.images[1].file_name, "/abs/b.jpg");
}

#[test]
fn annotation_split_copies_everything() {
    let (a, _) = two_datasets();
    let mut a = a;
    a.annotations[0].segmentation = vec![vec![1.0f32.to_bits(), 2.0f32.to_bits()]];
    a.annotations[0].attributes = vec![("color".to_string(), "red".to_string())];
    let (x, y) = a.annotation_split();
    assert_eq!(x, a);
    assert_eq!(y, a);
}

#[test]
fn single_image_end_to_end() {
    let d = dataset(
        vec![image(1, "x.jpg")],
        vec![annotation(1, 1, 1)],
        vec![category(1, "cat")],
    );
    assert_eq!(d.annotations[0].bbox, bbox(0.0, 0.0, 5.0, 5.0));
    assert_eq!(d.validate(), Ok(()));
    let (d1, d2) = d.image_split(fraction_count(1.0, d.images.len()));
    assert_eq!(image_ids(&d1), vec![1]);
    assert_eq!(annotation_ids(&d1), vec![1]);
    assert_eq!(category_ids(&d1), vec![1]);
    assert!(d2.images.is_empty());
    assert!(d2.annotations.is_empty());
    assert!(d2.categories.is_empty());
}

#[test]
fn attribute_keys_must_be_distinct() {
    let mut a = annotation(1, 1, 1);
    assert!(a.has_distinct_keys());
    a.attributes = vec![("color".to_string(), "red".to_string()), ("size".to_string(), "big".to_string())];
    assert!(a.has_distinct_keys());
    a.attributes.push(("color".to_string(), "blue".to_string()));
    assert!(!a.has_distinct_keys());
    assert!(!a.duplicate().has_distinct_keys());
}

#[test]
fn fresh_info_is_dated_in_utc() {
    let info = Info::new();
    assert!(info.date.ends_with(" UTC"));
    assert!(merge_clone(vec![]).info.date.ends_with(" UTC"));
}
