use vstd::prelude::*;
use crate::models::{
    annotation_views, is_fresh_info, Annotation, AnnotationView, Category, Dataset, DatasetView,
    Image, Info, License,
};

verus! {

/// The views of a sequence of datasets.
pub open spec fn dataset_views(s: Seq<Dataset>) -> Seq<DatasetView> {
    s.map_values(|d: Dataset| d@)
}

/// All images of `ds`, dataset after dataset, each in its own order.
pub open spec fn all_images(ds: Seq<DatasetView>) -> Seq<Image>
    decreases ds.len(),
{
    if ds.len() == 0 {
        Seq::empty()
    } else {
        all_images(ds.drop_last()) + ds.last().images
    }
}

/// All annotations of `ds`, dataset after dataset, each in its own order.
pub open spec fn all_annotations(ds: Seq<DatasetView>) -> Seq<AnnotationView>
    decreases ds.len(),
{
    if ds.len() == 0 {
        Seq::empty()
    } else {
        all_annotations(ds.drop_last()) + ds.last().annotations
    }
}

/// All categories of `ds`, dataset after dataset, each in its own order.
pub open spec fn all_categories(ds: Seq<DatasetView>) -> Seq<Category>
    decreases ds.len(),
{
    if ds.len() == 0 {
        Seq::empty()
    } else {
        all_categories(ds.drop_last()) + ds.last().categories
    }
}

/// All licenses of `ds`, dataset after dataset, each in its own order.
pub open spec fn all_licenses(ds: Seq<DatasetView>) -> Seq<License>
    decreases ds.len(),
{
    if ds.len() == 0 {
        Seq::empty()
    } else {
        all_licenses(ds.drop_last()) + ds.last().licenses
    }
}

/// `r` concatenates the collections of `ds` in order, with fresh metadata.
pub open spec fn is_merge(r: DatasetView, ds: Seq<DatasetView>) -> bool {
    &&& r.images == all_images(ds)
    &&& r.annotations == all_annotations(ds)
    &&& r.categories == all_categories(ds)
    &&& r.licenses == all_licenses(ds)
    &&& is_fresh_info(r.info)
}

proof fn lemma_merge_step(ds: Seq<DatasetView>, k: int)
    requires
        0 <= k < ds.len(),
    ensures
        all_images(ds.subrange(0, k + 1)) == all_images(ds.subrange(0, k)) + ds[k].images,
        all_annotations(ds.subrange(0, k + 1)) == all_annotations(ds.subrange(0, k))
            + ds[k].annotations,
        all_categories(ds.subrange(0, k + 1)) == all_categories(ds.subrange(0, k))
            + ds[k].categories,
        all_licenses(ds.subrange(0, k + 1)) == all_licenses(ds.subrange(0, k)) + ds[k].licenses,
{
    assert(ds.subrange(0, k + 1).drop_last() =~= ds.subrange(0, k));
}

/// Merging two datasets concatenates each of their collections, the first
/// dataset's entities before the second's, and keeps their order.
pub proof fn lemma_merge_two(a: DatasetView, b: DatasetView)
    ensures
        all_images(seq![a, b]) == a.images + b.images,
        all_annotations(seq![a, b]) == a.annotations + b.annotations,
        all_categories(seq![a, b]) == a.categories + b.categories,
        all_licenses(seq![a, b]) == a.licenses + b.licenses,
{
    let ds = seq![a, b];
    let one = seq![a];
    let none = Seq::<DatasetView>::empty();
    assert(ds.drop_last() =~= one);
    assert(one.drop_last() =~= none);
    assert(all_images(one) == all_images(none) + a.images);
    assert(all_annotations(one) == all_annotations(none) + a.annotations);
    assert(all_categories(one) == all_categories(none) + a.categories);
    assert(all_licenses(one) == all_licenses(none) + a.licenses);
    assert(all_images(one) =~= a.images);
    assert(all_annotations(one) =~= a.annotations);
    assert(all_categories(one) =~= a.categories);
    assert(all_licenses(one) =~= a.licenses);
}

/// Merging no datasets gives empty collections.
pub proof fn lemma_merge_none()
    ensures
        all_images(Seq::<DatasetView>::empty()).len() == 0,
        all_annotations(Seq::<DatasetView>::empty()).len() == 0,
        all_categories(Seq::<DatasetView>::empty()).len() == 0,
        all_licenses(Seq::<DatasetView>::empty()).len() == 0,
{
}

fn extend_images(out: &mut Vec<Image>, src: &Vec<Image>)
    ensures
        final(out)@ == old(out)@ + src@,
{
    let mut i: usize = 0;
    while i < src.len()
        invariant
            i <= src@.len(),
            out@ == old(out)@ + src@.subrange(0, i as int),
        decreases src@.len() - i,
    {
        out.push(src[i].duplicate());
        i += 1;
        assert(out@ =~= old(out)@ + src@.subrange(0, i as int));
    }
    assert(src@.subrange(0, src@.len() as int) =~= src@);
}

fn extend_annotations(out: &mut Vec<Annotation>, src: &Vec<Annotation>)
    ensures
        annotation_views(final(out)@) == annotation_views(old(out)@) + annotation_views(src@),
{
    let mut i: usize = 0;
    while i < src.len()
        invariant
            i <= src@.len(),
            annotation_views(out@) == annotation_views(old(out)@) + annotation_views(
                src@.subrange(0, i as int),
            ),
        decreases src@.len() - i,
    {
        let ghost before = out@;
        out.push(src[i].duplicate());
        assert(annotation_views(out@) =~= annotation_views(before).push(src@[i as int]@));
        assert(annotation_views(src@.subrange(0, i + 1)) =~= annotation_views(
            src@.subrange(0, i as int),
        ).push(src@[i as int]@));
        i += 1;
        assert(annotation_views(out@) =~= annotation_views(old(out)@) + annotation_views(
            src@.subrange(0, i as int),
        ));
    }
    assert(src@.subrange(0, src@.len() as int) =~= src@);
}

fn extend_categories(out: &mut Vec<Category>, src: &Vec<Category>)
    ensures
        final(out)@ == old(out)@ + src@,
{
    let mut i: usize = 0;
    while i < src.len()
        invariant
            i <= src@.len(),
            out@ == old(out)@ + src@.subrange(0, i as int),
        decreases src@.len() - i,
    {
        out.push(src[i].duplicate());
        i += 1;
        assert(out@ =~= old(out)@ + src@.subrange(0, i as int));
    }
    assert(src@.subrange(0, src@.len() as int) =~= src@);
}

fn extend_licenses(out: &mut Vec<License>, src: &Vec<License>)
    ensures
        final(out)@ == old(out)@ + src@,
{
    let mut i: usize = 0;
    while i < src.len()
        invariant
            i <= src@.len(),
            out@ == old(out)@ + src@.subrange(0, i as int),
        decreases src@.len() - i,
    {
        out.push(src[i].duplicate());
        i += 1;
        assert(out@ =~= old(out)@ + src@.subrange(0, i as int));
    }
    assert(src@.subrange(0, src@.len() as int) =~= src@);
}

/// Merges datasets by copying their entities: each collection of the result
/// is the concatenation of the inputs' collections, in input order. Ids are
/// not checked or renumbered. The metadata is fresh.
pub fn merge_clone(datasets: Vec<Dataset>) -> (r: Dataset)
    ensures
        is_merge(r@, dataset_views(datasets@)),
{
    let ghost ds = dataset_views(datasets@);
    let mut images: Vec<Image> = Vec::new();
    let mut annotations: Vec<Annotation> = Vec::new();
    let mut categories: Vec<Category> = Vec::new();
    let mut licenses: Vec<License> = Vec::new();
    let mut i: usize = 0;
    while i < datasets.len()
        invariant
            i <= datasets@.len(),
            ds == dataset_views(datasets@),
            images@ == all_images(ds.subrange(0, i as int)),
            annotation_views(annotations@) == all_annotations(ds.subrange(0, i as int)),
            categories@ == all_categories(ds.subrange(0, i as int)),
            licenses@ == all_licenses(ds.subrange(0, i as int)),
        decreases datasets@.len() - i,
    {
        proof {
            lemma_merge_step(ds, i as int);
        }
        let d = &datasets[i];
        extend_images(&mut images, &d.images);
        extend_annotations(&mut annotations, &d.annotations);
        extend_categories(&mut categories, &d.categories);
        extend_licenses(&mut licenses, &d.licenses);
        i += 1;
    }
    assert(ds.subrange(0, ds.len() as int) =~= ds);
    Dataset::new(images, annotations, categories, Info::new(), licenses)
}

/// Merges datasets by moving their entities out of them: each collection of
/// the result is the concatenation of the inputs' collections, in input order.
/// Ids are not checked or renumbered. The metadata is fresh.
pub fn merge_drain(datasets: Vec<Dataset>) -> (r: Dataset)
    ensures
        is_merge(r@, dataset_views(datasets@)),
{
    let ghost ds = dataset_views(datasets@);
    let ghost total = datasets@.len();
    let mut rest = datasets;
    let mut images: Vec<Image> = Vec::new();
    let mut annotations: Vec<Annotation> = Vec::new();
    let mut categories: Vec<Category> = Vec::new();
    let mut licenses: Vec<License> = Vec::new();
    let ghost mut k: int = 0;
    while rest.len() > 0
        invariant
            0 <= k <= total,
            ds.len() == total,
            dataset_views(rest@) == ds.subrange(k, total as int),
            images@ == all_images(ds.subrange(0, k)),
            annotation_views(annotations@) == all_annotations(ds.subrange(0, k)),
            categories@ == all_categories(ds.subrange(0, k)),
            licenses@ == all_licenses(ds.subrange(0, k)),
        decreases rest@.len(),
    {
        proof {
            assert(dataset_views(rest@).len() == rest@.len());
            assert(k < total);
            assert(ds.subrange(k, total as int)[0] == ds[k]);
            lemma_merge_step(ds, k);
        }
        let ghost before = rest@;
        let mut d = rest.remove(0);
        proof {
            assert(dataset_views(rest@) =~= ds.subrange(k + 1, total as int)) by {
                assert(dataset_views(before).subrange(1, before.len() as int) =~= dataset_views(
                    rest@,
                ));
            }
        }
        let ghost moved = d.annotations@;
        let ghost have = annotations@;
        images.append(&mut d.images);
        annotations.append(&mut d.annotations);
        categories.append(&mut d.categories);
        licenses.append(&mut d.licenses);
        assert(annotation_views(annotations@) =~= annotation_views(have) + annotation_views(moved));
        proof {
            k = k + 1;
        }
    }
    assert(k == total);
    assert(ds.subrange(0, total as int) =~= ds);
    Dataset::new(images, annotations, categories, Info::new(), licenses)
}

/// The name that `path_join` gives to `file` under `base`.
pub uninterp spec fn joined_path(base: Seq<char>, file: Seq<char>) -> Seq<char>;

/// The path that `path_normalize` rebuilds from the components of `path`.
pub uninterp spec fn normalized_path(path: Seq<char>) -> Seq<char>;

/// The new file name that rebasing gives to `file` under `base`.
pub open spec fn rebased_name(base: Seq<char>, file: Seq<char>) -> Seq<char> {
    normalized_path(joined_path(base, file))
}

/// Relies on `std::path::Path::join`: `file` appended to `base` as a path
/// (or `file` alone when it is absolute). The path is built from text, so it
/// turns back into the same text.
#[verifier::external_body]
fn path_join(base: &str, file: &str) -> (r: String)
    ensures
        r@ == joined_path(base@, file@),
{
    std::path::Path::new(base).join(file).to_string_lossy().into_owned()
}

/// Relies on `std::path::Path::iter` collected into a `PathBuf`: the path
/// rebuilt from its components, without repeated separators or inner `.`
/// components.
#[verifier::external_body]
fn path_normalize(path: &str) -> (r: String)
    ensures
        r@ == normalized_path(path@),
{
    std::path::Path::new(path).iter().collect::<std::path::PathBuf>().to_string_lossy().into_owned()
}

impl Dataset {
    /// Rewrites the file name of every image as the normalized join of
    /// `base_path` and its current file name. Nothing else changes.
    pub fn rebase(&mut self, base_path: &str)
        ensures
            final(self).images@.len() == old(self).images@.len(),
            forall|k: int|
                0 <= k < old(self).images@.len() ==> {
                    let a = #[trigger] final(self).images@[k];
                    let b = old(self).images@[k];
                    &&& a.file_name@ == rebased_name(base_path@, b.file_name@)
                    &&& a.id == b.id
                    &&& a.date_captured == b.date_captured
                    &&& a.width == b.width
                    &&& a.height == b.height
                    &&& a.coco_url == b.coco_url
                    &&& a.license == b.license
                    &&& a.flickr_url == b.flickr_url
                },
            final(self).annotations == old(self).annotations,
            final(self).categories == old(self).categories,
            final(self).info == old(self).info,
            final(self).licenses == old(self).licenses,
    {
        let mut images: Vec<Image> = Vec::new();
        let mut i: usize = 0;
        while i < self.images.len()
            invariant
                i <= self.images@.len(),
                images@.len() == i,
                forall|k: int|
                    0 <= k < i ==> {
                        let a = #[trigger] images@[k];
                        let b = self.images@[k];
                        &&& a.file_name@ == rebased_name(base_path@, b.file_name@)
                        &&& a.id == b.id
                        &&& a.date_captured == b.date_captured
                        &&& a.width == b.width
                        &&& a.height == b.height
                        &&& a.coco_url == b.coco_url
                        &&& a.license == b.license
                        &&& a.flickr_url == b.flickr_url
                    },
            decreases self.images@.len() - i,
        {
            let im = &self.images[i];
            let joined = path_join(base_path, im.file_name.as_str());
            let file_name = path_normalize(joined.as_str());
            images.push(
                Image {
                    id: im.id,
                    file_name,
                    date_captured: im.date_captured.clone(),
                    width: im.width,
                    height: im.height,
                    coco_url: im.coco_url.clone(),
                    license: im.license,
                    flickr_url: im.flickr_url.clone(),
                },
            );
            i += 1;
        }
        self.images = images;
    }

    /// A copy with the same view.
    pub fn duplicate(&self) -> (r: Dataset)
        ensures
            r@ == self@,
    {
        let mut images: Vec<Image> = Vec::new();
        extend_images(&mut images, &self.images);
        let mut annotations: Vec<Annotation> = Vec::new();
        extend_annotations(&mut annotations, &self.annotations);
        let mut categories: Vec<Category> = Vec::new();
        extend_categories(&mut categories, &self.categories);
        let mut licenses: Vec<License> = Vec::new();
        extend_licenses(&mut licenses, &self.licenses);
        assert(images@ =~= self.images@);
        assert(annotation_views(annotations@) =~= annotation_views(self.annotations@));
        assert(categories@ =~= self.categories@);
        assert(licenses@ =~= self.licenses@);
        Dataset { images, annotations, categories, info: self.info.duplicate(), licenses }
    }

    /// Not a real partition yet: both results are full copies of this dataset.
    pub fn annotation_split(&self) -> (r: (Dataset, Dataset))
        ensures
            r.0@ == self@,
            r.1@ == self@,
    {
        (self.duplicate(), self.duplicate())
    }
}

} // verus!
