use vstd::prelude::*;
use crate::models::{
    annotation_views, is_fresh_info, Annotation, AnnotationView, Category, Dataset, DatasetView,
    Image, Info,
};
use crate::validation::ids_of;

verus! {

broadcast use vstd::seq_lib::group_filter_ensures;

/// The distinct values of `ids`, in order of first occurrence.
pub open spec fn distinct(ids: Seq<u32>) -> Seq<u32>
    decreases ids.len(),
{
    if ids.len() == 0 {
        Seq::empty()
    } else {
        let d = distinct(ids.drop_last());
        if d.contains(ids.last()) {
            d
        } else {
            d.push(ids.last())
        }
    }
}

/// How many image ids go to the first part: `n`, or all of them when there
/// are fewer.
pub open spec fn first_count(images: Seq<Image>, n: nat) -> nat {
    let len = distinct(ids_of(images)).len();
    if n <= len {
        n
    } else {
        len
    }
}

/// The image ids of the first part: the first ones in order of appearance.
pub open spec fn first_ids(images: Seq<Image>, n: nat) -> Seq<u32> {
    distinct(ids_of(images)).take(first_count(images, n) as int)
}

/// The image ids of the second part: all the others.
pub open spec fn rest_ids(images: Seq<Image>, n: nat) -> Seq<u32> {
    distinct(ids_of(images)).skip(first_count(images, n) as int)
}

pub open spec fn image_in(part: Seq<u32>) -> spec_fn(Image) -> bool {
    |i: Image| part.contains(i.id)
}

pub open spec fn annotation_in(part: Seq<u32>) -> spec_fn(AnnotationView) -> bool {
    |a: AnnotationView| part.contains(a.image_id)
}

/// The category ids that `annotations` use, in order.
pub open spec fn category_ids(annotations: Seq<AnnotationView>) -> Seq<u32> {
    annotations.map_values(|a: AnnotationView| a.category_id)
}

pub open spec fn category_in(ids: Seq<u32>) -> spec_fn(Category) -> bool {
    |c: Category| ids.contains(c.id)
}

/// The images whose id is in `part`, in their order.
pub open spec fn select_images(images: Seq<Image>, part: Seq<u32>) -> Seq<Image> {
    images.filter(image_in(part))
}

/// The annotations of an image whose id is in `part`, in their order.
pub open spec fn select_annotations(annotations: Seq<AnnotationView>, part: Seq<u32>) -> Seq<
    AnnotationView,
> {
    annotations.filter(annotation_in(part))
}

/// The categories that one of `annotations` uses, in their order.
pub open spec fn select_categories(categories: Seq<Category>, annotations: Seq<AnnotationView>) -> Seq<
    Category,
> {
    categories.filter(category_in(category_ids(annotations)))
}

/// `r` is the part of `d` made of the images whose id is in `part`, their
/// annotations, the categories those use, fresh metadata and no licenses.
pub open spec fn is_projection(r: DatasetView, d: DatasetView, part: Seq<u32>) -> bool {
    &&& r.images == select_images(d.images, part)
    &&& r.annotations == select_annotations(d.annotations, part)
    &&& r.categories == select_categories(d.categories, r.annotations)
    &&& is_fresh_info(r.info)
    &&& r.licenses.len() == 0
}

/// The set of ids of `images`.
pub open spec fn image_id_set(images: Seq<Image>) -> Set<u32> {
    ids_of(images).to_set()
}

proof fn lemma_contains_push(s: Seq<u32>, y: u32, x: u32)
    ensures
        s.push(y).contains(x) <==> (s.contains(x) || x == y),
{
    if s.push(y).contains(x) {
        let k = choose|k: int| 0 <= k < s.push(y).len() && s.push(y)[k] == x;
        if k < s.len() {
            assert(s[k] == x);
        }
    }
    if s.contains(x) {
        let k = choose|k: int| 0 <= k < s.len() && s[k] == x;
        assert(s.push(y)[k] == x);
    }
    if x == y {
        assert(s.push(y)[s.len() as int] == x);
    }
}

/// `distinct` keeps each value once and loses none.
proof fn lemma_distinct(ids: Seq<u32>)
    ensures
        distinct(ids).no_duplicates(),
        forall|x: u32| distinct(ids).contains(x) <==> ids.contains(x),
    decreases ids.len(),
{
    if ids.len() > 0 {
        let rest = ids.drop_last();
        let y = ids.last();
        lemma_distinct(rest);
        assert(rest.push(y) =~= ids);
        assert forall|x: u32| ids.contains(x) <==> (rest.contains(x) || x == y) by {
            lemma_contains_push(rest, y, x);
        }
        let d = distinct(rest);
        if !d.contains(y) {
            assert forall|x: u32| d.push(y).contains(x) <==> (d.contains(x) || x == y) by {
                lemma_contains_push(d, y, x);
            }
            assert forall|a: int, b: int|
                0 <= a < d.push(y).len() && 0 <= b < d.push(y).len() && a != b implies d.push(y)[a]
                != d.push(y)[b] by {
                if a < d.len() && b < d.len() {
                } else if a < d.len() {
                    assert(d[a] == d.push(y)[a]);
                } else {
                    assert(d[b] == d.push(y)[b]);
                }
            }
        }
    }
}

/// Without repeated ids, `distinct` changes nothing.
proof fn lemma_distinct_unique(ids: Seq<u32>)
    requires
        ids.no_duplicates(),
    ensures
        distinct(ids) == ids,
    decreases ids.len(),
{
    if ids.len() > 0 {
        let rest = ids.drop_last();
        let y = ids.last();
        lemma_distinct_unique(rest);
        if rest.contains(y) {
            let k = choose|k: int| 0 <= k < rest.len() && rest[k] == y;
            assert(ids[k] == ids[ids.len() - 1]);
        }
        assert(rest.push(y) =~= ids);
    }
}

/// The ids of the images selected by `part` are the ids of `images` that
/// `part` holds.
proof fn lemma_selected_ids(images: Seq<Image>, part: Seq<u32>)
    ensures
        forall|x: u32|
            image_id_set(select_images(images, part)).contains(x) <==> (image_id_set(
                images,
            ).contains(x) && part.contains(x)),
{
    let sel = select_images(images, part);
    assert forall|x: u32|
        image_id_set(sel).contains(x) <==> (image_id_set(images).contains(x) && part.contains(
            x,
        )) by {
        if ids_of(sel).contains(x) {
            let k = choose|k: int| 0 <= k < ids_of(sel).len() && ids_of(sel)[k] == x;
            assert(sel.contains(sel[k]));
            images.lemma_filter_contains_rev(image_in(part), sel[k]);
            let j = choose|j: int| 0 <= j < images.len() && images[j] == sel[k];
            assert(ids_of(images)[j] == x);
        }
        if ids_of(images).contains(x) && part.contains(x) {
            let j = choose|j: int| 0 <= j < ids_of(images).len() && ids_of(images)[j] == x;
            images.lemma_filter_contains(image_in(part), j);
            let k = choose|k: int| 0 <= k < sel.len() && sel[k] == images[j];
            assert(ids_of(sel)[k] == x);
        }
    }
}

/// Both parts hold only ids of the dataset's images, and between them all of
/// those ids, each once.
proof fn lemma_parts(images: Seq<Image>, n: nat)
    ensures
        forall|x: u32|
            first_ids(images, n).contains(x) ==> !rest_ids(images, n).contains(x),
        forall|x: u32|
            (first_ids(images, n).contains(x) || rest_ids(images, n).contains(x))
                <==> image_id_set(images).contains(x),
{
    let d = distinct(ids_of(images));
    let c = first_count(images, n) as int;
    lemma_distinct(ids_of(images));
    let p1 = first_ids(images, n);
    let p2 = rest_ids(images, n);
    assert forall|x: u32| p1.contains(x) ==> !p2.contains(x) by {
        if p1.contains(x) && p2.contains(x) {
            let a = choose|a: int| 0 <= a < p1.len() && p1[a] == x;
            let b = choose|b: int| 0 <= b < p2.len() && p2[b] == x;
            assert(d[a] == d[c + b]);
        }
    }
    assert forall|x: u32| (p1.contains(x) || p2.contains(x)) <==> d.contains(x) by {
        if p1.contains(x) {
            let a = choose|a: int| 0 <= a < p1.len() && p1[a] == x;
            assert(d[a] == x);
        }
        if p2.contains(x) {
            let b = choose|b: int| 0 <= b < p2.len() && p2[b] == x;
            assert(d[c + b] == x);
        }
        if d.contains(x) {
            let a = choose|a: int| 0 <= a < d.len() && d[a] == x;
            if a < c {
                assert(p1[a] == x);
            } else {
                assert(p2[a - c] == x);
            }
        }
    }
}

/// A split by image partitions the dataset's image ids: the two parts share
/// no image id, and together they hold every image id of the dataset.
pub proof fn lemma_image_split_partition(d: DatasetView, n: nat)
    ensures
        image_id_set(select_images(d.images, first_ids(d.images, n))).disjoint(
            image_id_set(select_images(d.images, rest_ids(d.images, n))),
        ),
        image_id_set(select_images(d.images, first_ids(d.images, n))) + image_id_set(
            select_images(d.images, rest_ids(d.images, n)),
        ) == image_id_set(d.images),
{
    let s1 = image_id_set(select_images(d.images, first_ids(d.images, n)));
    let s2 = image_id_set(select_images(d.images, rest_ids(d.images, n)));
    lemma_parts(d.images, n);
    lemma_selected_ids(d.images, first_ids(d.images, n));
    lemma_selected_ids(d.images, rest_ids(d.images, n));
    assert(s1 + s2 =~= image_id_set(d.images));
}

/// In the part of `d` for `part`, where `part` holds only ids of `d`'s
/// images, every annotation refers to an image of the part and every
/// category is used by an annotation of the part.
proof fn lemma_projection_closed(d: DatasetView, part: Seq<u32>)
    requires
        forall|x: u32| part.contains(x) ==> image_id_set(d.images).contains(x),
    ensures
        forall|a: AnnotationView|
            select_annotations(d.annotations, part).contains(a) ==> image_id_set(
                select_images(d.images, part),
            ).contains(a.image_id),
        forall|c: Category|
            select_categories(d.categories, select_annotations(d.annotations, part)).contains(c)
                ==> category_ids(select_annotations(d.annotations, part)).contains(c.id),
{
    let anns = select_annotations(d.annotations, part);
    let cats = select_categories(d.categories, anns);
    lemma_selected_ids(d.images, part);
    assert forall|a: AnnotationView| anns.contains(a) implies image_id_set(
        select_images(d.images, part),
    ).contains(a.image_id) by {
        let k = choose|k: int| 0 <= k < anns.len() && anns[k] == a;
        assert(annotation_in(part)(anns[k]));
    }
    assert forall|c: Category| cats.contains(c) implies category_ids(anns).contains(c.id) by {
        let k = choose|k: int| 0 <= k < cats.len() && cats[k] == c;
        assert(category_in(category_ids(anns))(cats[k]));
    }
}

/// In each part of a split by image, every annotation refers to an image of
/// that part, and every category is used by an annotation of that part.
pub proof fn lemma_image_split_closure(d: DatasetView, n: nat)
    ensures
        forall|a: AnnotationView|
            select_annotations(d.annotations, first_ids(d.images, n)).contains(a) ==> image_id_set(
                select_images(d.images, first_ids(d.images, n)),
            ).contains(a.image_id),
        forall|c: Category|
            select_categories(d.categories, select_annotations(d.annotations, first_ids(d.images, n))).contains(c)
                ==> category_ids(select_annotations(d.annotations, first_ids(d.images, n))).contains(c.id),
        forall|a: AnnotationView|
            select_annotations(d.annotations, rest_ids(d.images, n)).contains(a) ==> image_id_set(
                select_images(d.images, rest_ids(d.images, n)),
            ).contains(a.image_id),
        forall|c: Category|
            select_categories(d.categories, select_annotations(d.annotations, rest_ids(d.images, n))).contains(c)
                ==> category_ids(select_annotations(d.annotations, rest_ids(d.images, n))).contains(c.id),
{
    lemma_parts(d.images, n);
    lemma_projection_closed(d, first_ids(d.images, n));
    lemma_projection_closed(d, rest_ids(d.images, n));
}

proof fn lemma_prefix_selection(images: Seq<Image>, n: nat, m: nat)
    requires
        ids_of(images).no_duplicates(),
        n <= images.len(),
        m <= images.len(),
    ensures
        images.take(m as int).filter(image_in(ids_of(images).take(n as int))) == images.take(
            if m <= n {
                m as int
            } else {
                n as int
            },
        ),
    decreases m,
{
    let p = ids_of(images).take(n as int);
    if m == 0 {
        assert(images.take(0).filter(image_in(p)) =~= images.take(0));
    } else {
        let j = (m - 1) as int;
        lemma_prefix_selection(images, n, (m - 1) as nat);
        assert(images.take(m as int) =~= images.take(j).push(images[j]));
        images.take(j).lemma_filter_push(images[j], image_in(p));
        if j < n {
            assert(p[j] == images[j].id);
        } else {
            if p.contains(images[j].id) {
                let a = choose|a: int| 0 <= a < p.len() && p[a] == images[j].id;
                assert(ids_of(images)[a] == ids_of(images)[j]);
            }
        }
    }
}

/// With distinct image ids and `n` at most the number of images, the first
/// part of a split by image holds exactly `n` images: the first `n`.
pub proof fn lemma_image_split_size(d: DatasetView, n: nat)
    requires
        ids_of(d.images).no_duplicates(),
        n <= d.images.len(),
    ensures
        select_images(d.images, first_ids(d.images, n)) == d.images.take(n as int),
        select_images(d.images, first_ids(d.images, n)).len() == n,
{
    lemma_distinct_unique(ids_of(d.images));
    lemma_prefix_selection(d.images, n, d.images.len());
    assert(d.images.take(d.images.len() as int) =~= d.images);
}

fn contains_id(ids: &Vec<u32>, x: u32) -> (r: bool)
    ensures
        r == ids@.contains(x),
{
    let mut i: usize = 0;
    while i < ids.len()
        invariant
            i <= ids@.len(),
            forall|k: int| 0 <= k < i ==> ids@[k] != x,
        decreases ids@.len() - i,
    {
        if ids[i] == x {
            return true;
        }
        i += 1;
    }
    false
}

fn distinct_image_ids(images: &Vec<Image>) -> (r: Vec<u32>)
    ensures
        r@ == distinct(ids_of(images@)),
{
    let mut r: Vec<u32> = Vec::new();
    let mut i: usize = 0;
    while i < images.len()
        invariant
            i <= images@.len(),
            r@ == distinct(ids_of(images@.subrange(0, i as int))),
        decreases images@.len() - i,
    {
        let ghost prefix = ids_of(images@.subrange(0, i as int));
        let ghost next = ids_of(images@.subrange(0, i + 1));
        assert(next.drop_last() =~= prefix);
        assert(next.last() == images@[i as int].id);
        let id = images[i].id;
        if !contains_id(&r, id) {
            r.push(id);
        }
        i += 1;
    }
    assert(images@.subrange(0, images@.len() as int) =~= images@);
    r
}

fn select_images_in(images: &Vec<Image>, part: &Vec<u32>) -> (r: Vec<Image>)
    ensures
        r@ == select_images(images@, part@),
{
    let mut r: Vec<Image> = Vec::new();
    let mut i: usize = 0;
    while i < images.len()
        invariant
            i <= images@.len(),
            r@ == images@.subrange(0, i as int).filter(image_in(part@)),
        decreases images@.len() - i,
    {
        proof {
            images@.subrange(0, i as int).lemma_filter_push(images@[i as int], image_in(part@));
            assert(images@.subrange(0, i + 1) =~= images@.subrange(0, i as int).push(
                images@[i as int],
            ));
        }
        if contains_id(part, images[i].id) {
            r.push(images[i].duplicate());
        }
        i += 1;
    }
    assert(images@.subrange(0, images@.len() as int) =~= images@);
    r
}

fn select_annotations_in(annotations: &Vec<Annotation>, part: &Vec<u32>) -> (r: Vec<Annotation>)
    ensures
        annotation_views(r@) == select_annotations(annotation_views(annotations@), part@),
{
    let ghost all = annotation_views(annotations@);
    let mut r: Vec<Annotation> = Vec::new();
    let mut i: usize = 0;
    while i < annotations.len()
        invariant
            i <= annotations@.len(),
            all == annotation_views(annotations@),
            annotation_views(r@) == all.subrange(0, i as int).filter(annotation_in(part@)),
        decreases annotations@.len() - i,
    {
        proof {
            all.subrange(0, i as int).lemma_filter_push(all[i as int], annotation_in(part@));
            assert(all.subrange(0, i + 1) =~= all.subrange(0, i as int).push(all[i as int]));
        }
        if contains_id(part, annotations[i].image_id) {
            let a = annotations[i].duplicate();
            let ghost before = r@;
            r.push(a);
            assert(annotation_views(r@) =~= annotation_views(before).push(a@));
        }
        i += 1;
    }
    assert(all.subrange(0, all.len() as int) =~= all);
    r
}

fn category_ids_of(annotations: &Vec<Annotation>) -> (r: Vec<u32>)
    ensures
        r@ == category_ids(annotation_views(annotations@)),
{
    let mut r: Vec<u32> = Vec::new();
    let mut i: usize = 0;
    while i < annotations.len()
        invariant
            i <= annotations@.len(),
            r@ == category_ids(annotation_views(annotations@)).subrange(0, i as int),
        decreases annotations@.len() - i,
    {
        r.push(annotations[i].category_id);
        i += 1;
    }
    assert(r@ =~= category_ids(annotation_views(annotations@)));
    r
}

fn select_categories_in(categories: &Vec<Category>, ids: &Vec<u32>) -> (r: Vec<Category>)
    ensures
        r@ == categories@.filter(category_in(ids@)),
{
    let mut r: Vec<Category> = Vec::new();
    let mut i: usize = 0;
    while i < categories.len()
        invariant
            i <= categories@.len(),
            r@ == categories@.subrange(0, i as int).filter(category_in(ids@)),
        decreases categories@.len() - i,
    {
        proof {
            categories@.subrange(0, i as int).lemma_filter_push(categories@[i as int], category_in(ids@));
            assert(categories@.subrange(0, i + 1) =~= categories@.subrange(0, i as int).push(
                categories@[i as int],
            ));
        }
        if contains_id(ids, categories[i].id) {
            r.push(categories[i].duplicate());
        }
        i += 1;
    }
    assert(categories@.subrange(0, categories@.len() as int) =~= categories@);
    r
}

impl Dataset {
    /// The part of this dataset made of the images whose id is in `part`.
    fn project(&self, part: &Vec<u32>) -> (r: Dataset)
        ensures
            is_projection(r@, self@, part@),
    {
        let images = select_images_in(&self.images, part);
        let annotations = select_annotations_in(&self.annotations, part);
        let used = category_ids_of(&annotations);
        let categories = select_categories_in(&self.categories, &used);
        Dataset { images, annotations, categories, info: Info::new(), licenses: Vec::new() }
    }

    /// Splits by image: the first `n` distinct image ids, in order of first
    /// appearance, go to the first dataset (all of them when there are fewer),
    /// the other ids to the second. Each part keeps the images and annotations
    /// of its ids and the categories those annotations use, with fresh metadata
    /// and no licenses.
    pub fn image_split(&self, n: usize) -> (r: (Dataset, Dataset))
        ensures
            is_projection(r.0@, self@, first_ids(self.images@, n as nat)),
            is_projection(r.1@, self@, rest_ids(self.images@, n as nat)),
    {
        let mut first = distinct_image_ids(&self.images);
        let k: usize = if n <= first.len() {
            n
        } else {
            first.len()
        };
        let rest = first.split_off(k);
        assert(first@ =~= first_ids(self.images@, n as nat));
        assert(rest@ =~= rest_ids(self.images@, n as nat));
        (self.project(&first), self.project(&rest))
    }
}

} // verus!
