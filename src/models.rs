use vstd::prelude::*;

verus! {

/// An entity that carries an id, unique within its own collection.
pub trait Identifiable<T> {
    spec fn id_spec(&self) -> T;

    fn get_id(&self) -> (r: T)
        ensures
            r == self.id_spec(),
    ;
}

/// One picture of the dataset.
#[derive(Clone, Debug, PartialEq)]
pub struct Image {
    pub id: u32,
    pub file_name: String,
    pub date_captured: String,
    pub width: u32,
    pub height: u32,
    pub coco_url: String,
    pub license: u32,
    pub flickr_url: String,
}

impl Identifiable<u32> for Image {
    open spec fn id_spec(&self) -> u32 {
        self.id
    }

    fn get_id(&self) -> (r: u32) {
        self.id
    }
}

impl Image {
    /// A field-for-field copy.
    pub fn duplicate(&self) -> (r: Image)
        ensures
            r == *self,
    {
        Image {
            id: self.id,
            file_name: self.file_name.clone(),
            date_captured: self.date_captured.clone(),
            width: self.width,
            height: self.height,
            coco_url: self.coco_url.clone(),
            license: self.license,
            flickr_url: self.flickr_url.clone(),
        }
    }
}

/// A rectangle as x, y, width and height, each an IEEE-754 single-precision
/// bit pattern.
#[derive(Clone, Copy, Debug, PartialEq, Eq)]
pub struct BoundingBox {
    pub x: u32,
    pub y: u32,
    pub width: u32,
    pub height: u32,
}

/// One labelled region of an image.
///
/// The real-valued fields are held as IEEE-754 single-precision bit patterns,
/// which the library carries through unchanged.
#[derive(Clone, Debug, PartialEq)]
pub struct Annotation {
    pub id: u32,
    pub image_id: u32,
    pub category_id: u32,
    pub bbox: BoundingBox,
    pub area: u32,
    pub iscrowd: u8,
    /// Polygons, each a flat list of alternating x and y coordinates.
    pub segmentation: Vec<Vec<u32>>,
    /// Free-form key-value pairs; see `distinct_keys`.
    pub attributes: Vec<(String, String)>,
}

/// No key occurs twice among `attributes`.
pub open spec fn distinct_keys(attributes: Seq<(String, String)>) -> bool {
    forall|i: int, j: int|
        0 <= i < attributes.len() && 0 <= j < attributes.len() && i != j ==> (
        #[trigger] attributes[i]).0@ != (#[trigger] attributes[j]).0@
}

/// What an annotation holds, with its vectors seen as sequences.
pub ghost struct AnnotationView {
    pub id: u32,
    pub image_id: u32,
    pub category_id: u32,
    pub bbox: BoundingBox,
    pub area: u32,
    pub iscrowd: u8,
    pub segmentation: Seq<Seq<u32>>,
    pub attributes: Seq<(String, String)>,
}

impl View for Annotation {
    type V = AnnotationView;

    open spec fn view(&self) -> AnnotationView {
        AnnotationView {
            id: self.id,
            image_id: self.image_id,
            category_id: self.category_id,
            bbox: self.bbox,
            area: self.area,
            iscrowd: self.iscrowd,
            segmentation: self.segmentation@.map_values(|p: Vec<u32>| p@),
            attributes: self.attributes@,
        }
    }
}

impl Identifiable<u32> for Annotation {
    open spec fn id_spec(&self) -> u32 {
        self.id
    }

    fn get_id(&self) -> (r: u32) {
        self.id
    }
}

fn copy_polygon(p: &Vec<u32>) -> (r: Vec<u32>)
    ensures
        r@ == p@,
{
    let mut r: Vec<u32> = Vec::new();
    let mut i: usize = 0;
    while i < p.len()
        invariant
            i <= p@.len(),
            r@ == p@.subrange(0, i as int),
        decreases p@.len() - i,
    {
        r.push(p[i]);
        i += 1;
    }
    assert(r@ =~= p@);
    r
}

impl Annotation {
    /// Well formed: the attribute keys are distinct.
    pub open spec fn wf(&self) -> bool {
        distinct_keys(self.attributes@)
    }

    /// Whether the attribute keys are distinct.
    pub fn has_distinct_keys(&self) -> (r: bool)
        ensures
            r == self.wf(),
    {
        let n = self.attributes.len();
        let mut i: usize = 0;
        while i < n
            invariant
                n == self.attributes@.len(),
                i <= n,
                forall|a: int, b: int|
                    0 <= a < b < i ==> (#[trigger] self.attributes@[a]).0@ != (
                    #[trigger] self.attributes@[b]).0@,
            decreases n - i,
        {
            let mut j: usize = 0;
            while j < i
                invariant
                    n == self.attributes@.len(),
                    i < n,
                    j <= i,
                    forall|a: int|
                        0 <= a < j ==> (#[trigger] self.attributes@[a]).0@
                            != self.attributes@[i as int].0@,
                    forall|a: int, b: int|
                        0 <= a < b < i ==> (#[trigger] self.attributes@[a]).0@ != (
                        #[trigger] self.attributes@[b]).0@,
                decreases i - j,
            {
                if self.attributes[j].0 == self.attributes[i].0 {
                    return false;
                }
                j += 1;
            }
            i += 1;
        }
        assert forall|a: int, b: int|
            0 <= a < n && 0 <= b < n && a != b implies (
            #[trigger] self.attributes@[a]).0@ != (#[trigger] self.attributes@[b]).0@ by {
            if a < b {
                assert(self.attributes@[a].0@ != self.attributes@[b].0@);
            } else {
                assert(self.attributes@[b].0@ != self.attributes@[a].0@);
            }
        }
        true
    }

    /// A copy with the same view; it is well formed when this one is.
    pub fn duplicate(&self) -> (r: Annotation)
        ensures
            r@ == self@,
            self.wf() ==> r.wf(),
    {
        let mut segmentation: Vec<Vec<u32>> = Vec::new();
        let mut i: usize = 0;
        while i < self.segmentation.len()
            invariant
                i <= self.segmentation@.len(),
                segmentation@.len() == i,
                forall|k: int| 0 <= k < i ==> segmentation@[k]@ == self.segmentation@[k]@,
            decreases self.segmentation@.len() - i,
        {
            segmentation.push(copy_polygon(&self.segmentation[i]));
            i += 1;
        }
        let mut attributes: Vec<(String, String)> = Vec::new();
        let mut j: usize = 0;
        while j < self.attributes.len()
            invariant
                j <= self.attributes@.len(),
                attributes@ == self.attributes@.subrange(0, j as int),
            decreases self.attributes@.len() - j,
        {
            let kv = &self.attributes[j];
            attributes.push((kv.0.clone(), kv.1.clone()));
            j += 1;
        }
        let r = Annotation {
            id: self.id,
            image_id: self.image_id,
            category_id: self.category_id,
            bbox: self.bbox,
            area: self.area,
            iscrowd: self.iscrowd,
            segmentation,
            attributes,
        };
        assert(r@.segmentation =~= self@.segmentation);
        assert(r@.attributes =~= self@.attributes);
        r
    }
}

/// A class that annotations are labelled with.
#[derive(Clone, Debug, PartialEq)]
pub struct Category {
    pub id: u32,
    pub supercategory: String,
    pub name: String,
}

impl Identifiable<u32> for Category {
    open spec fn id_spec(&self) -> u32 {
        self.id
    }

    fn get_id(&self) -> (r: u32) {
        self.id
    }
}

impl Category {
    /// A field-for-field copy.
    pub fn duplicate(&self) -> (r: Category)
        ensures
            r == *self,
    {
        Category { id: self.id, supercategory: self.supercategory.clone(), name: self.name.clone() }
    }
}

/// Metadata of a dataset.
#[derive(Clone, Debug, PartialEq)]
pub struct Info {
    pub name: String,
    pub version: String,
    pub date: String,
    pub description: String,
    pub author: String,
}

/// The version that fresh metadata starts with.
pub open spec fn default_version() -> Seq<char> {
    seq!['0', '.', '1', '.', '0']
}

/// Fresh metadata: empty texts, the default version, and a creation date,
/// which is never empty.
pub open spec fn is_fresh_info(i: Info) -> bool {
    &&& i.name@ == Seq::<char>::empty()
    &&& i.version@ == default_version()
    &&& i.date@.len() > 0
    &&& i.description@ == Seq::<char>::empty()
    &&& i.author@ == Seq::<char>::empty()
}

/// Relies on chrono's `From<SystemTime>` for `DateTime<Utc>`, which also takes
/// a clock set before 1970, and on its `Display`, which writes the date, the
/// time, a space and `UTC`: the current time as non-empty text. What the text
/// says depends on the clock, so nothing more is stated of it.
#[verifier::external_body]
fn current_timestamp() -> (r: String)
    ensures
        r@.len() > 0,
{
    chrono::DateTime::<chrono::Utc>::from(std::time::SystemTime::now()).to_string()
}

impl Info {
    /// Fresh metadata, dated now.
    pub fn new() -> (r: Info)
        ensures
            is_fresh_info(r),
    {
        let version = "0.1.0".to_string();
        proof {
            reveal_strlit("0.1.0");
        }
        assert(version@ =~= default_version());
        Info {
            name: String::new(),
            version,
            date: current_timestamp(),
            description: String::new(),
            author: String::new(),
        }
    }

    /// A field-for-field copy.
    pub fn duplicate(&self) -> (r: Info)
        ensures
            r == *self,
    {
        Info {
            name: self.name.clone(),
            version: self.version.clone(),
            date: self.date.clone(),
            description: self.description.clone(),
            author: self.author.clone(),
        }
    }
}

/// A license that images may point to.
#[derive(Clone, Debug, PartialEq)]
pub struct License {
    pub id: u32,
    pub name: String,
    pub description: String,
}

impl License {
    /// A field-for-field copy.
    pub fn duplicate(&self) -> (r: License)
        ensures
            r == *self,
    {
        License { id: self.id, name: self.name.clone(), description: self.description.clone() }
    }
}

/// The root aggregate: ordered collections of entities and metadata.
#[derive(Clone, Debug, PartialEq)]
pub struct Dataset {
    pub images: Vec<Image>,
    pub annotations: Vec<Annotation>,
    pub categories: Vec<Category>,
    pub info: Info,
    pub licenses: Vec<License>,
}

/// What a dataset holds, as sequences.
pub ghost struct DatasetView {
    pub images: Seq<Image>,
    pub annotations: Seq<AnnotationView>,
    pub categories: Seq<Category>,
    pub info: Info,
    pub licenses: Seq<License>,
}

pub open spec fn annotation_views(s: Seq<Annotation>) -> Seq<AnnotationView> {
    s.map_values(|a: Annotation| a@)
}

impl View for Dataset {
    type V = DatasetView;

    open spec fn view(&self) -> DatasetView {
        DatasetView {
            images: self.images@,
            annotations: annotation_views(self.annotations@),
            categories: self.categories@,
            info: self.info,
            licenses: self.licenses@,
        }
    }
}

impl Dataset {
    pub fn new(
        images: Vec<Image>,
        annotations: Vec<Annotation>,
        categories: Vec<Category>,
        info: Info,
        licenses: Vec<License>,
    ) -> (r: Dataset)
        ensures
            r.images == images,
            r.annotations == annotations,
            r.categories == categories,
            r.info == info,
            r.licenses == licenses,
    {
        Dataset { images, annotations, categories, info, licenses }
    }
}

} // verus!
