//! Layout detections: their classes, and what is done to the candidates that
//! the model puts out before they are used.
//!
//! Candidates below the score threshold are dropped, the rest are put in
//! descending order of their scores, a candidate that overlaps a better one of
//! its class too much is suppressed, and the survivors are scaled from the
//! pixels of the rendering back to page units.

use crate::entities::ElementType;
use crate::geometry::{BBox, Ratio};
use crate::native::raster_scale;
use crate::order::{sort_by_key, spec_sort, SortKey};
use vstd::prelude::*;
use vstd::string::*;

verus! {

/// The classes that the layout model knows, and those that other models name.
#[derive(Clone, Copy, Debug, PartialEq, Eq, Structural)]
pub enum LayoutClass {
    Caption,
    Footnote,
    Formula,
    ListItem,
    PageFooter,
    PageHeader,
    Picture,
    Figure,
    SectionHeader,
    Table,
    Text,
    Paragraph,
    Title,
    Unknown,
}

impl LayoutClass {
    /// The class that a label names. Labels that are not listed are unknown.
    pub open spec fn spec_from_label(label: Seq<char>) -> LayoutClass {
        if label == "Caption"@ {
            LayoutClass::Caption
        } else if label == "Footnote"@ {
            LayoutClass::Footnote
        } else if label == "Formula"@ {
            LayoutClass::Formula
        } else if label == "List-item"@ {
            LayoutClass::ListItem
        } else if label == "Page-footer"@ {
            LayoutClass::PageFooter
        } else if label == "Page-header"@ {
            LayoutClass::PageHeader
        } else if label == "Picture"@ {
            LayoutClass::Picture
        } else if label == "Figure"@ {
            LayoutClass::Figure
        } else if label == "Section-header"@ {
            LayoutClass::SectionHeader
        } else if label == "Table"@ {
            LayoutClass::Table
        } else if label == "Text"@ {
            LayoutClass::Text
        } else if label == "Paragraph"@ {
            LayoutClass::Paragraph
        } else if label == "Title"@ {
            LayoutClass::Title
        } else {
            LayoutClass::Unknown
        }
    }

    /// The kind of element that a region of this class becomes. Classes
    /// without a kind of their own become text.
    pub open spec fn spec_kind(&self) -> ElementType {
        match *self {
            LayoutClass::Title | LayoutClass::SectionHeader => ElementType::Title,
            LayoutClass::Text | LayoutClass::Paragraph => ElementType::Text,
            LayoutClass::ListItem => ElementType::ListItem,
            LayoutClass::PageHeader => ElementType::Header,
            LayoutClass::PageFooter => ElementType::Footer,
            LayoutClass::Picture | LayoutClass::Figure => ElementType::Image,
            LayoutClass::Table => ElementType::Table,
            LayoutClass::Caption => ElementType::Caption,
            _ => ElementType::Text,
        }
    }

    pub fn from_label(label: &str) -> (r: LayoutClass)
        ensures
            r == Self::spec_from_label(label@),
    {
        if same_text(label, "Caption") {
            LayoutClass::Caption
        } else if same_text(label, "Footnote") {
            LayoutClass::Footnote
        } else if same_text(label, "Formula") {
            LayoutClass::Formula
        } else if same_text(label, "List-item") {
            LayoutClass::ListItem
        } else if same_text(label, "Page-footer") {
            LayoutClass::PageFooter
        } else if same_text(label, "Page-header") {
            LayoutClass::PageHeader
        } else if same_text(label, "Picture") {
            LayoutClass::Picture
        } else if same_text(label, "Figure") {
            LayoutClass::Figure
        } else if same_text(label, "Section-header") {
            LayoutClass::SectionHeader
        } else if same_text(label, "Table") {
            LayoutClass::Table
        } else if same_text(label, "Text") {
            LayoutClass::Text
        } else if same_text(label, "Paragraph") {
            LayoutClass::Paragraph
        } else if same_text(label, "Title") {
            LayoutClass::Title
        } else {
            LayoutClass::Unknown
        }
    }

    pub fn kind(&self) -> (k: ElementType)
        ensures
            k == self.spec_kind(),
    {
        match self {
            LayoutClass::Title => ElementType::Title,
            LayoutClass::SectionHeader => ElementType::Title,
            LayoutClass::Text => ElementType::Text,
            LayoutClass::Paragraph => ElementType::Text,
            LayoutClass::ListItem => ElementType::ListItem,
            LayoutClass::PageHeader => ElementType::Header,
            LayoutClass::PageFooter => ElementType::Footer,
            LayoutClass::Picture => ElementType::Image,
            LayoutClass::Figure => ElementType::Image,
            LayoutClass::Table => ElementType::Table,
            LayoutClass::Caption => ElementType::Caption,
            _ => ElementType::Text,
        }
    }
}

/// Whether two texts hold the same characters.
pub fn same_text(a: &str, b: &str) -> (r: bool)
    ensures
        r == (a@ == b@),
{
    let n: usize = a.unicode_len();
    if n != b.unicode_len() {
        return false;
    }
    let mut i: usize = 0;
    while i < n
        invariant
            i <= n,
            n == a@.len(),
            n == b@.len(),
            forall|k: int| 0 <= k < i ==> a@[k] == b@[k],
        decreases n - i,
    {
        if a.get_char(i) != b.get_char(i) {
            return false;
        }
        i = i + 1;
    }
    assert(a@ =~= b@);
    true
}

/// The kind of element that a region with this label becomes.
pub fn kind_of_label(label: &str) -> (k: ElementType)
    ensures
        k == LayoutClass::spec_from_label(label@).spec_kind(),
{
    LayoutClass::from_label(label).kind()
}

/// One detection: a box, its class, and its score in parts of `SCORE_UNIT`.
#[derive(Clone, Copy, Debug, PartialEq, Eq, Structural)]
pub struct LayoutBBox {
    pub id: usize,
    pub bbox: BBox,
    pub class: LayoutClass,
    pub score: u32,
}

/// The score of a detection that the model is sure of.
pub const SCORE_UNIT: u32 = 10_000;

impl SortKey for LayoutBBox {
    open spec fn spec_sort_key(&self) -> u64 {
        (u32::MAX - self.score) as u64
    }

    fn sort_key(&self) -> (k: u64) {
        (u32::MAX - self.score) as u64
    }
}

/// Number of classes.
pub const CLASS_COUNT: usize = 14;

impl LayoutClass {
    /// The place of the class in the tables of thresholds.
    pub open spec fn spec_index(&self) -> int {
        match *self {
            LayoutClass::Caption => 0,
            LayoutClass::Footnote => 1,
            LayoutClass::Formula => 2,
            LayoutClass::ListItem => 3,
            LayoutClass::PageFooter => 4,
            LayoutClass::PageHeader => 5,
            LayoutClass::Picture => 6,
            LayoutClass::Figure => 7,
            LayoutClass::SectionHeader => 8,
            LayoutClass::Table => 9,
            LayoutClass::Text => 10,
            LayoutClass::Paragraph => 11,
            LayoutClass::Title => 12,
            LayoutClass::Unknown => 13,
        }
    }

    pub fn index(&self) -> (i: usize)
        ensures
            i == self.spec_index(),
            i < CLASS_COUNT,
    {
        match self {
            LayoutClass::Caption => 0,
            LayoutClass::Footnote => 1,
            LayoutClass::Formula => 2,
            LayoutClass::ListItem => 3,
            LayoutClass::PageFooter => 4,
            LayoutClass::PageHeader => 5,
            LayoutClass::Picture => 6,
            LayoutClass::Figure => 7,
            LayoutClass::SectionHeader => 8,
            LayoutClass::Table => 9,
            LayoutClass::Text => 10,
            LayoutClass::Paragraph => 11,
            LayoutClass::Title => 12,
            LayoutClass::Unknown => 13,
        }
    }
}

/// The thresholds of post-processing, one of each kind for every class. A
/// detection is held against the others of its class only.
#[derive(Clone, Copy, Debug)]
pub struct LayoutConfig {
    /// The lowest score that a detection of a class may have.
    pub min_score: [u32; 14],
    /// The intersection over union from which on the weaker of two
    /// detections of a class is suppressed.
    pub max_iou: [Ratio; 14],
}

impl LayoutConfig {
    pub open spec fn spec_min_score(&self, class: LayoutClass) -> u32 {
        self.min_score@[class.spec_index()]
    }

    pub open spec fn spec_max_iou(&self, class: LayoutClass) -> Ratio {
        self.max_iou@[class.spec_index()]
    }

    /// Every class has these two thresholds.
    pub open spec fn spec_is_uniform(&self, min_score: u32, max_iou: Ratio) -> bool {
        forall|class: LayoutClass|
            #![trigger class.spec_index()]
            self.spec_min_score(class) == min_score && self.spec_max_iou(class) == max_iou
    }

    /// The same thresholds for every class.
    pub fn uniform(min_score: u32, max_iou: Ratio) -> (c: LayoutConfig)
        ensures
            c.spec_is_uniform(min_score, max_iou),
    {
        let s: u32 = min_score;
        let r: Ratio = max_iou;
        LayoutConfig {
            min_score: [s, s, s, s, s, s, s, s, s, s, s, s, s, s],
            max_iou: [r, r, r, r, r, r, r, r, r, r, r, r, r, r],
        }
    }

    /// For every class a score of at least 0.3 and an overlap below 0.8.
    pub fn standard() -> (c: LayoutConfig)
        ensures
            c.spec_is_uniform(3_000, Ratio { num: 8, den: 10 }),
    {
        Self::uniform(3_000, Ratio { num: 8, den: 10 })
    }

    pub fn min_score_of(&self, class: LayoutClass) -> (s: u32)
        ensures
            s == self.spec_min_score(class),
    {
        self.min_score[class.index()]
    }

    pub fn max_iou_of(&self, class: LayoutClass) -> (r: Ratio)
        ensures
            r == self.spec_max_iou(class),
    {
        self.max_iou[class.index()]
    }
}

/// Those of the first `n` candidates whose score reaches the threshold.
pub open spec fn spec_confident(candidates: Seq<LayoutBBox>, config: LayoutConfig, n: int) -> Seq<
    LayoutBBox,
>
    decreases n,
{
    if n <= 0 {
        Seq::empty()
    } else if candidates[n - 1].score >= config.spec_min_score(candidates[n - 1].class) {
        spec_confident(candidates, config, n - 1).push(candidates[n - 1])
    } else {
        spec_confident(candidates, config, n - 1)
    }
}

/// `a` and `b` are of one class and overlap too much for both to stay.
pub open spec fn spec_clash(a: LayoutBBox, b: LayoutBBox, config: LayoutConfig) -> bool {
    a.class == b.class && a.bbox.spec_iou_at_least(b.bbox, config.spec_max_iou(a.class))
}

/// One of the first `m` detections that were kept clashes with `b`.
pub open spec fn spec_suppressed(kept: Seq<LayoutBBox>, b: LayoutBBox, config: LayoutConfig, m: int) -> bool
    decreases m,
{
    m > 0 && (spec_suppressed(kept, b, config, m - 1) || spec_clash(kept[m - 1], b, config))
}

/// Those of the first `n` detections, taken in their order, that clash with
/// none that was kept before them.
pub open spec fn spec_nms(sorted: Seq<LayoutBBox>, config: LayoutConfig, n: int) -> Seq<LayoutBBox>
    decreases n,
{
    if n <= 0 {
        Seq::empty()
    } else {
        let kept = spec_nms(sorted, config, n - 1);
        if spec_suppressed(kept, sorted[n - 1], config, kept.len() as int) {
            kept
        } else {
            kept.push(sorted[n - 1])
        }
    }
}

/// The first `n` detections scaled by `factor` and numbered from zero; one
/// that leaves the grid or collapses under the scaling is dropped, and so are
/// all where the factor has no value.
pub open spec fn spec_to_page(kept: Seq<LayoutBBox>, factor: Ratio, n: int) -> Seq<LayoutBBox>
    decreases n,
{
    if n <= 0 {
        Seq::empty()
    } else {
        let before = spec_to_page(kept, factor, n - 1);
        match kept[n - 1].bbox.spec_scale(factor) {
            Some(bbox) => before.push(
                LayoutBBox {
                    id: before.len() as usize,
                    bbox,
                    class: kept[n - 1].class,
                    score: kept[n - 1].score,
                },
            ),
            None => before,
        }
    }
}

/// The detections of a page out of the candidates of the model.
pub open spec fn spec_postprocess(
    candidates: Seq<LayoutBBox>,
    config: LayoutConfig,
    downscale: Ratio,
) -> Seq<LayoutBBox> {
    let confident = spec_confident(candidates, config, candidates.len() as int);
    let sorted = spec_sort(confident);
    let kept = spec_nms(sorted, config, sorted.len() as int);
    spec_to_page(kept, downscale, kept.len() as int)
}

/// `b` is one of the first `n` detections.
pub open spec fn spec_came_in(sorted: Seq<LayoutBBox>, n: int, b: LayoutBBox) -> bool {
    exists|k: int| 0 <= k < n && #[trigger] sorted[k] == b
}

/// Suppression keeps detections apart: no two that were kept clash, and every
/// one that was kept came in.
pub proof fn lemma_nms_separates(sorted: Seq<LayoutBBox>, config: LayoutConfig, n: int)
    requires
        0 <= n <= sorted.len(),
    ensures
        spec_nms(sorted, config, n).len() <= n,
        forall|i: int, j: int|
            0 <= i < j < spec_nms(sorted, config, n).len() ==> !spec_clash(
                #[trigger] spec_nms(sorted, config, n)[i],
                #[trigger] spec_nms(sorted, config, n)[j],
                config,
            ),
        forall|i: int|
            0 <= i < spec_nms(sorted, config, n).len() ==> spec_came_in(
                sorted,
                n,
                #[trigger] spec_nms(sorted, config, n)[i],
            ),
    decreases n,
{
    if n > 0 {
        lemma_nms_separates(sorted, config, n - 1);
        let before = spec_nms(sorted, config, n - 1);
        let after = spec_nms(sorted, config, n);
        let b = sorted[n - 1];
        assert forall|i: int| 0 <= i < after.len() implies spec_came_in(
            sorted,
            n,
            #[trigger] after[i],
        ) by {
            if i < before.len() {
                assert(after[i] == before[i]);
                assert(spec_came_in(sorted, n - 1, before[i]));
                let k = choose|k: int| 0 <= k < n - 1 && #[trigger] sorted[k] == before[i];
                assert(sorted[k] == after[i]);
            } else {
                assert(sorted[n - 1] == after[i]);
            }
        }
        if !spec_suppressed(before, b, config, before.len() as int) {
            assert forall|i: int, j: int| 0 <= i < j < after.len() implies !spec_clash(
                #[trigger] after[i],
                #[trigger] after[j],
                config,
            ) by {
                if j < before.len() {
                    assert(after[i] == before[i] && after[j] == before[j]);
                } else {
                    assert(after[i] == before[i]);
                    lemma_not_suppressed(before, b, config, before.len() as int, i);
                }
            }
        }
    }
}

proof fn lemma_not_suppressed(kept: Seq<LayoutBBox>, b: LayoutBBox, config: LayoutConfig, m: int, i: int)
    requires
        0 <= i < m <= kept.len(),
        !spec_suppressed(kept, b, config, m),
    ensures
        !spec_clash(kept[i], b, config),
    decreases m,
{
    if i < m - 1 {
        lemma_not_suppressed(kept, b, config, m - 1, i);
    }
}

fn confident(candidates: &Vec<LayoutBBox>, config: &LayoutConfig) -> (r: Vec<LayoutBBox>)
    ensures
        r@ == spec_confident(candidates@, *config, candidates.len() as int),
{
    let mut r: Vec<LayoutBBox> = Vec::new();
    let mut i: usize = 0;
    while i < candidates.len()
        invariant
            i <= candidates.len(),
            r@ == spec_confident(candidates@, *config, i as int),
        decreases candidates.len() - i,
    {
        if candidates[i].score >= config.min_score_of(candidates[i].class) {
            r.push(candidates[i]);
        }
        i = i + 1;
    }
    r
}

fn suppressed(kept: &Vec<LayoutBBox>, b: &LayoutBBox, config: &LayoutConfig) -> (r: bool)
    ensures
        r == spec_suppressed(kept@, *b, *config, kept.len() as int),
{
    let mut found: bool = false;
    let mut m: usize = 0;
    while m < kept.len()
        invariant
            m <= kept.len(),
            found == spec_suppressed(kept@, *b, *config, m as int),
        decreases kept.len() - m,
    {
        let k: LayoutBBox = kept[m];
        if !found && same_class(k.class, b.class) && k.bbox.iou_at_least(&b.bbox, config.max_iou_of(k.class)) {
            found = true;
        }
        m = m + 1;
    }
    found
}

fn same_class(a: LayoutClass, b: LayoutClass) -> (r: bool)
    ensures
        r == (a == b),
{
    a == b
}

/// Keeps, of detections in descending order of their scores, those that clash
/// with none that was kept before them.
pub fn nms(sorted: &Vec<LayoutBBox>, config: &LayoutConfig) -> (kept: Vec<LayoutBBox>)
    ensures
        kept@ == spec_nms(sorted@, *config, sorted.len() as int),
{
    let mut kept: Vec<LayoutBBox> = Vec::new();
    let mut i: usize = 0;
    while i < sorted.len()
        invariant
            i <= sorted.len(),
            kept@ == spec_nms(sorted@, *config, i as int),
        decreases sorted.len() - i,
    {
        let b: LayoutBBox = sorted[i];
        if !suppressed(&kept, &b, config) {
            kept.push(b);
        }
        i = i + 1;
    }
    kept
}

fn to_page(kept: &Vec<LayoutBBox>, factor: Ratio) -> (r: Vec<LayoutBBox>)
    ensures
        r@ == spec_to_page(kept@, factor, kept.len() as int),
{
    let mut r: Vec<LayoutBBox> = Vec::new();
    let mut i: usize = 0;
    while i < kept.len()
        invariant
            i <= kept.len(),
            r@ == spec_to_page(kept@, factor, i as int),
        decreases kept.len() - i,
    {
        let b: LayoutBBox = kept[i];
        match b.bbox.scale(factor) {
            Some(bbox) => {
                let id: usize = r.len();
                r.push(LayoutBBox { id, bbox, class: b.class, score: b.score });
            },
            None => {},
        }
        i = i + 1;
    }
    r
}

/// Turns the candidates of the model, in the pixels of the rendering, into
/// the detections of the page, in page units.
pub fn postprocess(candidates: &Vec<LayoutBBox>, config: &LayoutConfig, downscale: Ratio) -> (r:
    Vec<LayoutBBox>)
    ensures
        r@ == spec_postprocess(candidates@, *config, downscale),
{
    let sure: Vec<LayoutBBox> = confident(candidates, config);
    let sorted: Vec<LayoutBBox> = sort_by_key(sure);
    let kept: Vec<LayoutBBox> = nms(&sorted, config);
    to_page(&kept, downscale)
}

/// How an image is fitted into the raster of the model: scaled by `scale`
/// to `width` by `height` pixels, which keeps its proportions, and set
/// `pad_x` pixels from the left and `pad_y` from the top.
#[derive(Clone, Copy, Debug, PartialEq, Eq, Structural)]
pub struct Letterbox {
    pub scale: Ratio,
    pub width: u32,
    pub height: u32,
    pub pad_x: u32,
    pub pad_y: u32,
}

pub open spec fn spec_letterbox(
    image_width: u32,
    image_height: u32,
    raster_width: u32,
    raster_height: u32,
) -> Option<Letterbox> {
    match crate::native::spec_raster_scale(raster_width, raster_height, image_width, image_height) {
        None => None,
        Some(scale) => {
            let width = scale.spec_apply(image_width as int);
            let height = scale.spec_apply(image_height as int);
            Some(
                Letterbox {
                    scale,
                    width: width as u32,
                    height: height as u32,
                    pad_x: ((raster_width - width) / 2) as u32,
                    pad_y: ((raster_height - height) / 2) as u32,
                },
            )
        },
    }
}

/// Fits an image into the raster of the model without changing its
/// proportions; the image is centred, and what is left of the raster is
/// padding. An image without width or height cannot be fitted.
pub fn letterbox(image_width: u32, image_height: u32, raster_width: u32, raster_height: u32) -> (r:
    Option<Letterbox>)
    ensures
        r == spec_letterbox(image_width, image_height, raster_width, raster_height),
        r is Some ==> {
            let l = r.unwrap();
            &&& l.width + 2 * l.pad_x <= raster_width
            &&& l.height + 2 * l.pad_y <= raster_height
            &&& raster_width - (l.width + 2 * l.pad_x) <= 1
            &&& raster_height - (l.height + 2 * l.pad_y) <= 1
        },
{
    match raster_scale(raster_width, raster_height, image_width, image_height) {
        None => None,
        Some(scale) => {
            let width: u32 = scale.apply(image_width) as u32;
            let height: u32 = scale.apply(image_height) as u32;
            Some(
                Letterbox {
                    scale,
                    width,
                    height,
                    pad_x: (raster_width - width) / 2,
                    pad_y: (raster_height - height) / 2,
                },
            )
        },
    }
}

/// What the layout stage answers for one page.
#[derive(Debug)]
pub struct ParseLayoutResponse {
    pub page_id: usize,
    pub layout_bbox: Vec<LayoutBBox>,
    pub layout_parse_duration_ms: u128,
    pub layout_queue_time_ms: u128,
}

} // verus!
