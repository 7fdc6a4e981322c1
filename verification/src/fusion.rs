//! Fusing the text lines of a page with its layout detections.
//!
//! Fusion has two halves, with recognition of text between them where a
//! region has none. The first half plans the page: it finds the lines that no
//! detection covers, attaches them to the nearest detection of text or makes
//! regions of their own out of them, notes the detections of text that are
//! left without lines, and puts all regions in reading order. The second half
//! builds the elements: one for every region, numbered in reading order, with
//! the text of its lines or of what recognition has read.

use crate::document::{median, spec_median};
use crate::entities::{Element, ElementText, ElementType, ElementView, StructuredPage};
use crate::geometry::{BBox, Ratio};
use crate::layout::LayoutBBox;
use crate::ocr::{OCRLines, OCRLinesView};
use crate::order::{ascending, sort_by_key, spec_sort, SortKey};
use crate::text::{Line, LineView};
use vstd::prelude::*;
use vstd::string::*;

verus! {

/// The thresholds of fusion.
#[derive(Clone, Copy, Debug, PartialEq, Eq, Structural)]
pub struct FusionConfig {
    /// The intersection over union from which on a line belongs to a region.
    pub line_overlap: Ratio,
    /// The largest distance, in page units, over which a line that no region
    /// covers is attached to a region.
    pub orphan_distance: u32,
}

impl FusionConfig {
    pub open spec fn spec_standard() -> FusionConfig {
        FusionConfig { line_overlap: Ratio { num: 1, den: 2 }, orphan_distance: 2_000 }
    }

    /// Half of the union shared; orphans attached over 2000 page units.
    pub fn standard() -> (c: FusionConfig)
        ensures
            c == Self::spec_standard(),
    {
        FusionConfig { line_overlap: Ratio { num: 1, den: 2 }, orphan_distance: 2_000 }
    }
}

/// Where a region comes from: a layout detection, by its position among the
/// detections, or a line that no detection took, by its position among the lines.
#[derive(Clone, Copy, Debug, PartialEq, Eq, Structural)]
pub enum RegionSource {
    Layout(usize),
    Orphan(usize),
}

/// A region of a page that becomes an element.
#[derive(Clone, Copy, Debug, PartialEq, Eq, Structural)]
pub struct Region {
    pub bbox: BBox,
    pub kind: ElementType,
    pub score: u32,
    pub needs_ocr: bool,
    pub source: RegionSource,
    /// The place in reading order: the row band, then the left edge.
    pub order_key: u64,
}

impl SortKey for Region {
    open spec fn spec_sort_key(&self) -> u64 {
        self.order_key
    }

    fn sort_key(&self) -> (k: u64) {
        self.order_key
    }
}

/// The plan of a page.
#[derive(Debug)]
pub struct PagePlan {
    /// The regions in reading order.
    pub regions: Vec<Region>,
    /// For every line, the detection that it is attached to, where no
    /// detection covers it and one of text is near enough.
    pub attached: Vec<Option<usize>>,
    /// The median height of the lines.
    pub line_height: u32,
    pub config: FusionConfig,
}

/// The line belongs to the region: the two overlap enough, or the middle of
/// the line lies in the region.
pub open spec fn spec_line_matches(line: BBox, region: BBox, config: FusionConfig) -> bool {
    line.spec_iou_at_least(region, config.line_overlap) || region.spec_contains_point(
        line.spec_center_x(),
        line.spec_center_y(),
    )
}

/// One of the first `m` detections covers the line.
pub open spec fn spec_covered(line: BBox, boxes: Seq<LayoutBBox>, config: FusionConfig, m: int) -> bool
    decreases m,
{
    m > 0 && (spec_covered(line, boxes, config, m - 1) || spec_line_matches(
        line,
        boxes[m - 1].bbox,
        config,
    ))
}

/// The nearest of the first `m` detections that holds text and lies within
/// the distance for orphans; of two equally near, the first.
pub open spec fn spec_nearest(line: BBox, boxes: Seq<LayoutBBox>, config: FusionConfig, m: int) -> Option<
    usize,
>
    decreases m,
{
    if m <= 0 {
        None
    } else {
        let best = spec_nearest(line, boxes, config, m - 1);
        let b = boxes[m - 1];
        let d = line.spec_distance(b.bbox);
        if b.class.spec_kind().spec_is_textual() && d <= config.orphan_distance && (best is None
            || d < line.spec_distance(boxes[best.unwrap() as int].bbox)) {
            Some((m - 1) as usize)
        } else {
            best
        }
    }
}

/// The detection that the line is attached to.
pub open spec fn spec_attached(line: BBox, boxes: Seq<LayoutBBox>, config: FusionConfig) -> Option<
    usize,
> {
    if spec_covered(line, boxes, config, boxes.len() as int) {
        None
    } else {
        spec_nearest(line, boxes, config, boxes.len() as int)
    }
}

/// The line is left to itself: no detection covers it, and none takes it in.
pub open spec fn spec_standalone(line: BBox, boxes: Seq<LayoutBBox>, config: FusionConfig) -> bool {
    !spec_covered(line, boxes, config, boxes.len() as int) && spec_nearest(
        line,
        boxes,
        config,
        boxes.len() as int,
    ) is None
}

/// One of the first `n` lines belongs to the region.
pub open spec fn spec_has_lines(lines: Seq<BBox>, region: BBox, config: FusionConfig, n: int) -> bool
    decreases n,
{
    n > 0 && (spec_has_lines(lines, region, config, n - 1) || spec_line_matches(
        lines[n - 1],
        region,
        config,
    ))
}

/// Height of a row band: half the median line height, and no less than one.
pub open spec fn spec_band_height(line_height: u32) -> int {
    if line_height / 2 >= 1 {
        (line_height / 2) as int
    } else {
        1
    }
}

/// The place of a box in reading order: rows from top to bottom, a row being
/// a band of half a line's height, and within a row from left to right.
pub open spec fn spec_order_key(bbox: BBox, line_height: u32) -> u64 {
    ((bbox.y0 as int / spec_band_height(line_height)) * 0x1_0000_0000 + bbox.x0) as u64
}

/// The region of a detection. A detection of text that no line belongs to
/// has to be read by recognition.
pub open spec fn spec_layout_region(
    boxes: Seq<LayoutBBox>,
    lines: Seq<BBox>,
    config: FusionConfig,
    line_height: u32,
    j: int,
) -> Region {
    let b = boxes[j];
    Region {
        bbox: b.bbox,
        kind: b.class.spec_kind(),
        score: b.score,
        needs_ocr: b.class.spec_kind().spec_is_textual() && !spec_has_lines(
            lines,
            b.bbox,
            config,
            lines.len() as int,
        ),
        source: RegionSource::Layout(j as usize),
        order_key: spec_order_key(b.bbox, line_height),
    }
}

/// The region of a line that is left to itself.
pub open spec fn spec_orphan_region(lines: Seq<BBox>, line_height: u32, i: int) -> Region {
    Region {
        bbox: lines[i],
        kind: ElementType::Text,
        score: 0,
        needs_ocr: false,
        source: RegionSource::Orphan(i as usize),
        order_key: spec_order_key(lines[i], line_height),
    }
}

/// The regions of the first `m` detections.
pub open spec fn spec_layout_regions(
    boxes: Seq<LayoutBBox>,
    lines: Seq<BBox>,
    config: FusionConfig,
    line_height: u32,
    m: int,
) -> Seq<Region>
    decreases m,
{
    if m <= 0 {
        Seq::empty()
    } else {
        spec_layout_regions(boxes, lines, config, line_height, m - 1).push(
            spec_layout_region(boxes, lines, config, line_height, m - 1),
        )
    }
}

/// The regions of those of the first `n` lines that are left to themselves.
pub open spec fn spec_orphan_regions(
    boxes: Seq<LayoutBBox>,
    lines: Seq<BBox>,
    config: FusionConfig,
    line_height: u32,
    n: int,
) -> Seq<Region>
    decreases n,
{
    if n <= 0 {
        Seq::empty()
    } else if spec_standalone(lines[n - 1], boxes, config) {
        spec_orphan_regions(boxes, lines, config, line_height, n - 1).push(
            spec_orphan_region(lines, line_height, n - 1),
        )
    } else {
        spec_orphan_regions(boxes, lines, config, line_height, n - 1)
    }
}

/// The boxes of the lines.
pub open spec fn spec_line_boxes(lines: Seq<LineView>) -> Seq<BBox> {
    Seq::new(lines.len(), |i: int| lines[i].bbox)
}

/// The heights of the boxes.
pub open spec fn spec_heights(boxes: Seq<BBox>) -> Seq<u32> {
    Seq::new(boxes.len(), |i: int| boxes[i].spec_height() as u32)
}

/// The regions of a page in reading order.
pub open spec fn spec_plan_regions(
    lines: Seq<BBox>,
    boxes: Seq<LayoutBBox>,
    config: FusionConfig,
) -> Seq<Region> {
    let line_height = spec_median(spec_heights(lines));
    spec_sort(
        spec_layout_regions(boxes, lines, config, line_height, boxes.len() as int)
            + spec_orphan_regions(boxes, lines, config, line_height, lines.len() as int),
    )
}

fn line_matches(line: &BBox, region: &BBox, config: &FusionConfig) -> (r: bool)
    ensures
        r == spec_line_matches(*line, *region, *config),
{
    line.iou_at_least(region, config.line_overlap) || region.contains_point(
        line.center_x(),
        line.center_y(),
    )
}

fn covered(line: &BBox, boxes: &Vec<LayoutBBox>, config: &FusionConfig) -> (r: bool)
    ensures
        r == spec_covered(*line, boxes@, *config, boxes.len() as int),
{
    let mut found: bool = false;
    let mut m: usize = 0;
    while m < boxes.len()
        invariant
            m <= boxes.len(),
            found == spec_covered(*line, boxes@, *config, m as int),
        decreases boxes.len() - m,
    {
        let b: LayoutBBox = boxes[m];
        if !found && line_matches(line, &b.bbox, config) {
            found = true;
        }
        m = m + 1;
    }
    found
}

fn nearest(line: &BBox, boxes: &Vec<LayoutBBox>, config: &FusionConfig) -> (r: Option<usize>)
    ensures
        r == spec_nearest(*line, boxes@, *config, boxes.len() as int),
        r is Some ==> r.unwrap() < boxes.len(),
{
    let mut best: Option<usize> = None;
    let mut best_distance: u64 = 0;
    let mut m: usize = 0;
    while m < boxes.len()
        invariant
            m <= boxes.len(),
            best == spec_nearest(*line, boxes@, *config, m as int),
            best is Some ==> best.unwrap() < m && best_distance == line.spec_distance(
                boxes[best.unwrap() as int].bbox,
            ),
        decreases boxes.len() - m,
    {
        let b: LayoutBBox = boxes[m];
        let d: u64 = line.distance(&b.bbox);
        if b.class.kind().is_textual() && d <= config.orphan_distance as u64 && (best.is_none() || d
            < best_distance) {
            best = Some(m);
            best_distance = d;
        }
        m = m + 1;
    }
    best
}

fn has_lines(lines: &Vec<BBox>, region: &BBox, config: &FusionConfig) -> (r: bool)
    ensures
        r == spec_has_lines(lines@, *region, *config, lines.len() as int),
{
    let mut found: bool = false;
    let mut n: usize = 0;
    while n < lines.len()
        invariant
            n <= lines.len(),
            found == spec_has_lines(lines@, *region, *config, n as int),
        decreases lines.len() - n,
    {
        let l: BBox = lines[n];
        if !found && line_matches(&l, region, config) {
            found = true;
        }
        n = n + 1;
    }
    found
}

/// The place of a box in reading order.
pub fn order_key(bbox: &BBox, line_height: u32) -> (k: u64)
    ensures
        k == spec_order_key(*bbox, line_height),
{
    let half: u32 = line_height / 2;
    let band_height: u32 = if half >= 1 {
        half
    } else {
        1
    };
    let band: u64 = (bbox.y0 / band_height) as u64;
    band * 0x1_0000_0000 + bbox.x0 as u64
}

fn line_boxes(lines: &Vec<Line>) -> (r: Vec<BBox>)
    ensures
        r@ == spec_line_boxes(lines.deep_view()),
{
    let mut r: Vec<BBox> = Vec::new();
    let mut i: usize = 0;
    while i < lines.len()
        invariant
            i <= lines.len(),
            r.len() == i,
            forall|k: int| 0 <= k < i ==> r[k] == lines[k].bbox,
        decreases lines.len() - i,
    {
        r.push(lines[i].bbox);
        i = i + 1;
    }
    assert(r@ =~= spec_line_boxes(lines.deep_view()));
    r
}

fn heights(boxes: &Vec<BBox>) -> (r: Vec<u32>)
    ensures
        r@ == spec_heights(boxes@),
{
    let mut r: Vec<u32> = Vec::new();
    let mut i: usize = 0;
    while i < boxes.len()
        invariant
            i <= boxes.len(),
            r.len() == i,
            forall|k: int| 0 <= k < i ==> r[k] == boxes[k].spec_height() as u32,
        decreases boxes.len() - i,
    {
        r.push(boxes[i].height());
        i = i + 1;
    }
    assert(r@ =~= spec_heights(boxes@));
    r
}

/// Plans a page out of the boxes of its lines and its layout detections.
pub fn plan_regions(line_boxes: &Vec<BBox>, boxes: &Vec<LayoutBBox>, config: &FusionConfig) -> (plan:
    PagePlan)
    ensures
        plan.config == *config,
        plan.line_height == spec_median(spec_heights(line_boxes@)),
        plan.regions@ == spec_plan_regions(line_boxes@, boxes@, *config),
        ascending(plan.regions@),
        plan.attached@.len() == line_boxes.len(),
        forall|i: int|
            0 <= i < line_boxes.len() ==> #[trigger] plan.attached@[i] == spec_attached(
                line_boxes[i],
                boxes@,
                *config,
            ),
{
    let line_height: u32 = median(heights(line_boxes));
    let mut regions: Vec<Region> = Vec::new();
    let mut j: usize = 0;
    while j < boxes.len()
        invariant
            j <= boxes.len(),
            regions@ == spec_layout_regions(boxes@, line_boxes@, *config, line_height, j as int),
        decreases boxes.len() - j,
    {
        let b: LayoutBBox = boxes[j];
        let kind: ElementType = b.class.kind();
        let needs_ocr: bool = kind.is_textual() && !has_lines(line_boxes, &b.bbox, config);
        regions.push(
            Region {
                bbox: b.bbox,
                kind,
                score: b.score,
                needs_ocr,
                source: RegionSource::Layout(j),
                order_key: order_key(&b.bbox, line_height),
            },
        );
        j = j + 1;
    }
    let ghost layout = regions@;
    let mut attached: Vec<Option<usize>> = Vec::new();
    let mut i: usize = 0;
    assert(layout + Seq::<Region>::empty() =~= layout);
    while i < line_boxes.len()
        invariant
            i <= line_boxes.len(),
            attached.len() == i,
            forall|k: int|
                0 <= k < i ==> #[trigger] attached@[k] == spec_attached(
                    line_boxes[k],
                    boxes@,
                    *config,
                ),
            regions@ == layout + spec_orphan_regions(
                boxes@,
                line_boxes@,
                *config,
                line_height,
                i as int,
            ),
        decreases line_boxes.len() - i,
    {
        let l: BBox = line_boxes[i];
        let ghost before = spec_orphan_regions(boxes@, line_boxes@, *config, line_height, i as int);
        if covered(&l, boxes, config) {
            attached.push(None);
        } else {
            let near: Option<usize> = nearest(&l, boxes, config);
            attached.push(near);
            if near.is_none() {
                let region = Region {
                    bbox: l,
                    kind: ElementType::Text,
                    score: 0,
                    needs_ocr: false,
                    source: RegionSource::Orphan(i),
                    order_key: order_key(&l, line_height),
                };
                regions.push(region);
                assert(regions@ =~= layout + before.push(region));
            }
        }
        i = i + 1;
    }
    let regions: Vec<Region> = sort_by_key(regions);
    PagePlan { regions, attached, line_height, config: *config }
}

/// Plans a page out of its lines and its layout detections.
pub fn plan_page(lines: &Vec<Line>, boxes: &Vec<LayoutBBox>, config: &FusionConfig) -> (plan:
    PagePlan)
    ensures
        plan.config == *config,
        plan.line_height == spec_median(spec_heights(spec_line_boxes(lines.deep_view()))),
        plan.regions@ == spec_plan_regions(spec_line_boxes(lines.deep_view()), boxes@, *config),
        ascending(plan.regions@),
        plan.attached@.len() == lines.len(),
        forall|i: int|
            0 <= i < lines.len() ==> #[trigger] plan.attached@[i] == spec_attached(
                lines[i].bbox,
                boxes@,
                *config,
            ),
{
    let bboxes: Vec<BBox> = line_boxes(lines);
    let plan = plan_regions(&bboxes, boxes, config);
    assert forall|i: int| 0 <= i < lines.len() implies #[trigger] plan.attached@[i] == spec_attached(
        lines[i].bbox,
        boxes@,
        *config,
    ) by {
        assert(bboxes[i] == lines[i].bbox);
    }
    plan
}

/// Line `i` is one of the region's: it belongs to the detection or is attached
/// to it, or it is the line that the region was made of.
pub open spec fn spec_in_region(
    lines: Seq<LineView>,
    attached: Seq<Option<usize>>,
    region: Region,
    config: FusionConfig,
    i: int,
) -> bool {
    match region.source {
        RegionSource::Layout(j) => spec_line_matches(lines[i].bbox, region.bbox, config) || (i
            < attached.len() && attached[i] == Some(j)),
        RegionSource::Orphan(o) => i == o,
    }
}

/// Number of the first `n` lines that are the region's.
pub open spec fn spec_region_count(
    lines: Seq<LineView>,
    attached: Seq<Option<usize>>,
    region: Region,
    config: FusionConfig,
    n: int,
) -> int
    decreases n,
{
    if n <= 0 {
        0
    } else {
        spec_region_count(lines, attached, region, config, n - 1) + if spec_in_region(
            lines,
            attached,
            region,
            config,
            n - 1,
        ) {
            1int
        } else {
            0
        }
    }
}

/// The texts of those of the first `n` lines that are the region's, with a
/// space between one and the next.
pub open spec fn spec_region_text(
    lines: Seq<LineView>,
    attached: Seq<Option<usize>>,
    region: Region,
    config: FusionConfig,
    n: int,
) -> Seq<char>
    decreases n,
{
    if n <= 0 {
        Seq::empty()
    } else {
        let before = spec_region_text(lines, attached, region, config, n - 1);
        if spec_in_region(lines, attached, region, config, n - 1) {
            if spec_region_count(lines, attached, region, config, n - 1) == 0 {
                lines[n - 1].text
            } else {
                before.push(' ') + lines[n - 1].text
            }
        } else {
            before
        }
    }
}

/// The box of the region grown to enclose those of the first `n` lines that
/// are the region's.
pub open spec fn spec_region_bbox(
    lines: Seq<LineView>,
    attached: Seq<Option<usize>>,
    region: Region,
    config: FusionConfig,
    n: int,
) -> BBox
    decreases n,
{
    if n <= 0 {
        region.bbox
    } else {
        let before = spec_region_bbox(lines, attached, region, config, n - 1);
        if spec_in_region(lines, attached, region, config, n - 1) {
            before.hull(lines[n - 1].bbox)
        } else {
            before
        }
    }
}

/// Sum of the font sizes of those of the first `n` lines that are the region's.
pub open spec fn spec_region_font_sum(
    lines: Seq<LineView>,
    attached: Seq<Option<usize>>,
    region: Region,
    config: FusionConfig,
    n: int,
) -> int
    decreases n,
{
    if n <= 0 {
        0
    } else {
        spec_region_font_sum(lines, attached, region, config, n - 1) + if spec_in_region(
            lines,
            attached,
            region,
            config,
            n - 1,
        ) {
            lines[n - 1].spec_font_size()
        } else {
            0
        }
    }
}

/// The texts of the first `n` recognised lines, with a space between one and
/// the next.
pub open spec fn spec_ocr_text(ocr: Seq<OCRLinesView>, n: int) -> Seq<char>
    decreases n,
{
    if n <= 0 {
        Seq::empty()
    } else if n == 1 {
        ocr[0].text
    } else {
        spec_ocr_text(ocr, n - 1).push(' ') + ocr[n - 1].text
    }
}

/// Sum of the heights of the first `n` recognised lines.
pub open spec fn spec_ocr_height_sum(ocr: Seq<OCRLinesView>, n: int) -> int
    decreases n,
{
    if n <= 0 {
        0
    } else {
        spec_ocr_height_sum(ocr, n - 1) + ocr[n - 1].bbox.spec_height()
    }
}

/// The box `start` grown to enclose the first `n` recognised lines.
pub open spec fn spec_ocr_bbox(ocr: Seq<OCRLinesView>, start: BBox, n: int) -> BBox
    decreases n,
{
    if n <= 0 {
        start
    } else {
        spec_ocr_bbox(ocr, start, n - 1).hull(ocr[n - 1].bbox)
    }
}

/// The box of an element that recognition has read encloses the box of its
/// region and the box of every line that was read.
pub proof fn lemma_ocr_box_encloses(ocr: Seq<OCRLinesView>, start: BBox, n: int)
    requires
        0 <= n <= ocr.len(),
    ensures
        spec_ocr_bbox(ocr, start, n).encloses(start),
        forall|i: int| 0 <= i < n ==> spec_ocr_bbox(ocr, start, n).encloses((#[trigger] ocr[i]).bbox),
    decreases n,
{
    if n > 0 {
        lemma_ocr_box_encloses(ocr, start, n - 1);
        crate::geometry::lemma_hull_encloses(spec_ocr_bbox(ocr, start, n - 1), ocr[n - 1].bbox);
        assert forall|i: int| 0 <= i < n implies spec_ocr_bbox(ocr, start, n).encloses(
            (#[trigger] ocr[i]).bbox,
        ) by {
            if i < n - 1 {
                assert(spec_ocr_bbox(ocr, start, n - 1).encloses(ocr[i].bbox));
            }
        }
    }
}

/// The box of an element whose text comes from the lines of the page encloses
/// the box of its region and the box of every line that is the region's.
pub proof fn lemma_region_box_encloses(
    lines: Seq<LineView>,
    attached: Seq<Option<usize>>,
    region: Region,
    config: FusionConfig,
    n: int,
)
    requires
        0 <= n <= lines.len(),
    ensures
        spec_region_bbox(lines, attached, region, config, n).encloses(region.bbox),
        forall|i: int|
            0 <= i < n && spec_in_region(lines, attached, region, config, i) ==> spec_region_bbox(
                lines,
                attached,
                region,
                config,
                n,
            ).encloses((#[trigger] lines[i]).bbox),
    decreases n,
{
    if n > 0 {
        lemma_region_box_encloses(lines, attached, region, config, n - 1);
        let before = spec_region_bbox(lines, attached, region, config, n - 1);
        crate::geometry::lemma_hull_encloses(before, lines[n - 1].bbox);
        assert forall|i: int|
            0 <= i < n && spec_in_region(lines, attached, region, config, i) implies spec_region_bbox(
            lines,
            attached,
            region,
            config,
            n,
        ).encloses((#[trigger] lines[i]).bbox) by {
            if i < n - 1 {
                assert(before.encloses(lines[i].bbox));
            }
        }
    }
}

/// The mean of a sum over a count, rounded down; zero where nothing was counted.
pub open spec fn spec_mean(sum: int, count: int) -> int {
    if count > 0 {
        sum / count
    } else {
        0
    }
}

/// The element of a region whose text comes from the lines of the page.
pub open spec fn spec_native_element(
    lines: Seq<LineView>,
    attached: Seq<Option<usize>>,
    region: Region,
    config: FusionConfig,
    page_id: usize,
    id: usize,
) -> ElementView {
    let n = lines.len() as int;
    ElementView {
        id,
        page_id,
        kind: region.kind,
        bbox: spec_region_bbox(lines, attached, region, config, n),
        text: spec_region_text(lines, attached, region, config, n),
        font_size: spec_mean(
            spec_region_font_sum(lines, attached, region, config, n),
            spec_region_count(lines, attached, region, config, n),
        ) as u32,
        layout_score: region.score,
        needs_ocr: false,
    }
}

/// The element of a region whose text recognition had to read: its text is
/// what was read, line by line, and its box the box of the region grown to
/// enclose the lines. Without recognised lines its text is empty.
pub open spec fn spec_ocr_element(
    ocr: Seq<OCRLinesView>,
    region: Region,
    page_id: usize,
    id: usize,
) -> ElementView {
    let n = ocr.len() as int;
    ElementView {
        id,
        page_id,
        kind: region.kind,
        bbox: spec_ocr_bbox(ocr, region.bbox, n),
        text: spec_ocr_text(ocr, n),
        font_size: spec_mean(spec_ocr_height_sum(ocr, n), n) as u32,
        layout_score: region.score,
        needs_ocr: true,
    }
}

/// The recognised lines of region `k`; none where recognition gave none.
pub open spec fn spec_ocr_of(ocr: Seq<Seq<OCRLinesView>>, k: int) -> Seq<OCRLinesView> {
    if 0 <= k < ocr.len() {
        ocr[k]
    } else {
        Seq::empty()
    }
}

/// Element `k` of a page.
pub open spec fn spec_element(
    lines: Seq<LineView>,
    regions: Seq<Region>,
    attached: Seq<Option<usize>>,
    config: FusionConfig,
    ocr: Seq<Seq<OCRLinesView>>,
    page_id: usize,
    first_id: usize,
    k: int,
) -> ElementView {
    if regions[k].needs_ocr {
        spec_ocr_element(spec_ocr_of(ocr, k), regions[k], page_id, (first_id + k) as usize)
    } else {
        spec_native_element(lines, attached, regions[k], config, page_id, (first_id + k) as usize)
    }
}

/// One of the first `n` regions has to be read by recognition.
pub open spec fn spec_any_needs_ocr(regions: Seq<Region>, n: int) -> bool
    decreases n,
{
    n > 0 && (spec_any_needs_ocr(regions, n - 1) || regions[n - 1].needs_ocr)
}

/// The recognised lines as mathematical values.
pub open spec fn spec_ocr_views(ocr: Seq<Vec<OCRLines>>) -> Seq<Seq<OCRLinesView>> {
    Seq::new(ocr.len(), |k: int| ocr[k].deep_view())
}

proof fn lemma_sums_bounded(
    lines: Seq<LineView>,
    attached: Seq<Option<usize>>,
    region: Region,
    config: FusionConfig,
    n: int,
)
    requires
        0 <= n <= lines.len(),
    ensures
        0 <= spec_region_count(lines, attached, region, config, n) <= n,
        0 <= spec_region_font_sum(lines, attached, region, config, n) <= spec_region_count(
            lines,
            attached,
            region,
            config,
            n,
        ) * 0xFFFF_FFFF,
    decreases n,
{
    if n > 0 {
        lemma_sums_bounded(lines, attached, region, config, n - 1);
        let c = spec_region_count(lines, attached, region, config, n - 1);
        assert((c + 1) * 0xFFFF_FFFF == c * 0xFFFF_FFFF + 0xFFFF_FFFF) by (nonlinear_arith);
        if spec_in_region(lines, attached, region, config, n - 1) {
            lemma_font_size_bounded(lines[n - 1]);
        }
    }
}

proof fn lemma_font_size_bounded(line: LineView)
    ensures
        0 <= line.spec_font_size() <= 0xFFFF_FFFF,
{
    let n = line.spans.len() as int;
    if n > 0 {
        lemma_font_sum_bounded(line, n);
        let s = crate::text::spec_font_sum(line.spans, n);
        assert(0 <= s / n <= 0xFFFF_FFFF) by (nonlinear_arith)
            requires
                0 <= s <= n * 0xFFFF_FFFF,
                n > 0,
        ;
    }
}

proof fn lemma_font_sum_bounded(line: LineView, n: int)
    requires
        0 <= n <= line.spans.len(),
    ensures
        0 <= crate::text::spec_font_sum(line.spans, n) <= n * 0xFFFF_FFFF,
    decreases n,
{
    if n > 0 {
        lemma_font_sum_bounded(line, n - 1);
        assert(n * 0xFFFF_FFFF == (n - 1) * 0xFFFF_FFFF + 0xFFFF_FFFF) by (nonlinear_arith);
    }
}

proof fn lemma_heights_bounded(ocr: Seq<OCRLinesView>, n: int)
    requires
        0 <= n <= ocr.len(),
    ensures
        0 <= spec_ocr_height_sum(ocr, n) <= n * 0xFFFF_FFFF,
    decreases n,
{
    if n > 0 {
        lemma_heights_bounded(ocr, n - 1);
        assert(n * 0xFFFF_FFFF == (n - 1) * 0xFFFF_FFFF + 0xFFFF_FFFF) by (nonlinear_arith);
    }
}

fn mean(sum: u128, count: usize) -> (m: u32)
    requires
        sum <= count * 0xFFFF_FFFF,
    ensures
        m == spec_mean(sum as int, count as int),
{
    if count == 0 {
        return 0;
    }
    proof {
        let s = sum as int;
        let c = count as int;
        assert(0 <= s / c <= 0xFFFF_FFFF) by (nonlinear_arith)
            requires
                0 <= s <= c * 0xFFFF_FFFF,
                c > 0,
        ;
    }
    (sum / (count as u128)) as u32
}

fn in_region(
    lines: &Vec<Line>,
    attached: &Vec<Option<usize>>,
    region: &Region,
    config: &FusionConfig,
    i: usize,
) -> (r: bool)
    requires
        i < lines.len(),
    ensures
        r == spec_in_region(lines.deep_view(), attached@, *region, *config, i as int),
{
    assert(lines.deep_view()[i as int] == lines[i as int]@);
    match region.source {
        RegionSource::Layout(j) => {
            if line_matches(&lines[i].bbox, &region.bbox, config) {
                true
            } else if i < attached.len() {
                match attached[i] {
                    Some(a) => a == j,
                    None => false,
                }
            } else {
                false
            }
        },
        RegionSource::Orphan(o) => i == o,
    }
}

fn native_element(
    lines: &Vec<Line>,
    attached: &Vec<Option<usize>>,
    region: &Region,
    config: &FusionConfig,
    page_id: usize,
    id: usize,
) -> (e: Element)
    ensures
        e@ == spec_native_element(lines.deep_view(), attached@, *region, *config, page_id, id),
{
    let ghost views = lines.deep_view();
    let mut text: String = String::new();
    let mut bbox: BBox = region.bbox;
    let mut sum: u128 = 0;
    let mut count: usize = 0;
    let mut i: usize = 0;
    proof {
        reveal_strlit(" ");
    }
    while i < lines.len()
        invariant
            i <= lines.len(),
            views == lines.deep_view(),
            " "@ == seq![' '],
            count == spec_region_count(views, attached@, *region, *config, i as int),
            text@ == spec_region_text(views, attached@, *region, *config, i as int),
            bbox == spec_region_bbox(views, attached@, *region, *config, i as int),
            sum == spec_region_font_sum(views, attached@, *region, *config, i as int),
        decreases lines.len() - i,
    {
        proof {
            lemma_sums_bounded(views, attached@, *region, *config, i as int);
            lemma_sums_bounded(views, attached@, *region, *config, i + 1);
            assert(i * 0xFFFF_FFFF <= 0xFFFF_FFFF_FFFF_FFFF * 0xFFFF_FFFF) by (nonlinear_arith)
                requires
                    0 <= i <= 0xFFFF_FFFF_FFFF_FFFF,
            ;
            assert(views[i as int] == lines[i as int]@);
        }
        if in_region(lines, attached, region, config, i) {
            let ghost before = text@;
            if count == 0 {
                text = lines[i].text.clone();
            } else {
                text.append(" ");
                text.append(lines[i].text.as_str());
                assert(text@ =~= before.push(' ') + views[i as int].text);
            }
            bbox.merge(&lines[i].bbox);
            sum = sum + lines[i].font_size() as u128;
            count = count + 1;
        }
        i = i + 1;
    }
    proof {
        lemma_sums_bounded(views, attached@, *region, *config, lines.len() as int);
    }
    Element {
        id,
        page_id,
        kind: region.kind,
        bbox,
        text_block: ElementText { text, font_size: mean(sum, count) },
        layout_score: region.score,
        needs_ocr: false,
    }
}

fn ocr_element(ocr: &Vec<OCRLines>, region: &Region, page_id: usize, id: usize) -> (e: Element)
    ensures
        e@ == spec_ocr_element(ocr.deep_view(), *region, page_id, id),
{
    let ghost views = ocr.deep_view();
    let mut text: String = String::new();
    let mut bbox: BBox = region.bbox;
    let mut sum: u128 = 0;
    let mut i: usize = 0;
    proof {
        reveal_strlit(" ");
    }
    while i < ocr.len()
        invariant
            i <= ocr.len(),
            views == ocr.deep_view(),
            " "@ == seq![' '],
            text@ == spec_ocr_text(views, i as int),
            bbox == spec_ocr_bbox(views, region.bbox, i as int),
            sum == spec_ocr_height_sum(views, i as int),
        decreases ocr.len() - i,
    {
        proof {
            lemma_heights_bounded(views, i as int);
            assert(i * 0xFFFF_FFFF <= 0xFFFF_FFFF_FFFF_FFFF * 0xFFFF_FFFF) by (nonlinear_arith)
                requires
                    0 <= i <= 0xFFFF_FFFF_FFFF_FFFF,
            ;
            assert(views[i as int] == ocr[i as int]@);
        }
        let ghost before = text@;
        if i == 0 {
            text = ocr[i].text.clone();
        } else {
            text.append(" ");
            text.append(ocr[i].text.as_str());
            assert(text@ =~= before.push(' ') + views[i as int].text);
        }
        bbox.merge(&ocr[i].bbox);
        sum = sum + ocr[i].bbox.height() as u128;
        i = i + 1;
    }
    proof {
        lemma_heights_bounded(views, ocr.len() as int);
    }
    Element {
        id,
        page_id,
        kind: region.kind,
        bbox,
        text_block: ElementText { text, font_size: mean(sum, ocr.len()) },
        layout_score: region.score,
        needs_ocr: true,
    }
}

fn any_needs_ocr(regions: &Vec<Region>) -> (r: bool)
    ensures
        r == spec_any_needs_ocr(regions@, regions.len() as int),
{
    let mut found: bool = false;
    let mut n: usize = 0;
    while n < regions.len()
        invariant
            n <= regions.len(),
            found == spec_any_needs_ocr(regions@, n as int),
        decreases regions.len() - n,
    {
        if regions[n].needs_ocr {
            found = true;
        }
        n = n + 1;
    }
    found
}

/// Builds the page out of its plan: one element for every region, in reading
/// order, numbered from `first_id` on.
///
/// `ocr` holds, at the position of every region that recognition had to read,
/// the lines that it read there; positions beyond its end count as empty. A
/// region that recognition had to read and gave nothing for has an element
/// with empty text.
pub fn build_page(
    page_id: usize,
    width: u32,
    height: u32,
    lines: &Vec<Line>,
    plan: &PagePlan,
    ocr: &Vec<Vec<OCRLines>>,
    first_id: usize,
) -> (page: StructuredPage)
    requires
        first_id + plan.regions.len() <= usize::MAX,
    ensures
        page.id == page_id,
        page.width == width,
        page.height == height,
        page.need_ocr == spec_any_needs_ocr(plan.regions@, plan.regions.len() as int),
        page@.elements.len() == plan.regions.len(),
        forall|k: int|
            0 <= k < plan.regions.len() ==> #[trigger] page@.elements[k] == spec_element(
                lines.deep_view(),
                plan.regions@,
                plan.attached@,
                plan.config,
                spec_ocr_views(ocr@),
                page_id,
                first_id,
                k,
            ),
        forall|k: int|
            0 <= k < plan.regions.len() ==> (#[trigger] page@.elements[k]).id == first_id + k && page@.elements[k].page_id
                == page_id,
{
    let mut elements: Vec<Element> = Vec::new();
    let mut k: usize = 0;
    while k < plan.regions.len()
        invariant
            k <= plan.regions.len(),
            first_id + plan.regions.len() <= usize::MAX,
            elements.len() == k,
            forall|q: int|
                0 <= q < k ==> #[trigger] elements.deep_view()[q] == spec_element(
                    lines.deep_view(),
                    plan.regions@,
                    plan.attached@,
                    plan.config,
                    spec_ocr_views(ocr@),
                    page_id,
                    first_id,
                    q,
                ),
        decreases plan.regions.len() - k,
    {
        let region: Region = plan.regions[k];
        let ghost before = elements.deep_view();
        let e: Element = if region.needs_ocr {
            if k < ocr.len() {
                assert(spec_ocr_of(spec_ocr_views(ocr@), k as int) == ocr[k as int].deep_view());
                ocr_element(&ocr[k], &region, page_id, first_id + k)
            } else {
                let none: Vec<OCRLines> = Vec::new();
                assert(none.deep_view() =~= spec_ocr_of(spec_ocr_views(ocr@), k as int));
                ocr_element(&none, &region, page_id, first_id + k)
            }
        } else {
            native_element(lines, &plan.attached, &region, &plan.config, page_id, first_id + k)
        };
        elements.push(e);
        assert(elements.deep_view() =~= before.push(e@));
        k = k + 1;
    }
    let need_ocr: bool = any_needs_ocr(&plan.regions);
    let page = StructuredPage { id: page_id, width, height, elements, need_ocr };
    assert(page@.elements == elements.deep_view());
    page
}

/// Number of element ids that every page has for its own.
pub const IDS_PER_PAGE: usize = 0x10_0000;

/// The first element id of a page that has `regions` regions, where every
/// page has `ids_per_page` ids for its own: the ids before it belong to the
/// pages before it. A page with more regions than ids, or whose ids would not
/// fit the machine's word, has none.
pub open spec fn spec_first_element_id(page_id: usize, regions: int, ids_per_page: usize) -> Option<
    usize,
> {
    if regions <= ids_per_page && page_id * ids_per_page + regions <= usize::MAX {
        Some((page_id * ids_per_page) as usize)
    } else {
        None
    }
}

pub fn first_element_id(page_id: usize, regions: usize, ids_per_page: usize) -> (r: Option<usize>)
    ensures
        r == spec_first_element_id(page_id, regions as int, ids_per_page),
{
    if regions > ids_per_page {
        return None;
    }
    assert(0 <= page_id * ids_per_page <= 0xFFFF_FFFF_FFFF_FFFF * 0xFFFF_FFFF_FFFF_FFFF)
        by (nonlinear_arith)
        requires
            0 <= page_id <= 0xFFFF_FFFF_FFFF_FFFF,
            0 <= ids_per_page <= 0xFFFF_FFFF_FFFF_FFFF,
    ;
    let first: u128 = (page_id as u128) * (ids_per_page as u128);
    if first + (regions as u128) <= usize::MAX as u128 {
        Some(first as usize)
    } else {
        None
    }
}

/// The element ids of two pages never meet: the ids of the page with the
/// lower id all lie below those of the other.
pub proof fn lemma_element_ids_apart(
    p: usize,
    regions_p: int,
    q: usize,
    regions_q: int,
    ids_per_page: usize,
)
    requires
        p < q,
        0 <= regions_p,
        0 <= regions_q,
        spec_first_element_id(p, regions_p, ids_per_page) is Some,
        spec_first_element_id(q, regions_q, ids_per_page) is Some,
    ensures
        spec_first_element_id(p, regions_p, ids_per_page).unwrap() + regions_p
            <= spec_first_element_id(q, regions_q, ids_per_page).unwrap(),
{
    assert(0 <= p * ids_per_page && p * ids_per_page + ids_per_page <= q * ids_per_page)
        by (nonlinear_arith)
        requires
            0 <= p,
            p + 1 <= q,
            0 <= ids_per_page,
    ;
}

/// Builds the page out of its plan and numbers its elements from the first
/// id that the page has for its own. A page that has no such id is not built.
pub fn build_numbered_page(
    page_id: usize,
    width: u32,
    height: u32,
    lines: &Vec<Line>,
    plan: &PagePlan,
    ocr: &Vec<Vec<OCRLines>>,
    ids_per_page: usize,
) -> (r: Option<StructuredPage>)
    ensures
        match r {
            None => spec_first_element_id(page_id, plan.regions.len() as int, ids_per_page) is None,
            Some(page) => {
                &&& spec_first_element_id(page_id, plan.regions.len() as int, ids_per_page) is Some
                &&& page.id == page_id
                &&& page.width == width
                &&& page.height == height
                &&& page.need_ocr == spec_any_needs_ocr(plan.regions@, plan.regions.len() as int)
                &&& page@.elements.len() == plan.regions.len()
                &&& forall|k: int|
                    0 <= k < plan.regions.len() ==> #[trigger] page@.elements[k] == spec_element(
                        lines.deep_view(),
                        plan.regions@,
                        plan.attached@,
                        plan.config,
                        spec_ocr_views(ocr@),
                        page_id,
                        spec_first_element_id(
                            page_id,
                            plan.regions.len() as int,
                            ids_per_page,
                        ).unwrap(),
                        k,
                    )
            },
        },
{
    match first_element_id(page_id, plan.regions.len(), ids_per_page) {
        None => None,
        Some(first_id) => Some(build_page(page_id, width, height, lines, plan, ocr, first_id)),
    }
}

/// Fuses a page where recognition is not to be had: the page is planned and
/// built at once, and a region of text without lines has an element with
/// empty text that is marked as in need of recognition.
pub fn fuse_page(
    page_id: usize,
    width: u32,
    height: u32,
    lines: &Vec<Line>,
    boxes: &Vec<LayoutBBox>,
    first_id: usize,
    config: &FusionConfig,
) -> (page: Option<StructuredPage>)
    ensures
        ({
            let regions = spec_plan_regions(spec_line_boxes(lines.deep_view()), boxes@, *config);
            let attached = Seq::new(
                lines.len() as nat,
                |i: int| spec_attached(lines[i].bbox, boxes@, *config),
            );
            match page {
                None => first_id + regions.len() > usize::MAX,
                Some(p) => {
                    &&& first_id + regions.len() <= usize::MAX
                    &&& p.id == page_id
                    &&& p.width == width
                    &&& p.height == height
                    &&& p.need_ocr == spec_any_needs_ocr(regions, regions.len() as int)
                    &&& p@.elements.len() == regions.len()
                    &&& forall|k: int|
                        0 <= k < regions.len() ==> #[trigger] p@.elements[k] == spec_element(
                            lines.deep_view(),
                            regions,
                            attached,
                            *config,
                            Seq::empty(),
                            page_id,
                            first_id,
                            k,
                        )
                },
            }
        }),
{
    let plan: PagePlan = plan_page(lines, boxes, config);
    if plan.regions.len() > usize::MAX - first_id {
        return None;
    }
    let ocr: Vec<Vec<OCRLines>> = Vec::new();
    let page = build_page(page_id, width, height, lines, &plan, &ocr, first_id);
    proof {
        assert(spec_ocr_views(ocr@) =~= Seq::<Seq<OCRLinesView>>::empty());
        assert(plan.attached@ =~= Seq::new(
            lines.len() as nat,
            |i: int| spec_attached(lines[i].bbox, boxes@, *config),
        ));
    }
    Some(page)
}

} // verus!
