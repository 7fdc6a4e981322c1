//! Stitching a document's elements into blocks.
//!
//! Elements arrive in reading order. An element joins the block of the element
//! before it where both are of one kind that can grow (text, list item,
//! header, footer) and lie close enough: on one page with enough horizontal
//! overlap and a small vertical gap, or across a page break, the first near
//! the bottom of its page and the second near the top of the next. Every other
//! element opens a block of its own.

use crate::blocks::{
    Block, BlockType, BlockTypeView, BlockView, ImageBlock, List, TextBlock, Title, TitleLevel,
    MAX_TITLE_LEVEL,
};
use crate::entities::{Element, ElementType, ElementView, Page, PageID};
use crate::error::{FerrulesError, FerrulesErrorView};
use crate::geometry::{lemma_hull_encloses, spec_min, BBox, Ratio};
use crate::strings::{spec_trim, trim};
use crate::titles::{lemma_lookup_in_table, spec_lookup, TitleLevels};
use vstd::prelude::*;

verus! {

/// The thresholds of the stitching rules.
#[derive(Clone, Copy, Debug, PartialEq, Eq, Structural)]
pub struct MergeConfig {
    /// Share of the narrower box's width that two boxes on one page must share
    /// along the `x` axis.
    pub min_h_overlap: Ratio,
    /// Largest vertical gap between two boxes on one page, in median line heights.
    pub max_v_gap: Ratio,
    /// Share of a page's height, at its top and at its bottom, in which a
    /// paragraph that runs over the page break ends and begins.
    pub edge_band: Ratio,
}

impl MergeConfig {
    pub open spec fn spec_standard() -> MergeConfig {
        MergeConfig {
            min_h_overlap: Ratio { num: 1, den: 2 },
            max_v_gap: Ratio { num: 3, den: 2 },
            edge_band: Ratio { num: 15, den: 100 },
        }
    }

    /// Half the width shared, a gap of one and a half lines, bands of 15 %.
    pub fn standard() -> (c: MergeConfig)
        ensures
            c == Self::spec_standard(),
    {
        MergeConfig {
            min_h_overlap: Ratio { num: 1, den: 2 },
            max_v_gap: Ratio { num: 3, den: 2 },
            edge_band: Ratio { num: 15, den: 100 },
        }
    }
}

/// All that the rules read besides the elements.
pub struct MergeEnv {
    pub pages: Seq<Page>,
    pub line_height: u32,
    pub config: MergeConfig,
    pub sizes: Seq<u32>,
    pub levels: Seq<TitleLevel>,
}

/// Height of the first of the first `n` pages that has this id.
pub open spec fn spec_page_height(pages: Seq<Page>, id: PageID, n: int) -> Option<u32>
    decreases n,
{
    if n <= 0 {
        None
    } else {
        match spec_page_height(pages, id, n - 1) {
            Some(h) => Some(h),
            None => if pages[n - 1].id == id {
                Some(pages[n - 1].height)
            } else {
                None
            },
        }
    }
}

/// The box begins within the band at the top of a page of this height.
pub open spec fn spec_near_top(bbox: BBox, height: u32, band: Ratio) -> bool {
    bbox.y0 * band.den <= band.num * height
}

/// The box ends within the band at the bottom of a page of this height.
pub open spec fn spec_near_bottom(bbox: BBox, height: u32, band: Ratio) -> bool {
    bbox.y1 * band.den + band.num * height >= band.den * height
}

/// Blocks grow only by elements of these kinds.
pub open spec fn spec_mergeable(kind: ElementType) -> bool {
    kind is Text || kind is ListItem || kind is Header || kind is Footer
}

/// Both lie on one page, share enough of their width and are close vertically.
pub open spec fn spec_same_page_join(
    a: ElementView,
    b: ElementView,
    line_height: u32,
    config: MergeConfig,
) -> bool {
    &&& a.page_id == b.page_id
    &&& a.bbox.spec_overlap_x(b.bbox) * config.min_h_overlap.den >= config.min_h_overlap.num
        * spec_min(a.bbox.spec_width(), b.bbox.spec_width())
    &&& a.bbox.spec_gap_y(b.bbox) * config.max_v_gap.den <= config.max_v_gap.num * line_height
}

/// `a` ends near the bottom of its page and `b` begins near the top of the next.
pub open spec fn spec_cross_page_join(
    a: ElementView,
    b: ElementView,
    pages: Seq<Page>,
    config: MergeConfig,
) -> bool {
    &&& a.page_id + 1 == b.page_id
    &&& match (
        spec_page_height(pages, a.page_id, pages.len() as int),
        spec_page_height(pages, b.page_id, pages.len() as int),
    ) {
        (Some(ha), Some(hb)) => spec_near_bottom(a.bbox, ha, config.edge_band) && spec_near_top(
            b.bbox,
            hb,
            config.edge_band,
        ),
        _ => false,
    }
}

/// Element `b`, which follows `a`, joins the block that `a` is in.
pub open spec fn spec_joins(
    a: ElementView,
    b: ElementView,
    pages: Seq<Page>,
    line_height: u32,
    config: MergeConfig,
) -> bool {
    &&& spec_mergeable(a.kind)
    &&& a.kind == b.kind
    &&& (spec_same_page_join(a, b, line_height, config) || spec_cross_page_join(
        a,
        b,
        pages,
        config,
    ))
}

/// `b` joins the block of `a` only from the same page or from the next.
pub proof fn lemma_joins_pages(
    a: ElementView,
    b: ElementView,
    pages: Seq<Page>,
    line_height: u32,
    config: MergeConfig,
)
    requires
        spec_joins(a, b, pages, line_height, config),
    ensures
        a.page_id == b.page_id || a.page_id + 1 == b.page_id,
        spec_mergeable(a.kind),
        a.kind == b.kind,
{
}

/// Number of images among the first `n` elements.
pub open spec fn spec_images(els: Seq<ElementView>, n: int) -> int
    decreases n,
{
    if n <= 0 {
        0
    } else {
        spec_images(els, n - 1) + if els[n - 1].kind is Image {
            1int
        } else {
            0
        }
    }
}

/// The block that an element opens: a heading a title with the level of its
/// font size, a list item a list of one item, an image the next image number.
pub open spec fn spec_open(
    e: ElementView,
    id: int,
    image_no: int,
    sizes: Seq<u32>,
    levels: Seq<TitleLevel>,
) -> BlockView {
    BlockView {
        id: id as usize,
        kind: match e.kind {
            ElementType::Title | ElementType::Subtitle => BlockTypeView::Title {
                level: spec_lookup(sizes, levels, e.font_size).unwrap(),
                text: e.text,
            },
            ElementType::Text | ElementType::Caption => BlockTypeView::TextBlock(e.text),
            ElementType::ListItem => BlockTypeView::ListBlock(seq![spec_trim(e.text)]),
            ElementType::Header => BlockTypeView::Header(e.text),
            ElementType::Footer => BlockTypeView::Footer(e.text),
            ElementType::Image => BlockTypeView::Image { id: image_no as usize, caption: None },
            ElementType::Table => BlockTypeView::Table,
        },
        pages_id: seq![e.page_id],
        bbox: e.bbox,
    }
}

/// Element `i` joins the block of the element before it.
pub open spec fn spec_joins_at(els: Seq<ElementView>, i: int, env: MergeEnv) -> bool {
    i >= 1 && spec_joins(els[i - 1], els[i], env.pages, env.line_height, env.config)
}

/// The blocks that the first `n` elements make, in the order of their first elements.
pub open spec fn spec_blocks(els: Seq<ElementView>, n: int, env: MergeEnv) -> Seq<BlockView>
    decreases n,
{
    if n <= 0 {
        Seq::empty()
    } else {
        let before = spec_blocks(els, n - 1, env);
        let e = els[n - 1];
        if spec_joins_at(els, n - 1, env) && before.len() > 0 {
            before.update(before.len() - 1, before.last().absorb(e))
        } else {
            before.push(
                spec_open(e, before.len() as int, spec_images(els, n - 1), env.sizes, env.levels),
            )
        }
    }
}

/// No element lies on a page before that of the element before it.
pub open spec fn spec_ordered(els: Seq<ElementView>, n: int) -> bool {
    forall|u: int, v: int|
        0 <= u < v < n ==> (#[trigger] els[u]).page_id <= (#[trigger] els[v]).page_id
}

/// The table has a level for the font size of every heading.
pub open spec fn spec_levels_known(els: Seq<ElementView>, env: MergeEnv) -> bool {
    forall|i: int|
        0 <= i < els.len() && (#[trigger] els[i]).kind.spec_is_heading() ==> spec_lookup(
            env.sizes,
            env.levels,
            els[i].font_size,
        ) is Some
}

/// Index of the block that element `i` is in.
pub open spec fn spec_owner(els: Seq<ElementView>, i: int, env: MergeEnv) -> int {
    spec_blocks(els, i + 1, env).len() - 1
}

/// A block that takes an element from its last page, or from the page after
/// it, keeps its id, keeps pages that follow one another without a gap, ends on
/// the element's page, and still takes elements of that kind.
pub proof fn lemma_absorb_shape(b: BlockView, e: ElementView)
    requires
        b.pages_id.len() > 0,
        b.gapless(),
        b.pages_id.last() == e.page_id || b.pages_id.last() + 1 == e.page_id,
        b.kind.takes(e.kind),
    ensures
        b.absorb(e).id == b.id,
        b.absorb(e).pages_id.len() > 0,
        b.absorb(e).gapless(),
        b.absorb(e).pages_id.last() == e.page_id,
        b.absorb(e).kind.takes(e.kind),
        b.absorb(e).bbox.encloses(b.bbox),
        b.absorb(e).bbox.encloses(e.bbox),
        b.kind is Title == b.absorb(e).kind is Title,
{
    let g = b.absorb(e);
    let last = b.pages_id.len() - 1;
    assert(b.pages_id[last] == b.pages_id[0] + last);
    if b.pages_id.last() != e.page_id {
        assert forall|p: int| 0 <= p < g.pages_id.len() implies #[trigger] g.pages_id[p]
            == g.pages_id[0] + p by {
            if p <= last {
                assert(g.pages_id[p] == b.pages_id[p]);
            }
        }
    }
}

/// What holds of the blocks after any number of elements: there are no more
/// blocks than elements, a block's id is its position, every block has pages
/// that follow one another without a gap, and the last block ends on the page
/// of the last element and still takes elements of its kind.
pub proof fn lemma_blocks_shape(els: Seq<ElementView>, n: int, env: MergeEnv)
    requires
        0 <= n <= els.len() <= usize::MAX,
    ensures
        spec_blocks(els, n, env).len() <= n,
        0 <= spec_images(els, n) <= n,
        n > 0 ==> spec_blocks(els, n, env).len() > 0,
        forall|k: int|
            0 <= k < spec_blocks(els, n, env).len() ==> {
                let b = #[trigger] spec_blocks(els, n, env)[k];
                &&& b.id == k
                &&& b.pages_id.len() > 0
                &&& b.gapless()
            },
        n > 0 ==> spec_blocks(els, n, env).last().pages_id.last() == els[n - 1].page_id,
        n > 0 && spec_mergeable(els[n - 1].kind) ==> spec_blocks(els, n, env).last().kind.takes(
            els[n - 1].kind,
        ),
    decreases n,
{
    if n > 0 {
        lemma_blocks_shape(els, n - 1, env);
        let before = spec_blocks(els, n - 1, env);
        let after = spec_blocks(els, n, env);
        let e = els[n - 1];
        if spec_joins_at(els, n - 1, env) && before.len() > 0 {
            let last = before.last();
            let grown = last.absorb(e);
            lemma_joins_pages(els[n - 2], e, env.pages, env.line_height, env.config);
            lemma_absorb_shape(last, e);
            assert(after == before.update(before.len() - 1, grown));
            assert forall|k: int| 0 <= k < after.len() implies {
                let b = #[trigger] after[k];
                &&& b.id == k
                &&& b.pages_id.len() > 0
                &&& b.gapless()
            } by {
                if k < before.len() - 1 {
                    assert(after[k] == before[k]);
                } else {
                    assert(after[k] == grown);
                    assert(before[k] == last);
                }
            }
        } else {
            let opened = spec_open(
                e,
                before.len() as int,
                spec_images(els, n - 1),
                env.sizes,
                env.levels,
            );
            assert(after == before.push(opened));
            assert(opened.pages_id.len() == 1);
            assert(opened.gapless());
            assert forall|k: int| 0 <= k < after.len() implies {
                let b = #[trigger] after[k];
                &&& b.id == k
                &&& b.pages_id.len() > 0
                &&& b.gapless()
            } by {
                if k < before.len() {
                    assert(after[k] == before[k]);
                } else {
                    assert(after[k] == opened);
                }
            }
        }
    }
}

proof fn lemma_titles_bounded(els: Seq<ElementView>, n: int, env: MergeEnv, k: int)
    requires
        0 <= n <= els.len() <= usize::MAX,
        spec_levels_known(els, env),
        forall|i: int| 0 <= i < env.levels.len() ==> 1 <= #[trigger] env.levels[i] <= MAX_TITLE_LEVEL,
        0 <= k < spec_blocks(els, n, env).len(),
    ensures
        match spec_blocks(els, n, env)[k].kind {
            BlockTypeView::Title { level, .. } => 1 <= level <= MAX_TITLE_LEVEL,
            _ => true,
        },
    decreases n,
{
    if n > 0 {
        let before = spec_blocks(els, n - 1, env);
        let e = els[n - 1];
        lemma_blocks_shape(els, n - 1, env);
        if spec_joins_at(els, n - 1, env) && before.len() > 0 {
            lemma_titles_bounded(els, n - 1, env, k);
        } else {
            if k < before.len() {
                lemma_titles_bounded(els, n - 1, env, k);
            } else {
                if e.kind.spec_is_heading() {
                    lemma_lookup_in_table(env.sizes, env.levels, e.font_size);
                }
            }
        }
    }
}

/// Every block has at least one page, its pages strictly increase and follow
/// one another without a gap, and, where every level in the table lies between
/// one and six, so does the level of every title.
pub proof fn lemma_blocks_valid(els: Seq<ElementView>, n: int, env: MergeEnv)
    requires
        0 <= n <= els.len() <= usize::MAX,
        spec_levels_known(els, env),
        forall|i: int| 0 <= i < env.levels.len() ==> 1 <= #[trigger] env.levels[i] <= MAX_TITLE_LEVEL,
    ensures
        forall|k: int|
            0 <= k < spec_blocks(els, n, env).len() ==> (#[trigger] spec_blocks(
                els,
                n,
                env,
            )[k]).valid(),
        forall|k: int|
            0 <= k < spec_blocks(els, n, env).len() ==> (#[trigger] spec_blocks(
                els,
                n,
                env,
            )[k]).pages_increase(),
{
    let after = spec_blocks(els, n, env);
    lemma_blocks_shape(els, n, env);
    assert forall|k: int| 0 <= k < after.len() implies (#[trigger] after[k]).valid() by {
        lemma_titles_bounded(els, n, env, k);
    }
    assert forall|k: int| 0 <= k < after.len() implies (#[trigger] after[k]).pages_increase() by {
        assert(after[k].gapless());
    }
}

/// `page` is the page of one of the first `n` elements.
pub open spec fn spec_is_page_of(els: Seq<ElementView>, n: int, page: PageID) -> bool {
    exists|i: int| 0 <= i < n && (#[trigger] els[i]).page_id == page
}

/// Every page of the block is the page of one of the first `n` elements.
pub open spec fn spec_pages_from(els: Seq<ElementView>, n: int, block: BlockView) -> bool {
    forall|p: int|
        0 <= p < block.pages_id.len() ==> spec_is_page_of(els, n, #[trigger] block.pages_id[p])
}

/// A block lies on no page but those of the elements: every page that a
/// block notes is the page of one of the elements that were stitched.
pub proof fn lemma_block_pages_are_element_pages(els: Seq<ElementView>, n: int, env: MergeEnv)
    requires
        0 <= n <= els.len(),
    ensures
        forall|k: int|
            0 <= k < spec_blocks(els, n, env).len() ==> spec_pages_from(
                els,
                n,
                #[trigger] spec_blocks(els, n, env)[k],
            ),
    decreases n,
{
    if n > 0 {
        lemma_block_pages_are_element_pages(els, n - 1, env);
        let before = spec_blocks(els, n - 1, env);
        let after = spec_blocks(els, n, env);
        let e = els[n - 1];
        assert(spec_is_page_of(els, n, e.page_id)) by {
            assert(els[n - 1].page_id == e.page_id);
        }
        assert forall|k: int| 0 <= k < before.len() implies spec_pages_from(
            els,
            n,
            #[trigger] before[k],
        ) by {
            assert(spec_pages_from(els, n - 1, before[k]));
            assert forall|p: int| 0 <= p < before[k].pages_id.len() implies spec_is_page_of(
                els,
                n,
                #[trigger] before[k].pages_id[p],
            ) by {
                assert(spec_is_page_of(els, n - 1, before[k].pages_id[p]));
                let i = choose|i: int|
                    0 <= i < n - 1 && (#[trigger] els[i]).page_id == before[k].pages_id[p];
                assert(els[i].page_id == before[k].pages_id[p]);
            }
        }
        assert forall|k: int| 0 <= k < after.len() implies spec_pages_from(
            els,
            n,
            #[trigger] after[k],
        ) by {
            if spec_joins_at(els, n - 1, env) && before.len() > 0 {
                if k < before.len() - 1 {
                    assert(after[k] == before[k]);
                } else {
                    let last = before.last();
                    assert(after[k] == last.absorb(e));
                    assert(spec_pages_from(els, n, before[k]));
                    assert forall|p: int| 0 <= p < after[k].pages_id.len() implies spec_is_page_of(
                        els,
                        n,
                        #[trigger] after[k].pages_id[p],
                    ) by {
                        if p < last.pages_id.len() {
                            assert(after[k].pages_id[p] == last.pages_id[p]);
                        } else {
                            assert(after[k].pages_id[p] == e.page_id);
                        }
                    }
                }
            } else {
                if k < before.len() {
                    assert(after[k] == before[k]);
                } else {
                    assert(after[k].pages_id =~= seq![e.page_id]);
                }
            }
        }
    }
}

/// The box of a block encloses the box of every element that is in it.
pub proof fn lemma_block_encloses_elements(els: Seq<ElementView>, n: int, i: int, env: MergeEnv)
    requires
        0 <= i < n <= els.len() <= usize::MAX,
    ensures
        0 <= spec_owner(els, i, env) < spec_blocks(els, n, env).len(),
        spec_blocks(els, n, env)[spec_owner(els, i, env)].bbox.encloses(els[i].bbox),
    decreases n,
{
    let owner = spec_owner(els, i, env);
    lemma_blocks_shape(els, i + 1, env);
    let before = spec_blocks(els, n - 1, env);
    let e = els[n - 1];
    lemma_blocks_shape(els, n - 1, env);
    if n == i + 1 {
        if spec_joins_at(els, n - 1, env) && before.len() > 0 {
            lemma_hull_encloses(before.last().bbox, e.bbox);
        }
    } else {
        lemma_block_encloses_elements(els, n - 1, i, env);
        if spec_joins_at(els, n - 1, env) && before.len() > 0 {
            if owner == before.len() - 1 {
                lemma_hull_encloses(before.last().bbox, e.bbox);
            }
        }
    }
}

fn page_height(pages: &Vec<Page>, id: PageID) -> (r: Option<u32>)
    ensures
        r == spec_page_height(pages@, id, pages.len() as int),
{
    let mut found: Option<u32> = None;
    let mut i: usize = 0;
    while i < pages.len()
        invariant
            i <= pages.len(),
            found == spec_page_height(pages@, id, i as int),
        decreases pages.len() - i,
    {
        if found.is_none() && pages[i].id == id {
            found = Some(pages[i].height);
        }
        i = i + 1;
    }
    found
}

fn near_top(bbox: &BBox, height: u32, band: Ratio) -> (b: bool)
    ensures
        b == spec_near_top(*bbox, height, band),
{
    let y: u64 = bbox.y0 as u64;
    let den: u64 = band.den as u64;
    let num: u64 = band.num as u64;
    let h: u64 = height as u64;
    assert(y * den <= 0xFFFF_FFFF * 0xFFFF_FFFF && num * h <= 0xFFFF_FFFF * 0xFFFF_FFFF)
        by (nonlinear_arith)
        requires
            0 <= y <= 0xFFFF_FFFF,
            0 <= den <= 0xFFFF_FFFF,
            0 <= num <= 0xFFFF_FFFF,
            0 <= h <= 0xFFFF_FFFF,
    ;
    y * den <= num * h
}

fn near_bottom(bbox: &BBox, height: u32, band: Ratio) -> (b: bool)
    ensures
        b == spec_near_bottom(*bbox, height, band),
{
    let y: u128 = bbox.y1 as u128;
    let den: u128 = band.den as u128;
    let num: u128 = band.num as u128;
    let h: u128 = height as u128;
    assert(y * den <= 0xFFFF_FFFF * 0xFFFF_FFFF && num * h <= 0xFFFF_FFFF * 0xFFFF_FFFF && den * h
        <= 0xFFFF_FFFF * 0xFFFF_FFFF) by (nonlinear_arith)
        requires
            0 <= y <= 0xFFFF_FFFF,
            0 <= den <= 0xFFFF_FFFF,
            0 <= num <= 0xFFFF_FFFF,
            0 <= h <= 0xFFFF_FFFF,
    ;
    y * den + num * h >= den * h
}

fn mergeable(kind: ElementType) -> (b: bool)
    ensures
        b == spec_mergeable(kind),
{
    match kind {
        ElementType::Text => true,
        ElementType::ListItem => true,
        ElementType::Header => true,
        ElementType::Footer => true,
        _ => false,
    }
}

fn same_kind(a: ElementType, b: ElementType) -> (r: bool)
    ensures
        r == (a == b),
{
    a == b
}

fn same_page_join(a: &Element, b: &Element, line_height: u32, config: &MergeConfig) -> (r: bool)
    ensures
        r == spec_same_page_join(a@, b@, line_height, *config),
{
    if a.page_id != b.page_id {
        return false;
    }
    let overlap: u64 = a.bbox.overlap_x(&b.bbox) as u64;
    let wa: u32 = a.bbox.width();
    let wb: u32 = b.bbox.width();
    let narrow: u64 = if wa <= wb {
        wa as u64
    } else {
        wb as u64
    };
    let gap_lo: u32 = if a.bbox.y1 <= b.bbox.y1 {
        a.bbox.y1
    } else {
        b.bbox.y1
    };
    let gap_hi: u32 = if a.bbox.y0 >= b.bbox.y0 {
        a.bbox.y0
    } else {
        b.bbox.y0
    };
    let gap: u64 = if gap_hi > gap_lo {
        (gap_hi - gap_lo) as u64
    } else {
        0
    };
    let hd: u64 = config.min_h_overlap.den as u64;
    let hn: u64 = config.min_h_overlap.num as u64;
    let vd: u64 = config.max_v_gap.den as u64;
    let vn: u64 = config.max_v_gap.num as u64;
    let lh: u64 = line_height as u64;
    assert(overlap * hd <= 0xFFFF_FFFF * 0xFFFF_FFFF && hn * narrow <= 0xFFFF_FFFF * 0xFFFF_FFFF
        && gap * vd <= 0xFFFF_FFFF * 0xFFFF_FFFF && vn * lh <= 0xFFFF_FFFF * 0xFFFF_FFFF)
        by (nonlinear_arith)
        requires
            0 <= overlap <= 0xFFFF_FFFF,
            0 <= hd <= 0xFFFF_FFFF,
            0 <= hn <= 0xFFFF_FFFF,
            0 <= narrow <= 0xFFFF_FFFF,
            0 <= gap <= 0xFFFF_FFFF,
            0 <= vd <= 0xFFFF_FFFF,
            0 <= vn <= 0xFFFF_FFFF,
            0 <= lh <= 0xFFFF_FFFF,
    ;
    overlap * hd >= hn * narrow && gap * vd <= vn * lh
}

/// Whether `b`, which follows `a` in reading order, joins the block of `a`.
pub fn joins(
    a: &Element,
    b: &Element,
    pages: &Vec<Page>,
    line_height: u32,
    config: &MergeConfig,
) -> (r: bool)
    ensures
        r == spec_joins(a@, b@, pages@, line_height, *config),
{
    if !mergeable(a.kind) || !same_kind(a.kind, b.kind) {
        return false;
    }
    if same_page_join(a, b, line_height, config) {
        return true;
    }
    if b.page_id == 0 || a.page_id != b.page_id - 1 {
        return false;
    }
    let ha: Option<u32> = page_height(pages, a.page_id);
    let hb: Option<u32> = page_height(pages, b.page_id);
    match (ha, hb) {
        (Some(ha), Some(hb)) => near_bottom(&a.bbox, ha, config.edge_band) && near_top(
            &b.bbox,
            hb,
            config.edge_band,
        ),
        _ => false,
    }
}

fn open_block(e: Element, id: usize, image_no: usize, levels: &TitleLevels) -> (b: Block)
    requires
        e.kind.spec_is_heading() ==> levels.spec_level_of(e.text_block.font_size) is Some,
    ensures
        b@ == spec_open(e@, id as int, image_no as int, levels.sizes@, levels.levels@),
{
    let mut pages_id: Vec<PageID> = Vec::new();
    pages_id.push(e.page_id);
    assert(pages_id@ =~= seq![e.page_id]);
    let bbox: BBox = e.bbox;
    let kind: BlockType = match e.kind {
        ElementType::Title | ElementType::Subtitle => {
            let level: TitleLevel = levels.level_of(e.text_block.font_size).unwrap();
            BlockType::Title(Title { level, text: e.text_block.text })
        },
        ElementType::Text | ElementType::Caption => BlockType::TextBlock(
            TextBlock { text: e.text_block.text },
        ),
        ElementType::ListItem => {
            let mut items: Vec<String> = Vec::new();
            items.push(trim(e.text_block.text.as_str()));
            assert(items.deep_view() =~= seq![spec_trim(e@.text)]);
            BlockType::ListBlock(List { items })
        },
        ElementType::Header => BlockType::Header(TextBlock { text: e.text_block.text }),
        ElementType::Footer => BlockType::Footer(TextBlock { text: e.text_block.text }),
        ElementType::Image => BlockType::Image(ImageBlock { id: image_no, caption: None }),
        ElementType::Table => BlockType::Table,
    };
    Block { id, kind, pages_id, bbox }
}

fn push_opened(
    blocks: &mut Vec<Block>,
    e: Element,
    image_no: usize,
    levels: &TitleLevels,
)
    requires
        e.kind.spec_is_heading() ==> levels.spec_level_of(e.text_block.font_size) is Some,
    ensures
        final(blocks).deep_view() == old(blocks).deep_view().push(
            spec_open(
                e@,
                old(blocks).len() as int,
                image_no as int,
                levels.sizes@,
                levels.levels@,
            ),
        ),
{
    let id: usize = blocks.len();
    let opened: Block = open_block(e, id, image_no, levels);
    blocks.push(opened);
    assert(blocks.deep_view() =~= old(blocks).deep_view().push(opened@));
}

fn grow_last(blocks: &mut Vec<Block>, e: Element)
    requires
        old(blocks).len() > 0,
        old(blocks).deep_view().last().accepts(e@),
    ensures
        final(blocks).deep_view() == old(blocks).deep_view().update(
            old(blocks).len() - 1,
            old(blocks).deep_view().last().absorb(e@),
        ),
{
    let ghost before = blocks.deep_view();
    let mut last: Block = blocks.pop().unwrap();
    assert(last@ == before.last());
    let _ = last.merge(e);
    blocks.push(last);
    assert(blocks.deep_view() =~= before.update(before.len() - 1, before.last().absorb(e@)));
}

fn disorder(blocks: &Vec<Block>, e: Element) -> (err: FerrulesError)
    requires
        blocks.len() > 0,
    ensures
        err@ == (FerrulesErrorView::BlockMergeError {
            block_id: blocks.deep_view().last().id,
            kind: blocks.deep_view().last().kind,
            element: e@,
        }),
{
    let n: usize = blocks.len();
    assert(blocks.deep_view().last() == blocks[n - 1]@);
    FerrulesError::BlockMergeError {
        block_id: blocks[n - 1].id,
        kind: blocks[n - 1].kind.clone(),
        element: e,
    }
}

/// Element `v` is the first that lies on a page before that of the element
/// before it, and `error` names it and the block that the elements before it
/// had last made.
pub open spec fn spec_fails_at(
    els: Seq<ElementView>,
    v: int,
    env: MergeEnv,
    error: FerrulesErrorView,
) -> bool {
    &&& 0 < v < els.len()
    &&& spec_ordered(els, v)
    &&& els[v].page_id < els[v - 1].page_id
    &&& error == FerrulesErrorView::BlockMergeError {
        block_id: spec_blocks(els, v, env).last().id,
        kind: spec_blocks(els, v, env).last().kind,
        element: els[v],
    }
}

/// The surroundings that a call of the stitcher fixes.
pub open spec fn spec_env(
    title_levels: &TitleLevels,
    pages: Seq<Page>,
    median_line_height: u32,
    config: MergeConfig,
) -> MergeEnv {
    MergeEnv {
        pages,
        line_height: median_line_height,
        config,
        sizes: title_levels.sizes@,
        levels: title_levels.levels@,
    }
}

fn step(
    blocks: &mut Vec<Block>,
    elements: &Vec<Element>,
    i: usize,
    images: usize,
    title_levels: &TitleLevels,
    pages: &Vec<Page>,
    median_line_height: u32,
    config: &MergeConfig,
) -> (r: Result<(), FerrulesError>)
    requires
        i < elements.len(),
        old(blocks).deep_view() == spec_blocks(
            elements.deep_view(),
            i as int,
            spec_env(title_levels, pages@, median_line_height, *config),
        ),
        images == spec_images(elements.deep_view(), i as int),
        elements[i as int].kind.spec_is_heading() ==> title_levels.spec_level_of(
            elements[i as int].text_block.font_size,
        ) is Some,
    ensures
        ({
            let els = elements.deep_view();
            let env = spec_env(title_levels, pages@, median_line_height, *config);
            match r {
                Ok(_) => {
                    &&& i > 0 ==> els[i - 1].page_id <= els[i as int].page_id
                    &&& final(blocks).deep_view() == spec_blocks(els, i + 1, env)
                },
                Err(e) => {
                    &&& i > 0
                    &&& els[i as int].page_id < els[i - 1].page_id
                    &&& e@ == FerrulesErrorView::BlockMergeError {
                        block_id: spec_blocks(els, i as int, env).last().id,
                        kind: spec_blocks(els, i as int, env).last().kind,
                        element: els[i as int],
                    }
                },
            }
        }),
{
    let ghost els = elements.deep_view();
    let ghost env = spec_env(title_levels, pages@, median_line_height, *config);
    proof {
        lemma_blocks_shape(els, i as int, env);
    }
    assert(els[i as int] == elements[i as int]@);
    let e: Element = elements[i].clone();
    if i == 0 {
        push_opened(blocks, e, images, title_levels);
        return Ok(());
    }
    assert(els[i - 1] == elements[i - 1]@);
    if e.page_id < elements[i - 1].page_id {
        return Err(disorder(blocks, e));
    }
    if joins(&elements[i - 1], &elements[i], pages, median_line_height, config) {
        proof {
            lemma_joins_pages(els[i - 1], els[i as int], env.pages, env.line_height, env.config);
        }
        grow_last(blocks, e);
    } else {
        push_opened(blocks, e, images, title_levels);
    }
    Ok(())
}

/// Stitches the elements of a document, given in reading order, into blocks.
///
/// The blocks come out in the order of their first elements, numbered from
/// zero, images numbered among themselves. An element that lies on a page
/// before that of the element before it cannot be stitched: it comes back in
/// the error, with the block that was being built.
pub fn merge_elements_into_blocks(
    elements: Vec<Element>,
    title_levels: &TitleLevels,
    pages: &Vec<Page>,
    median_line_height: u32,
    config: &MergeConfig,
) -> (r: Result<Vec<Block>, FerrulesError>)
    requires
        spec_levels_known(
            elements.deep_view(),
            spec_env(title_levels, pages@, median_line_height, *config),
        ),
    ensures
        ({
            let els = elements.deep_view();
            let env = spec_env(title_levels, pages@, median_line_height, *config);
            match r {
                Ok(blocks) => {
                    &&& spec_ordered(els, els.len() as int)
                    &&& blocks.deep_view() == spec_blocks(els, els.len() as int, env)
                },
                Err(e) => exists|v: int| #[trigger] spec_fails_at(els, v, env, e@),
            }
        }),
        title_levels.valid() && r is Ok ==> forall|k: int|
            0 <= k < r.unwrap().len() ==> (#[trigger] r.unwrap()[k])@.valid() && r.unwrap()[k]@.pages_increase(),
        r is Ok ==> forall|k: int|
            0 <= k < r.unwrap().len() ==> spec_pages_from(
                elements.deep_view(),
                elements.len() as int,
                (#[trigger] r.unwrap()[k])@,
            ),
        r is Ok ==> forall|i: int|
            0 <= i < elements.len() ==> {
                let owner = spec_owner(
                    elements.deep_view(),
                    i,
                    spec_env(title_levels, pages@, median_line_height, *config),
                );
                &&& 0 <= owner < r.unwrap().len()
                &&& r.unwrap()[owner]@.bbox.encloses((#[trigger] elements[i]).bbox)
            },
{
    let ghost els = elements.deep_view();
    let ghost env = spec_env(title_levels, pages@, median_line_height, *config);
    let mut blocks: Vec<Block> = Vec::new();
    let mut images: usize = 0;
    let mut i: usize = 0;
    assert(blocks.deep_view() =~= spec_blocks(els, 0, env));
    while i < elements.len()
        invariant
            i <= elements.len(),
            els == elements.deep_view(),
            env == spec_env(title_levels, pages@, median_line_height, *config),
            spec_levels_known(els, env),
            blocks.deep_view() == spec_blocks(els, i as int, env),
            images == spec_images(els, i as int),
            spec_ordered(els, i as int),
        decreases elements.len() - i,
    {
        proof {
            lemma_blocks_shape(els, i as int, env);
        }
        assert(els[i as int] == elements[i as int]@);
        let is_image: bool = matches!(elements[i].kind, ElementType::Image);
        match step(&mut blocks, &elements, i, images, title_levels, pages, median_line_height, config) {
            Ok(_) => {},
            Err(e) => {
                assert(spec_fails_at(els, i as int, env, e@));
                return Err(e);
            },
        }
        assert forall|u: int, v: int| 0 <= u < v < i + 1 implies (#[trigger] els[u]).page_id <= (
        #[trigger] els[v]).page_id by {
            if v == i && u < i - 1 {
                assert(els[u].page_id <= els[i - 1].page_id);
            }
        }
        if is_image {
            images = images + 1;
        }
        i = i + 1;
    }
    proof {
        let n = els.len() as int;
        if title_levels.valid() {
            lemma_blocks_valid(els, n, env);
        }
        lemma_block_pages_are_element_pages(els, n, env);
        assert forall|k: int| 0 <= k < blocks.len() implies blocks.deep_view()[k]
            == (#[trigger] blocks[k])@ by {}
        assert forall|i: int| 0 <= i < elements.len() implies {
            let owner = spec_owner(els, i, env);
            &&& 0 <= owner < blocks.len()
            &&& blocks[owner]@.bbox.encloses((#[trigger] elements[i]).bbox)
        } by {
            lemma_block_encloses_elements(els, n, i, env);
            assert(els[i] == elements[i]@);
            assert(blocks.deep_view()[spec_owner(els, i, env)] == blocks[spec_owner(els, i, env)]@);
        }
    }
    Ok(blocks)
}

} // verus!
