//! Putting a document together out of its fused pages.
//!
//! Pages finish in any order. They are counted as they come in, put in the
//! order of their ids, and their elements, page after page, are stitched into
//! the blocks of the document.

use crate::entities::{
    DocumentMetadata, Element, ElementType, ElementView, Page, ParsedDocument, StructuredPage,
};
use crate::error::FerrulesError;
use crate::merge::{
    merge_elements_into_blocks, spec_blocks, spec_env, spec_fails_at, spec_ordered, MergeConfig,
    MergeEnv,
};
use crate::order::{
    distinct_keys, lemma_sort_ignores_arrival_order, lemma_sort_properties, sort_by_key, spec_sort,
    SortKey,
};
use crate::titles::{
    spec_distinct, spec_levels, title_levels_kmeans, TitleLevels, MAX_CLUSTERS,
};
use vstd::prelude::*;

verus! {

impl SortKey for StructuredPage {
    open spec fn spec_sort_key(&self) -> u64 {
        self.id as u64
    }

    fn sort_key(&self) -> (k: u64) {
        self.id as u64
    }
}

/// The elements of the first `n` pages, page after page.
pub open spec fn spec_flatten(pages: Seq<StructuredPage>, n: int) -> Seq<ElementView>
    decreases n,
{
    if n <= 0 {
        Seq::empty()
    } else {
        spec_flatten(pages, n - 1) + pages[n - 1]@.elements
    }
}

/// The font sizes of the headings among the first `n` elements.
pub open spec fn spec_heading_sizes(els: Seq<ElementView>, n: int) -> Seq<u32>
    decreases n,
{
    if n <= 0 {
        Seq::empty()
    } else if els[n - 1].kind.spec_is_heading() {
        spec_heading_sizes(els, n - 1).push(els[n - 1].font_size)
    } else {
        spec_heading_sizes(els, n - 1)
    }
}

/// The font sizes of the running text among the first `n` elements.
pub open spec fn spec_text_sizes(els: Seq<ElementView>, n: int) -> Seq<u32>
    decreases n,
{
    if n <= 0 {
        Seq::empty()
    } else if els[n - 1].kind is Text || els[n - 1].kind is ListItem {
        spec_text_sizes(els, n - 1).push(els[n - 1].font_size)
    } else {
        spec_text_sizes(els, n - 1)
    }
}

/// The middle one of the values in ascending order, the upper of the two
/// middle ones where their number is even; zero without values.
pub open spec fn spec_median(values: Seq<u32>) -> u32 {
    if values.len() == 0 {
        0
    } else {
        spec_sort(values)[values.len() as int / 2]
    }
}

/// The frames of the pages.
pub open spec fn spec_frames(pages: Seq<StructuredPage>) -> Seq<Page> {
    Seq::new(pages.len(), |i: int| pages[i]@.frame())
}

/// The elements of a document whose pages stand in this order.
pub open spec fn spec_elements(sorted: Seq<StructuredPage>) -> Seq<ElementView> {
    spec_flatten(sorted, sorted.len() as int)
}

/// What the stitching rules read when the pages stand in this order: the
/// frames of the pages, the median font size of the running text as the line
/// height, and the title levels of the headings' font sizes.
pub open spec fn spec_document_env(sorted: Seq<StructuredPage>, config: MergeConfig) -> MergeEnv {
    let els = spec_elements(sorted);
    let headings = spec_heading_sizes(els, els.len() as int);
    MergeEnv {
        pages: spec_frames(sorted),
        line_height: spec_median(spec_text_sizes(els, els.len() as int)),
        config,
        sizes: spec_distinct(headings),
        levels: spec_levels(headings, MAX_CLUSTERS),
    }
}

/// The blocks of a document whose pages stand in this order.
pub open spec fn spec_document_blocks(sorted: Seq<StructuredPage>, config: MergeConfig) -> Seq<
    crate::blocks::BlockView,
> {
    let els = spec_elements(sorted);
    spec_blocks(els, els.len() as int, spec_document_env(sorted, config))
}

/// Every element carries the id of the page that it stands on.
pub open spec fn spec_elements_on_their_pages(pages: Seq<StructuredPage>) -> bool {
    forall|i: int, j: int|
        0 <= i < pages.len() && 0 <= j < pages[i]@.elements.len() ==> (
        #[trigger] pages[i]@.elements[j]).page_id == pages[i].id
}

/// The pages by ascending id; pages with one id keep the order they came in.
pub fn order_pages(pages: Vec<StructuredPage>) -> (r: Vec<StructuredPage>)
    ensures
        r@ == spec_sort(pages@),
        r@.len() == pages@.len(),
        r@.to_multiset() == pages@.to_multiset(),
        crate::order::ascending(r@),
{
    sort_by_key(pages)
}

fn flatten(pages: &Vec<StructuredPage>) -> (r: Vec<Element>)
    ensures
        r.deep_view() == spec_flatten(pages@, pages.len() as int),
{
    let mut r: Vec<Element> = Vec::new();
    let mut i: usize = 0;
    assert(r.deep_view() =~= spec_flatten(pages@, 0));
    while i < pages.len()
        invariant
            i <= pages.len(),
            r.deep_view() == spec_flatten(pages@, i as int),
        decreases pages.len() - i,
    {
        let ghost before = r.deep_view();
        let page: &StructuredPage = &pages[i];
        let mut j: usize = 0;
        assert(page@.elements.subrange(0, 0) =~= Seq::<ElementView>::empty());
        assert(before + Seq::<ElementView>::empty() =~= before);
        while j < page.elements.len()
            invariant
                j <= page.elements.len(),
                r.deep_view() == before + page@.elements.subrange(0, j as int),
            decreases page.elements.len() - j,
        {
            let ghost so_far = r.deep_view();
            let e: Element = page.elements[j].clone();
            assert(e@ == page@.elements[j as int]);
            r.push(e);
            assert(r.deep_view() =~= so_far.push(e@));
            assert(so_far.push(e@) =~= before + page@.elements.subrange(0, j + 1));
            j = j + 1;
        }
        assert(page@.elements.subrange(0, page.elements.len() as int) =~= page@.elements);
        i = i + 1;
    }
    r
}

fn heading_sizes(elements: &Vec<Element>) -> (r: Vec<u32>)
    ensures
        r@ == spec_heading_sizes(elements.deep_view(), elements.len() as int),
{
    let mut r: Vec<u32> = Vec::new();
    let mut i: usize = 0;
    while i < elements.len()
        invariant
            i <= elements.len(),
            r@ == spec_heading_sizes(elements.deep_view(), i as int),
        decreases elements.len() - i,
    {
        assert(elements.deep_view()[i as int] == elements[i as int]@);
        if elements[i].kind.is_heading() {
            r.push(elements[i].text_block.font_size);
        }
        i = i + 1;
    }
    r
}

fn text_sizes(elements: &Vec<Element>) -> (r: Vec<u32>)
    ensures
        r@ == spec_text_sizes(elements.deep_view(), elements.len() as int),
{
    let mut r: Vec<u32> = Vec::new();
    let mut i: usize = 0;
    while i < elements.len()
        invariant
            i <= elements.len(),
            r@ == spec_text_sizes(elements.deep_view(), i as int),
        decreases elements.len() - i,
    {
        assert(elements.deep_view()[i as int] == elements[i as int]@);
        let running: bool = match elements[i].kind {
            ElementType::Text => true,
            ElementType::ListItem => true,
            _ => false,
        };
        if running {
            r.push(elements[i].text_block.font_size);
        }
        i = i + 1;
    }
    r
}

/// The middle one of the values in ascending order; zero without values.
pub fn median(values: Vec<u32>) -> (m: u32)
    ensures
        m == spec_median(values@),
{
    let n: usize = values.len();
    if n == 0 {
        return 0;
    }
    let sorted: Vec<u32> = sort_by_key(values);
    sorted[n / 2]
}

fn frames(pages: &Vec<StructuredPage>) -> (r: Vec<Page>)
    ensures
        r@ == spec_frames(pages@),
{
    let mut r: Vec<Page> = Vec::new();
    let mut i: usize = 0;
    while i < pages.len()
        invariant
            i <= pages.len(),
            r.len() == i,
            forall|k: int| 0 <= k < i ==> r[k] == pages[k]@.frame(),
        decreases pages.len() - i,
    {
        let p: &StructuredPage = &pages[i];
        r.push(Page { id: p.id, width: p.width, height: p.height, need_ocr: p.need_ocr });
        i = i + 1;
    }
    assert(r@ =~= spec_frames(pages@));
    r
}

/// The headings among the first `n` elements have their levels in a table
/// that was made from the font sizes of all headings.
proof fn lemma_headings_covered(els: Seq<ElementView>, n: int, i: int, levels: &TitleLevels)
    requires
        0 <= i < n <= els.len(),
        els[i].kind.spec_is_heading(),
        levels.covers(spec_heading_sizes(els, n)),
    ensures
        levels.spec_level_of(els[i].font_size) is Some,
    decreases n,
{
    let sizes = spec_heading_sizes(els, n);
    if i == n - 1 {
        assert(sizes[sizes.len() - 1] == els[i].font_size);
    } else {
        let fewer = spec_heading_sizes(els, n - 1);
        assert forall|k: int| 0 <= k < fewer.len() implies (#[trigger] levels.spec_level_of(
            fewer[k],
        )) is Some by {
            assert(sizes[k] == fewer[k]);
        }
        lemma_headings_covered(els, n - 1, i, levels);
    }
}

/// Builds the document out of its fused pages, in whatever order they came.
///
/// The pages are put in the order of their ids, the headings' font sizes give
/// the title levels, and the elements are stitched into blocks. Stitching
/// fails, and the document with it, where an element claims a page before
/// that of the element before it.
pub fn assemble_document(
    doc_name: String,
    pages: Vec<StructuredPage>,
    debug_path: Option<String>,
    parsing_duration_ms: u64,
    config: &MergeConfig,
) -> (r: Result<ParsedDocument, FerrulesError>)
    ensures
        ({
            let sorted = spec_sort(pages@);
            let els = spec_elements(sorted);
            match r {
                Ok(doc) => {
                    &&& spec_ordered(els, els.len() as int)
                    &&& doc@.doc_name == doc_name@
                    &&& doc@.pages == spec_frames(sorted)
                    &&& doc@.blocks == spec_document_blocks(sorted, *config)
                    &&& doc.debug_path == debug_path
                    &&& doc.metadata.parsing_duration_ms == parsing_duration_ms
                    &&& doc.pages.len() == pages.len()
                    &&& forall|k: int|
                        0 <= k < doc.blocks.len() ==> (#[trigger] doc.blocks[k])@.valid()
                            && doc.blocks[k]@.pages_increase()
                    &&& forall|k: int|
                        0 <= k < doc.blocks.len() ==> crate::merge::spec_pages_from(
                            els,
                            els.len() as int,
                            (#[trigger] doc.blocks[k])@,
                        )
                    &&& forall|i: int|
                        0 <= i < els.len() ==> {
                            let owner = crate::merge::spec_owner(
                                els,
                                i,
                                spec_document_env(sorted, *config),
                            );
                            &&& 0 <= owner < doc.blocks.len()
                            &&& doc.blocks[owner]@.bbox.encloses((#[trigger] els[i]).bbox)
                        }
                },
                Err(e) => exists|v: int| #[trigger]
                    spec_fails_at(els, v, spec_document_env(sorted, *config), e@),
            }
        }),
{
    let sorted: Vec<StructuredPage> = order_pages(pages);
    let elements: Vec<Element> = flatten(&sorted);
    let headings: Vec<u32> = heading_sizes(&elements);
    let title_levels: TitleLevels = title_levels_kmeans(&headings, MAX_CLUSTERS);
    let doc_pages: Vec<Page> = frames(&sorted);
    let line_height: u32 = median(text_sizes(&elements));
    let ghost els = elements.deep_view();
    let ghost env = spec_env(&title_levels, doc_pages@, line_height, *config);
    proof {
        assert(env == spec_document_env(sorted@, *config));
        assert forall|i: int| 0 <= i < els.len() && (#[trigger] els[i]).kind.spec_is_heading() implies crate::titles::spec_lookup(
            env.sizes,
            env.levels,
            els[i].font_size,
        ) is Some by {
            lemma_headings_covered(els, els.len() as int, i, &title_levels);
        }
    }
    match merge_elements_into_blocks(elements, &title_levels, &doc_pages, line_height, config) {
        Ok(blocks) => {
            proof {
                assert forall|i: int| 0 <= i < els.len() implies {
                    let owner = crate::merge::spec_owner(els, i, env);
                    &&& 0 <= owner < blocks.len()
                    &&& blocks[owner]@.bbox.encloses((#[trigger] els[i]).bbox)
                } by {
                    assert(els[i] == elements[i]@);
                }
            }
            Ok(
            ParsedDocument {
                doc_name,
                pages: doc_pages,
                blocks,
                debug_path,
                metadata: DocumentMetadata::new(parsing_duration_ms),
            },
        )
        },
        Err(e) => Err(e),
    }
}

/// Elements that carry the id of their page, on pages in ascending order of
/// their ids, are in reading order.
pub proof fn lemma_sorted_pages_give_ordered_elements(sorted: Seq<StructuredPage>, n: int)
    requires
        0 <= n <= sorted.len(),
        crate::order::ascending(sorted),
        spec_elements_on_their_pages(sorted),
    ensures
        spec_ordered(spec_flatten(sorted, n), spec_flatten(sorted, n).len() as int),
        forall|k: int|
            0 <= k < spec_flatten(sorted, n).len() ==> n > 0 && (#[trigger] spec_flatten(
                sorted,
                n,
            )[k]).page_id <= sorted[n - 1].id,
    decreases n,
{
    if n > 0 {
        lemma_sorted_pages_give_ordered_elements(sorted, n - 1);
        let before = spec_flatten(sorted, n - 1);
        let here = sorted[n - 1]@.elements;
        let all = spec_flatten(sorted, n);
        assert(all == before + here);
        assert forall|k: int| 0 <= k < all.len() implies (#[trigger] all[k]).page_id <= sorted[n
            - 1].id by {
            if k < before.len() {
                assert(all[k] == before[k]);
                assert(sorted[n - 2].spec_sort_key() <= sorted[n - 1].spec_sort_key());
            } else {
                assert(all[k] == here[k - before.len()]);
            }
        }
        assert forall|u: int, v: int| 0 <= u < v < all.len() implies (#[trigger] all[u]).page_id <= (
        #[trigger] all[v]).page_id by {
            if v < before.len() {
                assert(all[u] == before[u] && all[v] == before[v]);
            } else if u < before.len() {
                assert(all[u] == before[u]);
                assert(all[v] == here[v - before.len()]);
                assert(sorted[n - 2].spec_sort_key() <= sorted[n - 1].spec_sort_key());
            } else {
                assert(all[u] == here[u - before.len()]);
                assert(all[v] == here[v - before.len()]);
            }
        }
    }
}

/// Stitching does not fail where every element carries the id of its page:
/// the elements of the pages in the order of their ids are in reading order.
pub proof fn lemma_assembly_succeeds(pages: Seq<StructuredPage>)
    requires
        spec_elements_on_their_pages(pages),
    ensures
        spec_ordered(
            spec_elements(spec_sort(pages)),
            spec_elements(spec_sort(pages)).len() as int,
        ),
{
    let sorted = spec_sort(pages);
    lemma_sort_properties(pages);
    assert forall|i: int, j: int|
        0 <= i < sorted.len() && 0 <= j < sorted[i]@.elements.len() implies (
    #[trigger] sorted[i]@.elements[j]).page_id == sorted[i].id by {
        assert(sorted.contains(sorted[i]));
        vstd::seq_lib::to_multiset_contains(sorted, sorted[i]);
        vstd::seq_lib::to_multiset_contains(pages, sorted[i]);
        let p = choose|p: int| 0 <= p < pages.len() && pages[p] == sorted[i];
        assert(pages[p]@.elements[j].page_id == pages[p].id);
    }
    lemma_sorted_pages_give_ordered_elements(sorted, sorted.len() as int);
}

/// The document does not depend on the order in which its pages were
/// finished: where no two pages share an id, pages that arrive in another
/// order give the same pages, the same elements and the same blocks.
pub proof fn lemma_document_ignores_completion_order(
    a: Seq<StructuredPage>,
    b: Seq<StructuredPage>,
    config: MergeConfig,
)
    requires
        distinct_keys(a),
        a.to_multiset() == b.to_multiset(),
    ensures
        spec_sort(a) == spec_sort(b),
        spec_frames(spec_sort(a)) == spec_frames(spec_sort(b)),
        spec_elements(spec_sort(a)) == spec_elements(spec_sort(b)),
        spec_document_blocks(spec_sort(a), config) == spec_document_blocks(spec_sort(b), config),
{
    lemma_sort_ignores_arrival_order(a, b);
}

/// Counts the pages of one document as they come out of fusion.
pub struct PageCollector {
    expected: usize,
    pages: Vec<StructuredPage>,
    failed: usize,
}

impl PageCollector {
    /// Number of pages that the document was asked for.
    pub closed spec fn spec_expected(&self) -> int {
        self.expected as int
    }

    /// The pages that succeeded, in the order in which they finished.
    pub closed spec fn spec_pages(&self) -> Seq<StructuredPage> {
        self.pages@
    }

    /// Number of pages that were reported failed.
    pub closed spec fn spec_failed(&self) -> int {
        self.failed as int
    }

    /// Every expected page has been recorded, as a success or as a failure.
    pub open spec fn spec_is_complete(&self) -> bool {
        self.spec_pages().len() + self.spec_failed() == self.spec_expected()
    }

    /// A collector for a document of `expected` pages.
    pub fn new(expected: usize) -> (c: PageCollector)
        ensures
            c.spec_expected() == expected,
            c.spec_pages() == Seq::<StructuredPage>::empty(),
            c.spec_failed() == 0,
    {
        PageCollector { expected, pages: Vec::new(), failed: 0 }
    }

    /// Every expected page has been recorded, or more.
    pub open spec fn spec_is_full(&self) -> bool {
        self.spec_pages().len() + self.spec_failed() >= self.spec_expected()
    }

    fn has_room(&self) -> (r: bool)
        ensures
            r == !self.spec_is_full(),
    {
        let recorded: u128 = self.pages.len() as u128 + self.failed as u128;
        recorded < self.expected as u128
    }

    /// Records a page that succeeded. A page beyond the expected number is
    /// handed back.
    pub fn record_page(&mut self, page: StructuredPage) -> (r: Result<(), StructuredPage>)
        ensures
            final(self).spec_expected() == old(self).spec_expected(),
            final(self).spec_failed() == old(self).spec_failed(),
            match r {
                Ok(_) => !old(self).spec_is_full() && final(self).spec_pages() == old(
                    self,
                ).spec_pages().push(page),
                Err(p) => old(self).spec_is_full() && p == page && final(self).spec_pages() == old(
                    self,
                ).spec_pages(),
            },
    {
        if self.has_room() {
            self.pages.push(page);
            Ok(())
        } else {
            Err(page)
        }
    }

    /// Records a page that failed; `false` where every expected page had
    /// been recorded already.
    pub fn record_failure(&mut self) -> (r: bool)
        ensures
            final(self).spec_expected() == old(self).spec_expected(),
            final(self).spec_pages() == old(self).spec_pages(),
            r == !old(self).spec_is_full(),
            final(self).spec_failed() == old(self).spec_failed() + if r {
                1int
            } else {
                0
            },
    {
        if self.has_room() {
            self.failed = self.failed + 1;
            true
        } else {
            false
        }
    }

    pub fn is_complete(&self) -> (r: bool)
        ensures
            r == self.spec_is_complete(),
    {
        let recorded: u128 = self.pages.len() as u128 + self.failed as u128;
        recorded == self.expected as u128
    }

    /// Number of pages still to come.
    pub fn outstanding(&self) -> (r: usize)
        ensures
            r == if self.spec_is_full() {
                0
            } else {
                self.spec_expected() - self.spec_pages().len() - self.spec_failed()
            },
    {
        if self.has_room() {
            self.expected - self.pages.len() - self.failed
        } else {
            0
        }
    }

    /// Ends the collection: the pages that succeeded, by ascending id. Once
    /// every page has been recorded there are as many of them as were
    /// expected, less those that failed. Where pages were expected and none
    /// succeeded, the document has failed.
    pub fn finish(self) -> (r: Result<Vec<StructuredPage>, FerrulesError>)
        ensures
            match r {
                Ok(pages) => {
                    &&& pages@ == spec_sort(self.spec_pages())
                    &&& pages.len() == self.spec_pages().len()
                    &&& self.spec_is_complete() ==> pages.len() == self.spec_expected()
                        - self.spec_failed()
                    &&& self.spec_expected() == 0 || pages.len() > 0
                },
                Err(e) => {
                    &&& e is LayoutParsingError
                    &&& self.spec_expected() > 0
                    &&& self.spec_pages().len() == 0
                },
            },
    {
        if self.expected > 0 && self.pages.len() == 0 {
            return Err(FerrulesError::LayoutParsingError);
        }
        Ok(order_pages(self.pages))
    }
}

} // verus!
