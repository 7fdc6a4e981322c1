//! What the native parser of a page decides: which pages are parsed, at what
//! scale a page is rendered for the layout model, and how its glyphs become
//! lines.

use crate::error::FerrulesError;
use crate::geometry::{BBox, Ratio};
use crate::text::{
    parse_text_lines, parse_text_spans, spec_lines, spec_spans, CharSpan, Line, TextChar,
};
use std::ops::Range;
use vstd::prelude::*;

verus! {

/// Number of requests that may wait for the native parser.
pub const MAX_CONCURRENT_NATIVE_REQS: usize = 10;

/// Number of parsed pages that may wait for fusion.
pub const NATIVE_RESULTS_CAPACITY: usize = 32;

#[derive(Clone, Copy, Debug, PartialEq, Eq, Structural)]
pub struct ParseNativeMetadata {
    pub parse_native_duration_ms: u128,
}

/// A page as the native parser leaves it: its lines of text, its frame, and
/// the factor that maps the pixels of the rendering for the layout model back
/// to page units.
#[derive(Debug)]
pub struct ParseNativePageResult {
    pub page_id: usize,
    pub text_lines: Vec<Line>,
    pub page_bbox: BBox,
    pub downscale_factor: Ratio,
    pub metadata: ParseNativeMetadata,
}

/// The pages that are parsed: those of the range, or all of them.
pub open spec fn spec_select_pages(n_pages: usize, page_range: Option<Range<usize>>) -> Result<
    Range<usize>,
    FerrulesError,
> {
    match page_range {
        Some(range) => if range.end > n_pages {
            Err(FerrulesError::ParseNativeError)
        } else {
            Ok(range)
        },
        None => Ok(Range { start: 0, end: n_pages }),
    }
}

/// Selects the pages of a document of `n_pages` pages that are parsed. A
/// range that ends after the last page fails the request, whether or not it
/// starts before its end. A range within the document has to start no later
/// than it ends.
pub fn select_pages(n_pages: usize, page_range: Option<Range<usize>>) -> (r: Result<
    Range<usize>,
    FerrulesError,
>)
    requires
        page_range is Some && page_range.unwrap().end <= n_pages ==> page_range.unwrap().start
            <= page_range.unwrap().end,
    ensures
        match r {
            Ok(pages) => spec_select_pages(n_pages, page_range) == Ok::<Range<usize>, FerrulesError>(
                pages,
            ) && pages.start <= pages.end <= n_pages,
            Err(e) => e is ParseNativeError && spec_select_pages(n_pages, page_range) is Err,
        },
{
    match page_range {
        Some(range) => {
            if range.end > n_pages {
                Err(FerrulesError::ParseNativeError)
            } else {
                Ok(range)
            }
        },
        None => Ok(Range { start: 0, end: n_pages }),
    }
}

/// The larger factor of the two is the one that makes the page overflow the
/// raster; the smaller lets the whole page fit.
pub open spec fn spec_raster_scale(
    raster_width: u32,
    raster_height: u32,
    page_width: u32,
    page_height: u32,
) -> Option<Ratio> {
    if page_width == 0 || page_height == 0 {
        None
    } else if raster_width * page_height <= raster_height * page_width {
        Some(Ratio { num: raster_width, den: page_width })
    } else {
        Some(Ratio { num: raster_height, den: page_height })
    }
}

/// The factor by which a page is scaled for the layout model: the smaller of
/// raster width over page width and raster height over page height, so that
/// the scaled page fits the raster. A page without width or height has none.
/// The factor that maps the rendering back to the page is its inverse.
pub fn raster_scale(raster_width: u32, raster_height: u32, page_width: u32, page_height: u32) -> (r:
    Option<Ratio>)
    ensures
        r == spec_raster_scale(raster_width, raster_height, page_width, page_height),
        r is Some ==> {
            let f = r.unwrap();
            &&& f.valid()
            &&& f.spec_apply(page_width as int) <= raster_width
            &&& f.spec_apply(page_height as int) <= raster_height
        },
{
    if page_width == 0 || page_height == 0 {
        return None;
    }
    let rw: u64 = raster_width as u64;
    let rh: u64 = raster_height as u64;
    let pw: u64 = page_width as u64;
    let ph: u64 = page_height as u64;
    assert(rw * ph <= 0xFFFF_FFFF * 0xFFFF_FFFF && rh * pw <= 0xFFFF_FFFF * 0xFFFF_FFFF)
        by (nonlinear_arith)
        requires
            0 <= rw <= 0xFFFF_FFFF,
            0 <= rh <= 0xFFFF_FFFF,
            0 <= pw <= 0xFFFF_FFFF,
            0 <= ph <= 0xFFFF_FFFF,
    ;
    if rw * ph <= rh * pw {
        proof {
            let a = raster_width as int;
            let b = raster_height as int;
            let w = page_width as int;
            let h = page_height as int;
            assert((w * a) / w == a) by (nonlinear_arith)
                requires
                    w > 0,
            ;
            assert((h * a) / w <= b) by (nonlinear_arith)
                requires
                    w > 0,
                    a * h <= b * w,
                    h >= 0,
                    a >= 0,
            ;
        }
        Some(Ratio { num: raster_width, den: page_width })
    } else {
        proof {
            let a = raster_width as int;
            let b = raster_height as int;
            let w = page_width as int;
            let h = page_height as int;
            assert((h * b) / h == b) by (nonlinear_arith)
                requires
                    h > 0,
            ;
            assert((w * b) / h <= a) by (nonlinear_arith)
                requires
                    h > 0,
                    b * w < a * h,
                    w >= 0,
                    b >= 0,
            ;
        }
        Some(Ratio { num: raster_height, den: page_height })
    }
}

/// The record of a page of this width and height whose glyphs are `chars`:
/// its frame begins at the origin, its lines are the glyphs grouped, and its
/// factor is the inverse of the scale at which the page is rendered for a
/// raster of this size. A page without width or height has no record.
pub fn native_page_result(
    page_id: usize,
    page_width: u32,
    page_height: u32,
    raster_width: u32,
    raster_height: u32,
    chars: &Vec<TextChar>,
    parse_native_duration_ms: u128,
) -> (r: Option<ParseNativePageResult>)
    ensures
        match r {
            None => spec_raster_scale(raster_width, raster_height, page_width, page_height) is None,
            Some(p) => {
                &&& spec_raster_scale(raster_width, raster_height, page_width, page_height)
                    == Some(p.downscale_factor.spec_inverse())
                &&& p.downscale_factor.num > 0
                &&& p.page_id == page_id
                &&& p.page_bbox == (BBox { x0: 0, y0: 0, x1: page_width, y1: page_height })
                &&& p.text_lines.deep_view() == spec_lines(
                    spec_spans(chars@, chars.len() as int),
                    spec_spans(chars@, chars.len() as int).len() as int,
                )
                &&& p.metadata.parse_native_duration_ms == parse_native_duration_ms
            },
        },
{
    match raster_scale(raster_width, raster_height, page_width, page_height) {
        None => None,
        Some(scale) => Some(
            ParseNativePageResult {
                page_id,
                text_lines: parse_page_text(chars),
                page_bbox: BBox { x0: 0, y0: 0, x1: page_width, y1: page_height },
                downscale_factor: scale.inverse(),
                metadata: ParseNativeMetadata { parse_native_duration_ms },
            },
        ),
    }
}

/// The lines of a page out of its glyphs: the glyphs are grouped into spans,
/// and the spans into lines.
pub fn parse_page_text(chars: &Vec<TextChar>) -> (lines: Vec<Line>)
    ensures
        lines.deep_view() == spec_lines(
            spec_spans(chars@, chars.len() as int),
            spec_spans(chars@, chars.len() as int).len() as int,
        ),
{
    let spans: Vec<CharSpan> = parse_text_spans(chars);
    parse_text_lines(spans)
}

} // verus!
