//! Page ranges: reading them from text, holding them against a document, and
//! cutting them into chunks.
//!
//! Users count pages from one and name the last page of a range; the library
//! counts from zero and holds half-open ranges, the start included and the end
//! not.

use crate::strings::{decimal, spec_decimal, spec_trim, trim};
use std::ops::Range;
use vstd::prelude::*;
use vstd::string::*;

verus! {

/// Why a page range is refused.
#[derive(Clone, Copy, Debug, PartialEq, Eq, Structural)]
pub enum PageRangeError {
    /// A number was expected and nothing was found.
    EmptyNumber,
    /// A number holds a character that is no decimal digit.
    InvalidDigit,
    /// A number does not fit the machine's word.
    NumberTooLarge,
    /// The range starts at page zero, or ends before it starts.
    InvalidRange,
    /// The page number is zero.
    ZeroPage,
    /// The range ends after the document's last page.
    EndExceedsLength { end: usize, length: usize },
}

impl PageRangeError {
    pub open spec fn spec_message(&self) -> Seq<char> {
        match *self {
            PageRangeError::EmptyNumber => "cannot parse integer from empty string"@,
            PageRangeError::InvalidDigit => "invalid digit found in string"@,
            PageRangeError::NumberTooLarge => "number too large to fit in target type"@,
            PageRangeError::InvalidRange => "Invalid page range: start must be > 0 and end must be >= start"@,
            PageRangeError::ZeroPage => "Page number must be greater than 0"@,
            PageRangeError::EndExceedsLength { end, length } => "Page range end ("@ + spec_decimal(
                end as nat,
            ) + ") exceeds document length ("@ + spec_decimal(length as nat) + ")"@,
        }
    }

    /// The error in words.
    pub fn message(&self) -> (r: String)
        ensures
            r@ == self.spec_message(),
    {
        match self {
            PageRangeError::EmptyNumber => String::from_str("cannot parse integer from empty string"),
            PageRangeError::InvalidDigit => String::from_str("invalid digit found in string"),
            PageRangeError::NumberTooLarge => String::from_str(
                "number too large to fit in target type",
            ),
            PageRangeError::InvalidRange => String::from_str(
                "Invalid page range: start must be > 0 and end must be >= start",
            ),
            PageRangeError::ZeroPage => String::from_str("Page number must be greater than 0"),
            PageRangeError::EndExceedsLength { end, length } => {
                let mut r: String = String::from_str("Page range end (");
                r.append(decimal(*end).as_str());
                r.append(") exceeds document length (");
                r.append(decimal(*length).as_str());
                r.append(")");
                r
            },
        }
    }
}

/// The value of a decimal digit.
pub open spec fn spec_digit_value(c: char) -> Option<nat> {
    if '0' <= c <= '9' {
        Some((c as u32 - '0' as u32) as nat)
    } else {
        None
    }
}

/// The number that the first `n` characters spell, read from the left; the
/// first character that is no digit, or the first digit with which the number
/// outgrows the machine's word, decides the error.
pub open spec fn spec_scan_digits(s: Seq<char>, n: int) -> Result<nat, PageRangeError>
    decreases n,
{
    if n <= 0 {
        Ok(0)
    } else {
        match spec_scan_digits(s, n - 1) {
            Err(e) => Err(e),
            Ok(v) => match spec_digit_value(s[n - 1]) {
                None => Err(PageRangeError::InvalidDigit),
                Some(d) => if v * 10 + d > usize::MAX {
                    Err(PageRangeError::NumberTooLarge)
                } else {
                    Ok(v * 10 + d)
                },
            },
        }
    }
}

/// The number that a text spells: decimal digits, with or without a plus sign
/// before them.
pub open spec fn spec_parse_number(s: Seq<char>) -> Result<nat, PageRangeError> {
    if s.len() == 0 {
        Err(PageRangeError::EmptyNumber)
    } else {
        let digits = if s[0] == '+' {
            s.drop_first()
        } else {
            s
        };
        if digits.len() == 0 {
            Err(PageRangeError::InvalidDigit)
        } else {
            spec_scan_digits(digits, digits.len() as int)
        }
    }
}

/// Position of the first `c` in `s`; the length of `s` where there is none.
pub open spec fn spec_first(s: Seq<char>, c: char) -> int
    decreases s.len(),
{
    if s.len() == 0 || s[0] == c {
        0
    } else {
        1 + spec_first(s.drop_first(), c)
    }
}

/// The range that a text names: `a-b` for the pages `a` to `b`, or `a` for the
/// one page `a`, pages counted from one, with white space around the numbers
/// allowed.
pub open spec fn spec_parse_page_range(s: Seq<char>) -> Result<(nat, nat), PageRangeError> {
    let dash = spec_first(s, '-');
    if dash < s.len() {
        match spec_parse_number(spec_trim(s.subrange(0, dash))) {
            Err(e) => Err(e),
            Ok(start) => match spec_parse_number(spec_trim(s.subrange(dash + 1, s.len() as int))) {
                Err(e) => Err(e),
                Ok(end) => if start > 0 && end >= start {
                    Ok(((start - 1) as nat, end))
                } else {
                    Err(PageRangeError::InvalidRange)
                },
            },
        }
    } else {
        match spec_parse_number(spec_trim(s)) {
            Err(e) => Err(e),
            Ok(page) => if page > 0 {
                Ok(((page - 1) as nat, page))
            } else {
                Err(PageRangeError::ZeroPage)
            },
        }
    }
}

/// A position with no `c` before it and a `c` at it is the first.
pub proof fn lemma_first_is(s: Seq<char>, c: char, pos: int)
    requires
        0 <= pos <= s.len(),
        forall|k: int| 0 <= k < pos ==> s[k] != c,
        pos < s.len() ==> s[pos] == c,
    ensures
        spec_first(s, c) == pos,
    decreases s.len(),
{
    if pos > 0 {
        let t = s.drop_first();
        assert forall|k: int| 0 <= k < pos - 1 implies t[k] != c by {
            assert(t[k] == s[k + 1]);
        }
        if pos - 1 < t.len() {
            assert(t[pos - 1] == s[pos]);
        }
        lemma_first_is(t, c, pos - 1);
    }
}

pub fn first_index(s: &str, c: char) -> (pos: usize)
    ensures
        pos == spec_first(s@, c),
        pos <= s@.len(),
{
    let n: usize = s.unicode_len();
    let mut i: usize = 0;
    while i < n
        invariant_except_break
            i <= n,
            n == s@.len(),
            forall|k: int| 0 <= k < i ==> s@[k] != c,
        ensures
            i <= n,
            n == s@.len(),
            forall|k: int| 0 <= k < i ==> s@[k] != c,
            i < n ==> s@[i as int] == c,
        decreases n - i,
    {
        if s.get_char(i) == c {
            break ;
        }
        i = i + 1;
    }
    proof {
        lemma_first_is(s@, c, i as int);
    }
    i
}

fn digit_value(c: char) -> (r: Option<usize>)
    ensures
        match r {
            Some(d) => spec_digit_value(c) == Some(d as nat) && d <= 9,
            None => spec_digit_value(c) is None,
        },
{
    if '0' <= c && c <= '9' {
        Some((c as u32 - '0' as u32) as usize)
    } else {
        None
    }
}

/// Reads a number as `usize` is read from text: decimal digits, with or
/// without a plus sign before them.
pub fn parse_number(s: &str) -> (r: Result<usize, PageRangeError>)
    ensures
        match r {
            Ok(v) => spec_parse_number(s@) == Ok::<nat, PageRangeError>(v as nat),
            Err(e) => spec_parse_number(s@) == Err::<nat, PageRangeError>(e),
        },
{
    let n: usize = s.unicode_len();
    if n == 0 {
        return Err(PageRangeError::EmptyNumber);
    }
    let from: usize = if s.get_char(0) == '+' {
        1
    } else {
        0
    };
    if from == n {
        return Err(PageRangeError::InvalidDigit);
    }
    let ghost digits = s@.subrange(from as int, n as int);
    proof {
        if from == 1 {
            assert(digits =~= s@.drop_first());
        } else {
            assert(digits =~= s@);
        }
    }
    let mut value: usize = 0;
    let mut i: usize = from;
    while i < n
        invariant
            from <= i <= n,
            n == s@.len(),
            digits == s@.subrange(from as int, n as int),
            spec_parse_number(s@) == spec_scan_digits(digits, digits.len() as int),
            spec_scan_digits(digits, i - from) == Ok::<nat, PageRangeError>(value as nat),
        decreases n - i,
    {
        let c: char = s.get_char(i);
        assert(digits[i - from] == c);
        match digit_value(c) {
            None => {
                proof {
                    assert(spec_scan_digits(digits, i - from + 1) == Err::<nat, PageRangeError>(
                        PageRangeError::InvalidDigit,
                    ));
                    lemma_scan_error_stays(digits, i - from + 1, digits.len() as int);
                }
                return Err(PageRangeError::InvalidDigit);
            },
            Some(d) => {
                if value > (usize::MAX - d) / 10 {
                    proof {
                        assert(spec_scan_digits(digits, i - from + 1) == Err::<nat, PageRangeError>(
                            PageRangeError::NumberTooLarge,
                        ));
                        lemma_scan_error_stays(digits, i - from + 1, digits.len() as int);
                    }
                    return Err(PageRangeError::NumberTooLarge);
                }
                value = value * 10 + d;
            },
        }
        i = i + 1;
    }
    Ok(value)
}

/// Once reading has failed, more characters do not mend it.
proof fn lemma_scan_error_stays(s: Seq<char>, n: int, m: int)
    requires
        0 <= n <= m,
        spec_scan_digits(s, n) is Err,
    ensures
        spec_scan_digits(s, m) == spec_scan_digits(s, n),
    decreases m - n,
{
    if n < m {
        lemma_scan_error_stays(s, n, m - 1);
    }
}

/// Reads a page range as users write it: `3-7` for the third to the seventh
/// page, `3` for the third alone. The range that comes back counts from zero
/// and leaves its end out.
pub fn parse_page_range(range_str: &str) -> (r: Result<Range<usize>, PageRangeError>)
    ensures
        match r {
            Ok(range) => spec_parse_page_range(range_str@) == Ok::<(nat, nat), PageRangeError>(
                (range.start as nat, range.end as nat),
            ),
            Err(e) => spec_parse_page_range(range_str@) == Err::<(nat, nat), PageRangeError>(e),
        },
{
    let n: usize = range_str.unicode_len();
    let dash: usize = first_index(range_str, '-');
    if dash < n {
        let head: String = trim(range_str.substring_char(0, dash));
        let tail: String = trim(range_str.substring_char(dash + 1, n));
        let start: usize = match parse_number(head.as_str()) {
            Ok(v) => v,
            Err(e) => {
                return Err(e);
            },
        };
        let end: usize = match parse_number(tail.as_str()) {
            Ok(v) => v,
            Err(e) => {
                return Err(e);
            },
        };
        if start > 0 && end >= start {
            Ok(Range { start: start - 1, end })
        } else {
            Err(PageRangeError::InvalidRange)
        }
    } else {
        let whole: String = trim(range_str);
        let page: usize = match parse_number(whole.as_str()) {
            Ok(v) => v,
            Err(e) => {
                return Err(e);
            },
        };
        if page > 0 {
            Ok(Range { start: page - 1, end: page })
        } else {
            Err(PageRangeError::ZeroPage)
        }
    }
}

/// Number of pages in a range; none where it ends before it starts.
pub open spec fn spec_range_len(range: Range<usize>) -> int {
    if range.start < range.end {
        range.end - range.start
    } else {
        0
    }
}

/// Number of pages that will be parsed: those of the range, or all of the
/// document where no range is given. A range that ends after the last page is
/// refused.
pub fn doc_length(n_pages: usize, page_range: Option<Range<usize>>) -> (r: Result<
    usize,
    PageRangeError,
>)
    ensures
        r == (match page_range {
            Some(range) => if range.end > n_pages {
                Err(PageRangeError::EndExceedsLength { end: range.end, length: n_pages })
            } else {
                Ok(spec_range_len(range) as usize)
            },
            None => Ok(n_pages),
        }),
{
    match page_range {
        Some(range) => {
            if range.end > n_pages {
                Err(PageRangeError::EndExceedsLength { end: range.end, length: n_pages })
            } else if range.start < range.end {
                Ok(range.end - range.start)
            } else {
                Ok(0)
            }
        },
        None => Ok(n_pages),
    }
}

/// The range that is cut: the one given, or all pages of the document.
pub open spec fn spec_whole(n_pages: usize, page_range: Option<Range<usize>>) -> Range<usize> {
    match page_range {
        Some(range) => range,
        None => Range { start: 0, end: n_pages },
    }
}

/// The page before which cut `i` of `n_workers` falls, where `len` pages from
/// `start` on are cut into parts of as equal a size as can be.
pub open spec fn spec_cut(start: int, len: int, n_workers: int, i: int) -> int {
    start + (i * len) / n_workers
}

/// Chunk `i`: the pages from cut `i` up to cut `i + 1`.
pub open spec fn spec_chunk(start: int, len: int, n_workers: int, i: int) -> Range<usize> {
    Range {
        start: spec_cut(start, len, n_workers, i) as usize,
        end: spec_cut(start, len, n_workers, i + 1) as usize,
    }
}

/// The chunks that a range of pages is cut into for `n_workers` workers.
///
/// Where the range has more pages than there are workers, there is one chunk
/// for each worker; otherwise the range is its own single chunk.
pub open spec fn spec_chunks(
    n_pages: usize,
    n_workers: usize,
    page_range: Option<Range<usize>>,
) -> Seq<Range<usize>> {
    let whole = spec_whole(n_pages, page_range);
    let len = spec_range_len(whole);
    if len > n_workers {
        Seq::new(
            n_workers as nat,
            |i: int| spec_chunk(whole.start as int, len, n_workers as int, i),
        )
    } else {
        seq![whole]
    }
}

/// The cuts begin at the start of the range, end at its end, and never go
/// back; where there are more pages than workers they go forward.
pub proof fn lemma_cuts(start: int, len: int, n_workers: int, i: int)
    requires
        0 <= start,
        0 <= len,
        0 < n_workers,
        0 <= i < n_workers,
    ensures
        spec_cut(start, len, n_workers, 0) == start,
        spec_cut(start, len, n_workers, n_workers) == start + len,
        start <= spec_cut(start, len, n_workers, i) <= spec_cut(start, len, n_workers, i + 1)
            <= start + len,
        len >= n_workers ==> spec_cut(start, len, n_workers, i) < spec_cut(
            start,
            len,
            n_workers,
            i + 1,
        ),
{
    let a = (i * len) / n_workers;
    let b = ((i + 1) * len) / n_workers;
    assert((0 * len) / n_workers == 0) by (nonlinear_arith)
        requires
            n_workers > 0,
    ;
    assert((n_workers * len) / n_workers == len) by (nonlinear_arith)
        requires
            n_workers > 0,
    ;
    assert(0 <= a <= b <= len) by (nonlinear_arith)
        requires
            a == (i * len) / n_workers,
            b == ((i + 1) * len) / n_workers,
            0 <= i < n_workers,
            0 <= len,
    ;
    if len >= n_workers {
        assert(a < b) by (nonlinear_arith)
            requires
                a == (i * len) / n_workers,
                b == ((i + 1) * len) / n_workers,
                0 <= i < n_workers,
                len >= n_workers,
        ;
    }
}

/// Cuts the pages of a document, or of a range of them, into chunks for
/// `n_workers` workers. The chunks are half-open ranges that follow one
/// another from the start of the range to its end: every page of the range
/// lies in exactly one of them, and no other page in any.
pub fn chunk_docs_range(n_pages: usize, n_workers: usize, page_range: Option<Range<usize>>) -> (r:
    Vec<Range<usize>>)
    requires
        n_workers > 0 || spec_range_len(spec_whole(n_pages, page_range)) == 0,
    ensures
        r@ == spec_chunks(n_pages, n_workers, page_range),
        r@.len() >= 1,
        r@[0].start == spec_whole(n_pages, page_range).start,
        r@.last().end == spec_whole(n_pages, page_range).end,
        forall|i: int| 0 <= i < r@.len() - 1 ==> (#[trigger] r@[i]).end == r@[i + 1].start,
        r@.len() > 1 ==> forall|i: int| 0 <= i < r@.len() ==> (#[trigger] r@[i]).start < r@[i].end,
{
    let whole: Range<usize> = match page_range {
        Some(range) => range,
        None => Range { start: 0, end: n_pages },
    };
    let start: usize = whole.start;
    let len: usize = if whole.start < whole.end {
        whole.end - whole.start
    } else {
        0
    };
    let mut chunks: Vec<Range<usize>> = Vec::new();
    if len > n_workers {
        let pages: u128 = len as u128;
        let workers: u128 = n_workers as u128;
        let mut from: usize = start;
        let mut i: usize = 0;
        while i < n_workers
            invariant
                i <= n_workers,
                0 < n_workers < len,
                pages == len,
                workers == n_workers,
                start + len <= usize::MAX,
                chunks.len() == i,
                from == spec_cut(start as int, len as int, n_workers as int, i as int),
                forall|k: int|
                    0 <= k < i ==> chunks[k] == spec_chunk(
                        start as int,
                        len as int,
                        n_workers as int,
                        k,
                    ),
            decreases n_workers - i,
        {
            proof {
                lemma_cuts(start as int, len as int, n_workers as int, i as int);
                let next = (i + 1) as int;
                let l = len as int;
                let w = n_workers as int;
                assert(0 <= next * l <= w * l) by (nonlinear_arith)
                    requires
                        0 <= next <= w,
                        0 <= l,
                ;
                assert(w * l <= 0xFFFF_FFFF_FFFF_FFFF * 0xFFFF_FFFF_FFFF_FFFF) by (nonlinear_arith)
                    requires
                        0 <= w <= 0xFFFF_FFFF_FFFF_FFFF,
                        0 <= l <= 0xFFFF_FFFF_FFFF_FFFF,
                ;
            }
            let cut: u128 = ((i as u128 + 1) * pages) / workers;
            let to: usize = start + cut as usize;
            chunks.push(Range { start: from, end: to });
            from = to;
            i = i + 1;
        }
        proof {
            assert(chunks@ =~= spec_chunks(n_pages, n_workers, page_range));
            lemma_cuts(start as int, len as int, n_workers as int, 0);
            assert forall|k: int| 0 <= k < chunks@.len() implies (#[trigger] chunks@[k]).start
                < chunks@[k].end by {
                lemma_cuts(start as int, len as int, n_workers as int, k);
            }
        }
    } else {
        chunks.push(whole);
        assert(chunks@ =~= spec_chunks(n_pages, n_workers, page_range));
    }
    chunks
}

} // verus!
