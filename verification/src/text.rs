//! Glyphs, spans and lines.
//!
//! A page's glyphs arrive in the order of the text. Glyphs of one font and
//! size that follow one another on a baseline form a span; spans that share a
//! baseline and lie close to one another form a line.

use crate::geometry::{spec_min, BBox};
use vstd::prelude::*;
use vstd::string::*;

verus! {

/// A glyph may lie this share of its font size away from the span it joins.
pub const SPAN_GAP_NUM: u32 = 1;

pub const SPAN_GAP_DEN: u32 = 2;

/// A span's middle may lie this share of the line's height off the line's middle.
pub const LINE_SHIFT_NUM: u32 = 1;

pub const LINE_SHIFT_DEN: u32 = 2;

/// A span may lie this many line heights away from the line it joins.
pub const LINE_GAP_NUM: u32 = 3;

pub const LINE_GAP_DEN: u32 = 2;

/// `String::push` appends one character to the end of the string.
pub assume_specification[ String::push ](s: &mut String, ch: char)
    ensures
        final(s)@ == old(s)@.push(ch),
;

/// One glyph of a page, in page coordinates.
#[derive(Clone, Copy, Debug, PartialEq, Eq, Structural)]
pub struct TextChar {
    pub unicode: char,
    pub font_id: u32,
    pub font_size: u32,
    pub bbox: BBox,
    pub rotation: i32,
}

/// A run of glyphs of one font and size.
#[derive(Debug)]
pub struct CharSpan {
    pub bbox: BBox,
    pub text: String,
    pub font_id: u32,
    pub font_size: u32,
    pub rotation: i32,
}

pub struct CharSpanView {
    pub bbox: BBox,
    pub text: Seq<char>,
    pub font_id: u32,
    pub font_size: u32,
    pub rotation: i32,
}

impl View for CharSpan {
    type V = CharSpanView;

    open spec fn view(&self) -> CharSpanView {
        CharSpanView {
            bbox: self.bbox,
            text: self.text@,
            font_id: self.font_id,
            font_size: self.font_size,
            rotation: self.rotation,
        }
    }
}

impl DeepView for CharSpan {
    type V = CharSpanView;

    open spec fn deep_view(&self) -> CharSpanView {
        self@
    }
}

impl Clone for CharSpan {
    fn clone(&self) -> (r: Self)
        ensures
            r@ == self@,
    {
        CharSpan {
            bbox: self.bbox,
            text: self.text.clone(),
            font_id: self.font_id,
            font_size: self.font_size,
            rotation: self.rotation,
        }
    }
}

impl CharSpanView {
    /// The span of a single glyph.
    pub open spec fn of(c: TextChar) -> CharSpanView {
        CharSpanView {
            bbox: c.bbox,
            text: seq![c.unicode],
            font_id: c.font_id,
            font_size: c.font_size,
            rotation: c.rotation,
        }
    }

    /// The glyph continues the span: it has the span's font, size and
    /// rotation, lies no further from the span than half its font size, and
    /// shares at least half of the lower of the two heights with it.
    pub open spec fn takes(&self, c: TextChar) -> bool {
        &&& c.font_id == self.font_id
        &&& c.font_size == self.font_size
        &&& c.rotation == self.rotation
        &&& self.bbox.spec_gap_x(c.bbox) * SPAN_GAP_DEN <= SPAN_GAP_NUM * self.font_size
        &&& self.bbox.spec_overlap_y(c.bbox) * 2 >= spec_min(
            self.bbox.spec_height(),
            c.bbox.spec_height(),
        )
    }

    /// The span with the glyph at its end.
    pub open spec fn with(&self, c: TextChar) -> CharSpanView {
        CharSpanView {
            bbox: self.bbox.hull(c.bbox),
            text: self.text.push(c.unicode),
            font_id: self.font_id,
            font_size: self.font_size,
            rotation: self.rotation,
        }
    }
}

impl CharSpan {
    pub fn new_from_char(c: &TextChar) -> (r: CharSpan)
        ensures
            r@ == CharSpanView::of(*c),
    {
        let mut text: String = String::new();
        text.push(c.unicode);
        assert(text@ =~= seq![c.unicode]);
        CharSpan {
            bbox: c.bbox,
            text,
            font_id: c.font_id,
            font_size: c.font_size,
            rotation: c.rotation,
        }
    }

    /// Whether the glyph continues the span.
    pub fn takes(&self, c: &TextChar) -> (r: bool)
        ensures
            r == self@.takes(*c),
    {
        if c.font_id != self.font_id || c.font_size != self.font_size || c.rotation
            != self.rotation {
            return false;
        }
        let lo: u32 = if self.bbox.x1 <= c.bbox.x1 {
            self.bbox.x1
        } else {
            c.bbox.x1
        };
        let hi: u32 = if self.bbox.x0 >= c.bbox.x0 {
            self.bbox.x0
        } else {
            c.bbox.x0
        };
        let gap: u64 = if hi > lo {
            (hi - lo) as u64
        } else {
            0
        };
        let overlap: u64 = self.bbox.overlap_y(&c.bbox) as u64;
        let hs: u32 = self.bbox.height();
        let hc: u32 = c.bbox.height();
        let low: u64 = if hs <= hc {
            hs as u64
        } else {
            hc as u64
        };
        let den: u64 = SPAN_GAP_DEN as u64;
        let num: u64 = SPAN_GAP_NUM as u64;
        let size: u64 = self.font_size as u64;
        assert(gap * den <= 0xFFFF_FFFF * 0xFFFF_FFFF && num * size <= 0xFFFF_FFFF * 0xFFFF_FFFF)
            by (nonlinear_arith)
            requires
                0 <= gap <= 0xFFFF_FFFF,
                0 <= den <= 0xFFFF_FFFF,
                0 <= num <= 0xFFFF_FFFF,
                0 <= size <= 0xFFFF_FFFF,
        ;
        gap * den <= num * size && overlap * 2 >= low
    }

    /// Adds the glyph to the span where it continues it; otherwise the span
    /// stays as it is and the caller opens a new one.
    pub fn append(&mut self, c: &TextChar) -> (r: Option<()>)
        ensures
            r is Some == old(self)@.takes(*c),
            final(self)@ == if old(self)@.takes(*c) {
                old(self)@.with(*c)
            } else {
                old(self)@
            },
    {
        if self.takes(c) {
            self.bbox.merge(&c.bbox);
            self.text.push(c.unicode);
            Some(())
        } else {
            None
        }
    }
}

/// The spans that the first `n` glyphs form.
pub open spec fn spec_spans(chars: Seq<TextChar>, n: int) -> Seq<CharSpanView>
    decreases n,
{
    if n <= 0 {
        Seq::empty()
    } else {
        let before = spec_spans(chars, n - 1);
        let c = chars[n - 1];
        if before.len() > 0 && before.last().takes(c) {
            before.update(before.len() - 1, before.last().with(c))
        } else {
            before.push(CharSpanView::of(c))
        }
    }
}

/// The texts of the spans, one after the other.
pub open spec fn spec_spans_text(spans: Seq<CharSpanView>, n: int) -> Seq<char>
    decreases n,
{
    if n <= 0 {
        Seq::empty()
    } else {
        spec_spans_text(spans, n - 1) + spans[n - 1].text
    }
}

/// The characters of the first `n` glyphs.
pub open spec fn spec_chars_text(chars: Seq<TextChar>, n: int) -> Seq<char>
    decreases n,
{
    if n <= 0 {
        Seq::empty()
    } else {
        spec_chars_text(chars, n - 1).push(chars[n - 1].unicode)
    }
}

proof fn lemma_spans_text_update(spans: Seq<CharSpanView>, grown: CharSpanView, c: char)
    requires
        spans.len() > 0,
        grown.text == spans.last().text.push(c),
    ensures
        spec_spans_text(
            spans.update(spans.len() - 1, grown),
            spans.len() as int,
        ) == spec_spans_text(spans, spans.len() as int).push(c),
{
    let n = spans.len() as int;
    let after = spans.update(n - 1, grown);
    lemma_spans_text_prefix(spans, after, n - 1);
    assert(spec_spans_text(spans, n - 1) + spans[n - 1].text.push(c) =~= (spec_spans_text(
        spans,
        n - 1,
    ) + spans[n - 1].text).push(c));
}

proof fn lemma_spans_text_prefix(a: Seq<CharSpanView>, b: Seq<CharSpanView>, n: int)
    requires
        0 <= n <= a.len(),
        n <= b.len(),
        forall|k: int| 0 <= k < n ==> a[k] == b[k],
    ensures
        spec_spans_text(a, n) == spec_spans_text(b, n),
    decreases n,
{
    if n > 0 {
        lemma_spans_text_prefix(a, b, n - 1);
    }
}

/// Grouping loses no glyph and moves none: the texts of the spans, one after
/// the other, are the characters of the glyphs; and no span is empty.
pub proof fn lemma_spans_keep_text(chars: Seq<TextChar>, n: int)
    requires
        0 <= n <= chars.len(),
    ensures
        spec_spans_text(spec_spans(chars, n), spec_spans(chars, n).len() as int) == spec_chars_text(
            chars,
            n,
        ),
        spec_spans(chars, n).len() <= n,
        n > 0 ==> spec_spans(chars, n).len() > 0,
        forall|k: int|
            0 <= k < spec_spans(chars, n).len() ==> (#[trigger] spec_spans(chars, n)[k]).text.len()
                > 0,
    decreases n,
{
    if n > 0 {
        lemma_spans_keep_text(chars, n - 1);
        let before = spec_spans(chars, n - 1);
        let c = chars[n - 1];
        let after = spec_spans(chars, n);
        if before.len() > 0 && before.last().takes(c) {
            lemma_spans_text_update(before, before.last().with(c), c.unicode);
        } else {
            lemma_spans_text_prefix(before, after, before.len() as int);
            assert(spec_spans_text(before, before.len() as int) + seq![c.unicode]
                =~= spec_spans_text(before, before.len() as int).push(c.unicode));
        }
    }
}

/// Groups the glyphs of a page, in the order of the text, into spans.
pub fn parse_text_spans(chars: &Vec<TextChar>) -> (r: Vec<CharSpan>)
    ensures
        r.deep_view() == spec_spans(chars@, chars.len() as int),
{
    let mut spans: Vec<CharSpan> = Vec::new();
    let mut i: usize = 0;
    assert(spans.deep_view() =~= spec_spans(chars@, 0));
    while i < chars.len()
        invariant
            i <= chars.len(),
            spans.deep_view() == spec_spans(chars@, i as int),
        decreases chars.len() - i,
    {
        let ghost before = spans.deep_view();
        let c: TextChar = chars[i];
        match spans.pop() {
            None => {
                assert(before.len() == 0);
                let span: CharSpan = CharSpan::new_from_char(&c);
                spans.push(span);
                assert(spans.deep_view() =~= before.push(CharSpanView::of(c)));
            },
            Some(last) => {
                let mut last: CharSpan = last;
                assert(last@ == before.last());
                let ghost rest = spans.deep_view();
                assert(rest =~= before.drop_last());
                match last.append(&c) {
                    Some(_) => {
                        spans.push(last);
                        assert(spans.deep_view() =~= before.update(
                            before.len() - 1,
                            before.last().with(c),
                        ));
                    },
                    None => {
                        spans.push(last);
                        let span: CharSpan = CharSpan::new_from_char(&c);
                        spans.push(span);
                        assert(spans.deep_view() =~= before.push(CharSpanView::of(c)));
                    },
                }
            },
        }
        i = i + 1;
    }
    spans
}

/// Spans on one baseline.
#[derive(Debug)]
pub struct Line {
    pub text: String,
    pub bbox: BBox,
    pub rotation: i32,
    pub spans: Vec<CharSpan>,
}

pub struct LineView {
    pub text: Seq<char>,
    pub bbox: BBox,
    pub rotation: i32,
    pub spans: Seq<CharSpanView>,
}

impl View for Line {
    type V = LineView;

    open spec fn view(&self) -> LineView {
        LineView {
            text: self.text@,
            bbox: self.bbox,
            rotation: self.rotation,
            spans: self.spans.deep_view(),
        }
    }
}

impl DeepView for Line {
    type V = LineView;

    open spec fn deep_view(&self) -> LineView {
        self@
    }
}

/// Distance between two coordinates.
pub open spec fn spec_apart(a: int, b: int) -> int {
    if a >= b {
        a - b
    } else {
        b - a
    }
}

/// Sum of the font sizes of the first `n` spans.
pub open spec fn spec_font_sum(spans: Seq<CharSpanView>, n: int) -> int
    decreases n,
{
    if n <= 0 {
        0
    } else {
        spec_font_sum(spans, n - 1) + spans[n - 1].font_size
    }
}

impl LineView {
    /// The line of a single span.
    pub open spec fn of(span: CharSpanView) -> LineView {
        LineView { text: span.text, bbox: span.bbox, rotation: span.rotation, spans: seq![span] }
    }

    /// The span continues the line: its middle lies within half the line's
    /// height of the line's middle, and it lies no further from the line than
    /// one and a half times the line's height.
    pub open spec fn takes(&self, span: CharSpanView) -> bool {
        &&& spec_apart(span.bbox.spec_center_y(), self.bbox.spec_center_y()) * LINE_SHIFT_DEN
            <= LINE_SHIFT_NUM * self.bbox.spec_height()
        &&& self.bbox.spec_gap_x(span.bbox) * LINE_GAP_DEN <= LINE_GAP_NUM * self.bbox.spec_height()
    }

    /// The line with the span at its end.
    pub open spec fn with(&self, span: CharSpanView) -> LineView {
        LineView {
            text: self.text + span.text,
            bbox: self.bbox.hull(span.bbox),
            rotation: self.rotation,
            spans: self.spans.push(span),
        }
    }

    /// The mean font size of the line's spans, rounded down; zero without spans.
    pub open spec fn spec_font_size(&self) -> int {
        if self.spans.len() == 0 {
            0
        } else {
            spec_font_sum(self.spans, self.spans.len() as int) / (self.spans.len() as int)
        }
    }
}

proof fn lemma_font_sum_bound(spans: Seq<CharSpanView>, n: int)
    requires
        0 <= n <= spans.len(),
    ensures
        0 <= spec_font_sum(spans, n) <= n * 0xFFFF_FFFF,
    decreases n,
{
    if n > 0 {
        lemma_font_sum_bound(spans, n - 1);
        assert(n * 0xFFFF_FFFF == (n - 1) * 0xFFFF_FFFF + 0xFFFF_FFFF) by (nonlinear_arith);
    }
}

impl Line {
    pub fn new_from_span(span: CharSpan) -> (r: Line)
        ensures
            r@ == LineView::of(span@),
    {
        let text: String = span.text.clone();
        let bbox: BBox = span.bbox;
        let rotation: i32 = span.rotation;
        let mut spans: Vec<CharSpan> = Vec::new();
        spans.push(span);
        assert(spans.deep_view() =~= seq![span@]);
        Line { text, bbox, rotation, spans }
    }

    /// Whether the span continues the line.
    pub fn takes(&self, span: &CharSpan) -> (r: bool)
        ensures
            r == self@.takes(span@),
    {
        let cs: u64 = span.bbox.center_y() as u64;
        let cl: u64 = self.bbox.center_y() as u64;
        let shift: u64 = if cs >= cl {
            cs - cl
        } else {
            cl - cs
        };
        let height: u64 = self.bbox.height() as u64;
        let lo: u32 = if self.bbox.x1 <= span.bbox.x1 {
            self.bbox.x1
        } else {
            span.bbox.x1
        };
        let hi: u32 = if self.bbox.x0 >= span.bbox.x0 {
            self.bbox.x0
        } else {
            span.bbox.x0
        };
        let gap: u64 = if hi > lo {
            (hi - lo) as u64
        } else {
            0
        };
        let sd: u64 = LINE_SHIFT_DEN as u64;
        let sn: u64 = LINE_SHIFT_NUM as u64;
        let gd: u64 = LINE_GAP_DEN as u64;
        let gn: u64 = LINE_GAP_NUM as u64;
        assert(shift * sd <= 0xFFFF_FFFF * 0xFFFF_FFFF && sn * height <= 0xFFFF_FFFF * 0xFFFF_FFFF
            && gap * gd <= 0xFFFF_FFFF * 0xFFFF_FFFF && gn * height <= 0xFFFF_FFFF * 0xFFFF_FFFF)
            by (nonlinear_arith)
            requires
                0 <= shift <= 0xFFFF_FFFF,
                0 <= sd <= 0xFFFF_FFFF,
                0 <= sn <= 0xFFFF_FFFF,
                0 <= gd <= 0xFFFF_FFFF,
                0 <= gn <= 0xFFFF_FFFF,
                0 <= gap <= 0xFFFF_FFFF,
                0 <= height <= 0xFFFF_FFFF,
        ;
        shift * sd <= sn * height && gap * gd <= gn * height
    }

    /// Adds the span to the line where it continues it; otherwise the span
    /// comes back, the line stays as it is, and the caller opens a new line.
    pub fn append(&mut self, span: CharSpan) -> (r: Result<(), CharSpan>)
        ensures
            match r {
                Ok(_) => old(self)@.takes(span@) && final(self)@ == old(self)@.with(span@),
                Err(s) => !old(self)@.takes(span@) && s == span && final(self)@ == old(self)@,
            },
    {
        if self.takes(&span) {
            let ghost before = self.spans.deep_view();
            self.bbox.merge(&span.bbox);
            self.text.append(span.text.as_str());
            self.spans.push(span);
            assert(self.spans.deep_view() =~= before.push(span@));
            Ok(())
        } else {
            Err(span)
        }
    }

    /// The mean font size of the line's spans; zero without spans.
    pub fn font_size(&self) -> (r: u32)
        ensures
            r == self@.spec_font_size(),
    {
        let n: usize = self.spans.len();
        if n == 0 {
            return 0;
        }
        let mut sum: u128 = 0;
        let mut i: usize = 0;
        while i < n
            invariant
                i <= n,
                n == self.spans.len(),
                sum == spec_font_sum(self.spans.deep_view(), i as int),
            decreases n - i,
        {
            proof {
                lemma_font_sum_bound(self.spans.deep_view(), i as int);
                assert(i * 0xFFFF_FFFF <= 0xFFFF_FFFF_FFFF_FFFF * 0xFFFF_FFFF) by (nonlinear_arith)
                    requires
                        0 <= i <= 0xFFFF_FFFF_FFFF_FFFF,
                ;
                assert(self.spans.deep_view()[i as int] == self.spans[i as int]@);
            }
            sum = sum + self.spans[i].font_size as u128;
            i = i + 1;
        }
        proof {
            lemma_font_sum_bound(self.spans.deep_view(), n as int);
            let s = sum as int;
            let c = n as int;
            assert(0 <= s / c <= 0xFFFF_FFFF) by (nonlinear_arith)
                requires
                    0 <= s <= c * 0xFFFF_FFFF,
                    c > 0,
            ;
        }
        (sum / (n as u128)) as u32
    }
}

/// The lines that the first `n` spans form.
pub open spec fn spec_lines(spans: Seq<CharSpanView>, n: int) -> Seq<LineView>
    decreases n,
{
    if n <= 0 {
        Seq::empty()
    } else {
        let before = spec_lines(spans, n - 1);
        let s = spans[n - 1];
        if before.len() > 0 && before.last().takes(s) {
            before.update(before.len() - 1, before.last().with(s))
        } else {
            before.push(LineView::of(s))
        }
    }
}

/// The spans of the first `n` lines, one line after the other.
pub open spec fn spec_lines_spans(lines: Seq<LineView>, n: int) -> Seq<CharSpanView>
    decreases n,
{
    if n <= 0 {
        Seq::empty()
    } else {
        spec_lines_spans(lines, n - 1) + lines[n - 1].spans
    }
}

proof fn lemma_lines_spans_prefix(a: Seq<LineView>, b: Seq<LineView>, n: int)
    requires
        0 <= n <= a.len(),
        n <= b.len(),
        forall|k: int| 0 <= k < n ==> a[k] == b[k],
    ensures
        spec_lines_spans(a, n) == spec_lines_spans(b, n),
    decreases n,
{
    if n > 0 {
        lemma_lines_spans_prefix(a, b, n - 1);
    }
}

/// Grouping loses no span and moves none: the spans of the lines, one line
/// after the other, are the spans that came in; and no line is empty.
pub proof fn lemma_lines_keep_spans(spans: Seq<CharSpanView>, n: int)
    requires
        0 <= n <= spans.len(),
    ensures
        spec_lines_spans(spec_lines(spans, n), spec_lines(spans, n).len() as int)
            == spans.subrange(0, n),
        spec_lines(spans, n).len() <= n,
        forall|k: int|
            0 <= k < spec_lines(spans, n).len() ==> (#[trigger] spec_lines(spans, n)[k]).spans.len()
                > 0,
    decreases n,
{
    if n > 0 {
        lemma_lines_keep_spans(spans, n - 1);
        let before = spec_lines(spans, n - 1);
        let s = spans[n - 1];
        let after = spec_lines(spans, n);
        let m = before.len() as int;
        if m > 0 && before.last().takes(s) {
            lemma_lines_spans_prefix(before, after, m - 1);
            assert(spec_lines_spans(after, m) =~= spec_lines_spans(before, m).push(s));
        } else {
            lemma_lines_spans_prefix(before, after, m);
            assert(spec_lines_spans(after, m + 1) =~= spec_lines_spans(before, m).push(s));
        }
        assert(spans.subrange(0, n - 1).push(s) =~= spans.subrange(0, n));
    } else {
        assert(spans.subrange(0, 0) =~= Seq::<CharSpanView>::empty());
    }
}

/// Groups the spans of a page, in the order of the text, into lines.
pub fn parse_text_lines(spans: Vec<CharSpan>) -> (r: Vec<Line>)
    ensures
        r.deep_view() == spec_lines(spans.deep_view(), spans.len() as int),
{
    let mut lines: Vec<Line> = Vec::new();
    let mut i: usize = 0;
    let ghost all = spans.deep_view();
    assert(lines.deep_view() =~= spec_lines(all, 0));
    while i < spans.len()
        invariant
            i <= spans.len(),
            all == spans.deep_view(),
            lines.deep_view() == spec_lines(all, i as int),
        decreases spans.len() - i,
    {
        let ghost before = lines.deep_view();
        let span: CharSpan = spans[i].clone();
        assert(span@ == all[i as int]);
        match lines.pop() {
            None => {
                lines.push(Line::new_from_span(span));
                assert(lines.deep_view() =~= before.push(LineView::of(all[i as int])));
            },
            Some(last) => {
                let mut last: Line = last;
                assert(last@ == before.last());
                assert(lines.deep_view() =~= before.drop_last());
                match last.append(span) {
                    Ok(_) => {
                        lines.push(last);
                        assert(lines.deep_view() =~= before.update(
                            before.len() - 1,
                            before.last().with(all[i as int]),
                        ));
                    },
                    Err(span) => {
                        lines.push(last);
                        lines.push(Line::new_from_span(span));
                        assert(lines.deep_view() =~= before.push(LineView::of(all[i as int])));
                    },
                }
            },
        }
        i = i + 1;
    }
    lines
}

} // verus!
