//! Lines of text that optical character recognition has read off a region.

use crate::geometry::BBox;
use crate::text::{CharSpan, CharSpanView, Line, LineView};
use vstd::prelude::*;

verus! {

/// One recognised line: its text, how sure the reader is of it in parts of
/// ten thousand, and where it lies, in page units.
#[derive(Debug)]
pub struct OCRLines {
    pub text: String,
    pub confidence: u32,
    pub bbox: BBox,
}

pub struct OCRLinesView {
    pub text: Seq<char>,
    pub confidence: u32,
    pub bbox: BBox,
}

impl View for OCRLines {
    type V = OCRLinesView;

    open spec fn view(&self) -> OCRLinesView {
        OCRLinesView { text: self.text@, confidence: self.confidence, bbox: self.bbox }
    }
}

impl DeepView for OCRLines {
    type V = OCRLinesView;

    open spec fn deep_view(&self) -> OCRLinesView {
        self@
    }
}

/// The font that recognised text is taken to be set in.
pub const OCR_FONT_ID: u32 = 0;

impl OCRLinesView {
    /// The recognised line as a line of text: upright, made of a single span
    /// whose font size is the height of the line.
    pub open spec fn spec_to_line(&self) -> LineView {
        LineView {
            text: self.text,
            bbox: self.bbox,
            rotation: 0,
            spans: seq![
                CharSpanView {
                    bbox: self.bbox,
                    text: self.text,
                    font_id: OCR_FONT_ID,
                    font_size: self.bbox.spec_height() as u32,
                    rotation: 0,
                },
            ],
        }
    }
}

impl OCRLines {
    pub fn to_line(&self) -> (line: Line)
        ensures
            line@ == self@.spec_to_line(),
    {
        let span = CharSpan {
            bbox: self.bbox,
            text: self.text.clone(),
            font_id: OCR_FONT_ID,
            font_size: self.bbox.height(),
            rotation: 0,
        };
        let mut spans: Vec<CharSpan> = Vec::new();
        spans.push(span);
        assert(spans.deep_view() =~= seq![span@]);
        Line { text: self.text.clone(), bbox: self.bbox, rotation: 0, spans }
    }
}

} // verus!
