//! The values that flow between the stages: elements, pages, documents.

use crate::blocks::{Block, BlockView};
use crate::geometry::BBox;
use vstd::prelude::*;

verus! {

pub type PageID = usize;

/// What a region of a page is.
#[derive(Clone, Copy, Debug, PartialEq, Eq, Structural)]
pub enum ElementType {
    Title,
    Subtitle,
    Header,
    Footer,
    Text,
    ListItem,
    Caption,
    Image,
    Table,
}

impl ElementType {
    /// Regions of this kind carry running text.
    pub open spec fn spec_is_textual(&self) -> bool {
        !(*self is Image || *self is Table)
    }

    /// Regions of this kind are headings, whose sizes decide the title levels.
    pub open spec fn spec_is_heading(&self) -> bool {
        *self is Title || *self is Subtitle
    }

    pub fn is_textual(&self) -> (b: bool)
        ensures
            b == self.spec_is_textual(),
    {
        match self {
            ElementType::Image => false,
            ElementType::Table => false,
            _ => true,
        }
    }

    pub fn is_heading(&self) -> (b: bool)
        ensures
            b == self.spec_is_heading(),
    {
        match self {
            ElementType::Title => true,
            ElementType::Subtitle => true,
            _ => false,
        }
    }
}

/// The text of an element with the mean font size of its lines.
#[derive(Debug)]
pub struct ElementText {
    pub text: String,
    pub font_size: u32,
}

/// One fused region of one page.
#[derive(Debug)]
pub struct Element {
    pub id: usize,
    pub page_id: PageID,
    pub kind: ElementType,
    pub bbox: BBox,
    pub text_block: ElementText,
    pub layout_score: u32,
    pub needs_ocr: bool,
}

/// An element as a mathematical value.
pub struct ElementView {
    pub id: usize,
    pub page_id: PageID,
    pub kind: ElementType,
    pub bbox: BBox,
    pub text: Seq<char>,
    pub font_size: u32,
    pub layout_score: u32,
    pub needs_ocr: bool,
}

impl View for Element {
    type V = ElementView;

    open spec fn view(&self) -> ElementView {
        ElementView {
            id: self.id,
            page_id: self.page_id,
            kind: self.kind,
            bbox: self.bbox,
            text: self.text_block.text@,
            font_size: self.text_block.font_size,
            layout_score: self.layout_score,
            needs_ocr: self.needs_ocr,
        }
    }
}

impl DeepView for Element {
    type V = ElementView;

    open spec fn deep_view(&self) -> ElementView {
        self@
    }
}

impl Clone for Element {
    fn clone(&self) -> (r: Self)
        ensures
            r@ == self@,
    {
        Element {
            id: self.id,
            page_id: self.page_id,
            kind: self.kind,
            bbox: self.bbox,
            text_block: ElementText {
                text: self.text_block.text.clone(),
                font_size: self.text_block.font_size,
            },
            layout_score: self.layout_score,
            needs_ocr: self.needs_ocr,
        }
    }
}

/// The frame of a page in the finished document.
#[derive(Clone, Copy, Debug, PartialEq, Eq, Structural)]
pub struct Page {
    pub id: PageID,
    pub width: u32,
    pub height: u32,
    pub need_ocr: bool,
}

/// A page after fusion: its frame and its elements in reading order.
#[derive(Debug)]
pub struct StructuredPage {
    pub id: PageID,
    pub width: u32,
    pub height: u32,
    pub elements: Vec<Element>,
    pub need_ocr: bool,
}

pub struct StructuredPageView {
    pub id: PageID,
    pub width: u32,
    pub height: u32,
    pub elements: Seq<ElementView>,
    pub need_ocr: bool,
}

impl StructuredPageView {
    pub open spec fn frame(&self) -> Page {
        Page { id: self.id, width: self.width, height: self.height, need_ocr: self.need_ocr }
    }
}

impl View for StructuredPage {
    type V = StructuredPageView;

    open spec fn view(&self) -> StructuredPageView {
        StructuredPageView {
            id: self.id,
            width: self.width,
            height: self.height,
            elements: self.elements.deep_view(),
            need_ocr: self.need_ocr,
        }
    }
}

impl DeepView for StructuredPage {
    type V = StructuredPageView;

    open spec fn deep_view(&self) -> StructuredPageView {
        self@
    }
}

#[derive(Clone, Copy, Debug, PartialEq, Eq, Structural)]
pub struct DocumentMetadata {
    pub parsing_duration_ms: u64,
}

impl DocumentMetadata {
    pub fn new(parsing_duration_ms: u64) -> (r: DocumentMetadata)
        ensures
            r.parsing_duration_ms == parsing_duration_ms,
    {
        DocumentMetadata { parsing_duration_ms }
    }
}

/// The finished document: pages by ascending id, blocks in reading order.
#[derive(Debug)]
pub struct ParsedDocument {
    pub doc_name: String,
    pub pages: Vec<Page>,
    pub blocks: Vec<Block>,
    pub debug_path: Option<String>,
    pub metadata: DocumentMetadata,
}

pub struct ParsedDocumentView {
    pub doc_name: Seq<char>,
    pub pages: Seq<Page>,
    pub blocks: Seq<BlockView>,
    pub debug_path: Option<Seq<char>>,
    pub metadata: DocumentMetadata,
}

impl View for ParsedDocument {
    type V = ParsedDocumentView;

    open spec fn view(&self) -> ParsedDocumentView {
        ParsedDocumentView {
            doc_name: self.doc_name@,
            pages: self.pages@,
            blocks: self.blocks.deep_view(),
            debug_path: match self.debug_path {
                Some(p) => Some(p@),
                None => None,
            },
            metadata: self.metadata,
        }
    }
}

} // verus!
