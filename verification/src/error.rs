//! The ways in which parsing a document fails.

use crate::blocks::{BlockType, BlockTypeView};
use crate::entities::{Element, ElementView, PageID};
use crate::strings::{decimal, spec_decimal};
use vstd::prelude::*;
use vstd::string::*;

verus! {

#[derive(Debug)]
pub enum FerrulesError {
    /// The document could not be opened, decrypted or walked.
    ParseNativeError,
    /// Layout detection or its post-processing failed.
    LayoutParsingError,
    /// Spans and lines of a page could not be put together.
    LineMergeError,
    /// An element could not join the block that was being built.
    BlockMergeError { block_id: usize, kind: BlockType, element: Element },
    /// A debug artefact of a page could not be written.
    DebugPageError { tmp_dir: String, page_idx: PageID },
    /// The text of a page could not be used.
    ParseTextError { tmp_dir: String, page_idx: PageID },
}

pub enum FerrulesErrorView {
    ParseNativeError,
    LayoutParsingError,
    LineMergeError,
    BlockMergeError { block_id: usize, kind: BlockTypeView, element: ElementView },
    DebugPageError { tmp_dir: Seq<char>, page_idx: PageID },
    ParseTextError { tmp_dir: Seq<char>, page_idx: PageID },
}

impl View for FerrulesError {
    type V = FerrulesErrorView;

    open spec fn view(&self) -> FerrulesErrorView {
        match *self {
            FerrulesError::ParseNativeError => FerrulesErrorView::ParseNativeError,
            FerrulesError::LayoutParsingError => FerrulesErrorView::LayoutParsingError,
            FerrulesError::LineMergeError => FerrulesErrorView::LineMergeError,
            FerrulesError::BlockMergeError { block_id, kind, element } => {
                FerrulesErrorView::BlockMergeError { block_id, kind: kind@, element: element@ }
            },
            FerrulesError::DebugPageError { tmp_dir, page_idx } => {
                FerrulesErrorView::DebugPageError { tmp_dir: tmp_dir@, page_idx }
            },
            FerrulesError::ParseTextError { tmp_dir, page_idx } => {
                FerrulesErrorView::ParseTextError { tmp_dir: tmp_dir@, page_idx }
            },
        }
    }
}

/// A text as `{:?}` shows it: between double quotes, with the characters that
/// would not show, and the quotes and backslashes in it, escaped.
pub uninterp spec fn spec_quoted(text: Seq<char>) -> Seq<char>;

/// `format!("{:?}", text)`: the text as the `Debug` implementation of `str`
/// shows it, which depends on the text alone and is what `spec_quoted` names.
#[verifier::external_body]
fn quoted(text: &str) -> (r: String)
    ensures
        r@ == spec_quoted(text@),
{
    format!("{:?}", text)
}

/// What is said of a page that could not be saved, given its directory in quotes.
pub open spec fn spec_page_message(page_idx: PageID, quoted_dir: Seq<char>) -> Seq<char> {
    "saving error page number "@ + spec_decimal(page_idx as nat) + " in :"@ + quoted_dir
}

/// What is said of a page that could not be saved, given its directory in quotes.
pub fn page_message(page_idx: PageID, quoted_dir: &str) -> (r: String)
    ensures
        r@ == spec_page_message(page_idx, quoted_dir@),
{
    let mut r: String = String::from_str("saving error page number ");
    r.append(decimal(page_idx).as_str());
    r.append(" in :");
    r.append(quoted_dir);
    r
}

impl FerrulesErrorView {
    pub open spec fn spec_message(&self) -> Seq<char> {
        match *self {
            FerrulesErrorView::ParseNativeError => "error occured parsing document natively"@,
            FerrulesErrorView::LayoutParsingError => "layout parsing error"@,
            FerrulesErrorView::LineMergeError => "merging line into block error"@,
            FerrulesErrorView::BlockMergeError { .. } => "merging elements into block error"@,
            FerrulesErrorView::DebugPageError { tmp_dir, page_idx } => spec_page_message(
                page_idx,
                spec_quoted(tmp_dir),
            ),
            FerrulesErrorView::ParseTextError { tmp_dir, page_idx } => spec_page_message(
                page_idx,
                spec_quoted(tmp_dir),
            ),
        }
    }
}

impl FerrulesError {
    /// The error in words.
    pub fn message(&self) -> (r: String)
        ensures
            r@ == self@.spec_message(),
    {
        match self {
            FerrulesError::ParseNativeError => String::from_str(
                "error occured parsing document natively",
            ),
            FerrulesError::LayoutParsingError => String::from_str("layout parsing error"),
            FerrulesError::LineMergeError => String::from_str("merging line into block error"),
            FerrulesError::BlockMergeError { .. } => String::from_str(
                "merging elements into block error",
            ),
            FerrulesError::DebugPageError { tmp_dir, page_idx } => {
                let q: String = quoted(tmp_dir.as_str());
                page_message(*page_idx, q.as_str())
            },
            FerrulesError::ParseTextError { tmp_dir, page_idx } => {
                let q: String = quoted(tmp_dir.as_str());
                page_message(*page_idx, q.as_str())
            },
        }
    }

    /// The error stops the whole document, not only one page.
    pub open spec fn spec_is_fatal(&self) -> bool {
        *self is ParseNativeError || *self is BlockMergeError
    }

    /// Errors of opening the document and of stitching blocks stop the whole
    /// document; the others cost one page.
    pub fn is_fatal(&self) -> (b: bool)
        ensures
            b == self.spec_is_fatal(),
    {
        match self {
            FerrulesError::ParseNativeError => true,
            FerrulesError::BlockMergeError { .. } => true,
            _ => false,
        }
    }
}

} // verus!
