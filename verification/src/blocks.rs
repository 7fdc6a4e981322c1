//! Blocks: the semantic units that a document is made of.

use crate::entities::{Element, ElementType, ElementView, PageID};
use crate::error::FerrulesError;
use crate::geometry::BBox;
use crate::strings::{decimal, spec_decimal, spec_trim, trim};
use vstd::prelude::*;
use vstd::string::*;

verus! {

pub type TitleLevel = u8;

/// The deepest title level.
pub const MAX_TITLE_LEVEL: u8 = 6;

#[derive(Debug, Default)]
pub struct ImageBlock {
    pub id: usize,
    pub caption: Option<String>,
}

/// Name of the file that holds the image with this number.
pub open spec fn spec_image_path(id: usize) -> Seq<char> {
    "img_"@ + spec_decimal(id as nat) + ".png"@
}

impl ImageBlock {
    pub fn path(&self) -> (r: String)
        ensures
            r@ == spec_image_path(self.id),
    {
        let mut r: String = String::from_str("img_");
        let digits: String = decimal(self.id);
        r.append(digits.as_str());
        r.append(".png");
        r
    }
}

#[derive(Debug, Default)]
pub struct TextBlock {
    pub text: String,
}

#[derive(Debug, Default)]
pub struct List {
    pub items: Vec<String>,
}

#[derive(Debug, Default)]
pub struct Title {
    pub level: TitleLevel,
    pub text: String,
}

#[derive(Debug)]
pub enum BlockType {
    Header(TextBlock),
    Footer(TextBlock),
    Title(Title),
    ListBlock(List),
    TextBlock(TextBlock),
    Image(ImageBlock),
    Table,
}

/// A block's kind and payload as a mathematical value.
pub enum BlockTypeView {
    Header(Seq<char>),
    Footer(Seq<char>),
    Title { level: TitleLevel, text: Seq<char> },
    ListBlock(Seq<Seq<char>>),
    TextBlock(Seq<char>),
    Image { id: usize, caption: Option<Seq<char>> },
    Table,
}

impl BlockTypeView {
    /// A block of this kind grows by elements of kind `kind`. Titles, images
    /// and tables never grow.
    pub open spec fn takes(&self, kind: ElementType) -> bool {
        match *self {
            BlockTypeView::TextBlock(_) => kind is Text,
            BlockTypeView::ListBlock(_) => kind is ListItem,
            BlockTypeView::Header(_) => kind is Header,
            BlockTypeView::Footer(_) => kind is Footer,
            _ => false,
        }
    }

    /// The payload after an element with this text has joined: a paragraph
    /// gains a line break and the text, a list gains the trimmed text as an
    /// item, a header or footer gains the text.
    pub open spec fn absorb(&self, text: Seq<char>) -> BlockTypeView {
        match *self {
            BlockTypeView::TextBlock(t) => BlockTypeView::TextBlock(t.push('\n') + text),
            BlockTypeView::ListBlock(items) => BlockTypeView::ListBlock(items.push(spec_trim(text))),
            BlockTypeView::Header(t) => BlockTypeView::Header(t + text),
            BlockTypeView::Footer(t) => BlockTypeView::Footer(t + text),
            _ => *self,
        }
    }

    pub open spec fn spec_label(&self) -> Seq<char> {
        match *self {
            BlockTypeView::Header(_) => "HEADER"@,
            BlockTypeView::Footer(_) => "FOOTER"@,
            BlockTypeView::TextBlock(_) => "TEXT"@,
            BlockTypeView::Title { .. } => "TITLE"@,
            BlockTypeView::ListBlock(_) => "LIST"@,
            BlockTypeView::Image { .. } => "IMAGE"@,
            BlockTypeView::Table => "TABLE"@,
        }
    }
}

impl View for BlockType {
    type V = BlockTypeView;

    open spec fn view(&self) -> BlockTypeView {
        match *self {
            BlockType::Header(t) => BlockTypeView::Header(t.text@),
            BlockType::Footer(t) => BlockTypeView::Footer(t.text@),
            BlockType::Title(t) => BlockTypeView::Title { level: t.level, text: t.text@ },
            BlockType::ListBlock(l) => BlockTypeView::ListBlock(l.items.deep_view()),
            BlockType::TextBlock(t) => BlockTypeView::TextBlock(t.text@),
            BlockType::Image(i) => BlockTypeView::Image {
                id: i.id,
                caption: match i.caption {
                    Some(c) => Some(c@),
                    None => None,
                },
            },
            BlockType::Table => BlockTypeView::Table,
        }
    }
}

fn clone_items(items: &Vec<String>) -> (r: Vec<String>)
    ensures
        r.deep_view() == items.deep_view(),
{
    let mut r: Vec<String> = Vec::new();
    let mut i: usize = 0;
    while i < items.len()
        invariant
            i <= items.len(),
            r.len() == i,
            forall|k: int| 0 <= k < i ==> r[k]@ == items[k]@,
        decreases items.len() - i,
    {
        r.push(items[i].clone());
        i = i + 1;
    }
    assert(r.deep_view() =~= items.deep_view());
    r
}

impl Clone for BlockType {
    fn clone(&self) -> (r: Self)
        ensures
            r@ == self@,
    {
        match self {
            BlockType::Header(t) => BlockType::Header(TextBlock { text: t.text.clone() }),
            BlockType::Footer(t) => BlockType::Footer(TextBlock { text: t.text.clone() }),
            BlockType::Title(t) => BlockType::Title(Title { level: t.level, text: t.text.clone() }),
            BlockType::ListBlock(l) => BlockType::ListBlock(List { items: clone_items(&l.items) }),
            BlockType::TextBlock(t) => BlockType::TextBlock(TextBlock { text: t.text.clone() }),
            BlockType::Image(i) => BlockType::Image(
                ImageBlock {
                    id: i.id,
                    caption: match &i.caption {
                        Some(c) => Some(c.clone()),
                        None => None,
                    },
                },
            ),
            BlockType::Table => BlockType::Table,
        }
    }
}

#[derive(Debug)]
pub struct Block {
    pub id: usize,
    pub kind: BlockType,
    pub pages_id: Vec<PageID>,
    pub bbox: BBox,
}

pub struct BlockView {
    pub id: usize,
    pub kind: BlockTypeView,
    pub pages_id: Seq<PageID>,
    pub bbox: BBox,
}

impl BlockView {
    /// The block has a page, its pages follow one another without a gap, and a
    /// title's level lies between one and six.
    pub open spec fn valid(&self) -> bool {
        &&& self.pages_id.len() > 0
        &&& self.gapless()
        &&& match self.kind {
            BlockTypeView::Title { level, .. } => 1 <= level <= MAX_TITLE_LEVEL,
            _ => true,
        }
    }

    /// Every page of the block but the first is the page after the one before it.
    pub open spec fn gapless(&self) -> bool {
        forall|i: int| 0 <= i < self.pages_id.len() ==> #[trigger] self.pages_id[i] == self.pages_id[0] + i
    }

    /// Every page of the block has a larger id than the pages before it.
    pub open spec fn pages_increase(&self) -> bool {
        forall|p: int, q: int|
            0 <= p < q < self.pages_id.len() ==> #[trigger] self.pages_id[p]
                < #[trigger] self.pages_id[q]
    }

    /// `page` is the block's last page or the one after it.
    pub open spec fn follows_page(&self, page: PageID) -> bool {
        self.pages_id.len() == 0 || page == self.pages_id.last() || page == self.pages_id.last() + 1
    }

    /// The element may join the block.
    pub open spec fn accepts(&self, element: ElementView) -> bool {
        self.kind.takes(element.kind) && self.follows_page(element.page_id)
    }

    /// The block after the element has joined it.
    pub open spec fn absorb(&self, element: ElementView) -> BlockView {
        BlockView {
            id: self.id,
            kind: self.kind.absorb(element.text),
            pages_id: if self.pages_id.len() > 0 && self.pages_id.last() == element.page_id {
                self.pages_id
            } else {
                self.pages_id.push(element.page_id)
            },
            bbox: self.bbox.hull(element.bbox),
        }
    }
}

impl View for Block {
    type V = BlockView;

    open spec fn view(&self) -> BlockView {
        BlockView { id: self.id, kind: self.kind@, pages_id: self.pages_id@, bbox: self.bbox }
    }
}

impl DeepView for Block {
    type V = BlockView;

    open spec fn deep_view(&self) -> BlockView {
        self@
    }
}

impl Block {
    /// Whether an element of this kind on this page may join the block.
    pub fn accepts(&self, kind: ElementType, page_id: PageID) -> (b: bool)
        ensures
            b == (self@.kind.takes(kind) && self@.follows_page(page_id)),
    {
        let kind_fits: bool = match &self.kind {
            BlockType::TextBlock(_) => matches!(kind, ElementType::Text),
            BlockType::ListBlock(_) => matches!(kind, ElementType::ListItem),
            BlockType::Header(_) => matches!(kind, ElementType::Header),
            BlockType::Footer(_) => matches!(kind, ElementType::Footer),
            _ => false,
        };
        let n: usize = self.pages_id.len();
        let page_fits: bool = if n == 0 {
            true
        } else {
            let last: PageID = self.pages_id[n - 1];
            page_id == last || (page_id > last && page_id - last == 1)
        };
        kind_fits && page_fits
    }

    /// Lets `element` join the block: the box grows to enclose it, the payload
    /// takes its text, and its page is noted. An element that may not join
    /// comes back inside the error, and the block stays as it was.
    pub fn merge(&mut self, element: Element) -> (r: Result<(), FerrulesError>)
        ensures
            match r {
                Ok(_) => {
                    &&& old(self)@.accepts(element@)
                    &&& final(self)@ == old(self)@.absorb(element@)
                },
                Err(e) => {
                    &&& !old(self)@.accepts(element@)
                    &&& final(self)@ == old(self)@
                    &&& e@ == crate::error::FerrulesErrorView::BlockMergeError {
                        block_id: old(self).id,
                        kind: old(self)@.kind,
                        element: element@,
                    }
                },
            },
            old(self)@.valid() ==> final(self)@.valid(),
    {
        if !self.accepts(element.kind, element.page_id) {
            return Err(
                FerrulesError::BlockMergeError { block_id: self.id, kind: self.kind.clone(), element },
            );
        }
        let n: usize = self.pages_id.len();
        if n == 0 || self.pages_id[n - 1] != element.page_id {
            self.pages_id.push(element.page_id);
        }
        self.bbox.merge(&element.bbox);
        match &mut self.kind {
            BlockType::TextBlock(text) => {
                proof {
                    reveal_strlit("\n");
                }
                text.text.append("\n");
                text.text.append(element.text_block.text.as_str());
                assert(text.text@ =~= old(self)@.kind->TextBlock_0.push('\n') + element@.text);
            },
            BlockType::ListBlock(list) => {
                let item: String = trim(element.text_block.text.as_str());
                list.items.push(item);
                assert(list.items.deep_view() =~= old(self)@.kind->ListBlock_0.push(
                    spec_trim(element@.text),
                ));
            },
            BlockType::Header(header) => {
                header.text.append(element.text_block.text.as_str());
            },
            BlockType::Footer(footer) => {
                footer.text.append(element.text_block.text.as_str());
            },
            _ => {},
        }
        Ok(())
    }

    pub fn label(&self) -> (r: &'static str)
        ensures
            r@ == self@.kind.spec_label(),
    {
        match self.kind {
            BlockType::Header(_) => "HEADER",
            BlockType::Footer(_) => "FOOTER",
            BlockType::TextBlock(_) => "TEXT",
            BlockType::Title(_) => "TITLE",
            BlockType::ListBlock(_) => "LIST",
            BlockType::Image(_) => "IMAGE",
            BlockType::Table => "TABLE",
        }
    }
}

} // verus!
