//! What is written out for a document besides the document itself: the crops
//! of its images.

use crate::blocks::{Block, BlockType, BlockView};
use crate::entities::{Page, PageID, ParsedDocument};
use crate::geometry::{spec_max, spec_min, BBox};
use crate::names::{crop_file_name, spec_crop_file_name};
use vstd::prelude::*;

verus! {

/// The margin that is left around an image when it is cut out of its page.
pub const IMAGE_PADDING: u32 = 5;

/// A rectangle to cut out of the picture of a page: its left upper corner,
/// its width and its height.
#[derive(Clone, Copy, Debug, PartialEq, Eq, Structural)]
pub struct CropRect {
    pub x: u32,
    pub y: u32,
    pub width: u32,
    pub height: u32,
}

/// The rectangle to cut for a box: the box with the padding around it, its
/// corner held on the page, and no wider or higher than the page.
pub open spec fn spec_crop_rect(bbox: BBox, page_width: u32, page_height: u32, padding: u32) -> CropRect {
    CropRect {
        x: spec_max(0, bbox.x0 - padding) as u32,
        y: spec_max(0, bbox.y0 - padding) as u32,
        width: spec_min(spec_max(bbox.spec_width(), 1) + 2 * padding, page_width as int) as u32,
        height: spec_min(spec_max(bbox.spec_height(), 1) + 2 * padding, page_height as int) as u32,
    }
}

pub fn crop_rect(bbox: &BBox, page_width: u32, page_height: u32, padding: u32) -> (r: CropRect)
    ensures
        r == spec_crop_rect(*bbox, page_width, page_height, padding),
{
    let x: u32 = if bbox.x0 > padding {
        bbox.x0 - padding
    } else {
        0
    };
    let y: u32 = if bbox.y0 > padding {
        bbox.y0 - padding
    } else {
        0
    };
    let w: u32 = bbox.width();
    let h: u32 = bbox.height();
    let wide: u64 = (if w >= 1 {
        w as u64
    } else {
        1
    }) + 2 * (padding as u64);
    let high: u64 = (if h >= 1 {
        h as u64
    } else {
        1
    }) + 2 * (padding as u64);
    let width: u32 = if wide <= page_width as u64 {
        wide as u32
    } else {
        page_width
    };
    let height: u32 = if high <= page_height as u64 {
        high as u32
    } else {
        page_height
    };
    CropRect { x, y, width, height }
}

/// One image to cut out of a page and write to a file.
#[derive(Debug)]
pub struct ImageCrop {
    pub page_id: PageID,
    pub image_no: usize,
    pub rect: CropRect,
    pub file_name: String,
}

pub struct ImageCropView {
    pub page_id: PageID,
    pub image_no: usize,
    pub rect: CropRect,
    pub file_name: Seq<char>,
}

impl View for ImageCrop {
    type V = ImageCropView;

    open spec fn view(&self) -> ImageCropView {
        ImageCropView {
            page_id: self.page_id,
            image_no: self.image_no,
            rect: self.rect,
            file_name: self.file_name@,
        }
    }
}

impl DeepView for ImageCrop {
    type V = ImageCropView;

    open spec fn deep_view(&self) -> ImageCropView {
        self@
    }
}

/// The first of the first `n` pages that has this id.
pub open spec fn spec_find_page(pages: Seq<Page>, id: PageID, n: int) -> Option<Page>
    decreases n,
{
    if n <= 0 {
        None
    } else {
        match spec_find_page(pages, id, n - 1) {
            Some(p) => Some(p),
            None => if pages[n - 1].id == id {
                Some(pages[n - 1])
            } else {
                None
            },
        }
    }
}

/// The page that an image is cut out of: the first page of its block, where
/// the document has that page.
pub open spec fn spec_image_page(block: BlockView, pages: Seq<Page>) -> Option<Page> {
    if block.kind is Image && block.pages_id.len() > 0 {
        spec_find_page(pages, block.pages_id[0], pages.len() as int)
    } else {
        None
    }
}

/// The crops of the images among the first `n` blocks, numbered from zero in
/// the order of the blocks.
pub open spec fn spec_image_crops(blocks: Seq<BlockView>, pages: Seq<Page>, padding: u32, n: int) -> Seq<
    ImageCropView,
>
    decreases n,
{
    if n <= 0 {
        Seq::empty()
    } else {
        let before = spec_image_crops(blocks, pages, padding, n - 1);
        match spec_image_page(blocks[n - 1], pages) {
            Some(page) => before.push(
                ImageCropView {
                    page_id: page.id,
                    image_no: before.len() as usize,
                    rect: spec_crop_rect(blocks[n - 1].bbox, page.width, page.height, padding),
                    file_name: spec_crop_file_name(page.id, before.len() as usize),
                },
            ),
            None => before,
        }
    }
}

fn find_page(pages: &Vec<Page>, id: PageID) -> (r: Option<Page>)
    ensures
        r == spec_find_page(pages@, id, pages.len() as int),
{
    let mut found: Option<Page> = None;
    let mut i: usize = 0;
    while i < pages.len()
        invariant
            i <= pages.len(),
            found == spec_find_page(pages@, id, i as int),
        decreases pages.len() - i,
    {
        if found.is_none() && pages[i].id == id {
            found = Some(pages[i]);
        }
        i = i + 1;
    }
    found
}

fn image_page(block: &Block, pages: &Vec<Page>) -> (r: Option<Page>)
    ensures
        r == spec_image_page(block@, pages@),
{
    match &block.kind {
        BlockType::Image(_) => {
            if block.pages_id.len() > 0 {
                find_page(pages, block.pages_id[0])
            } else {
                None
            }
        },
        _ => None,
    }
}

/// The images of a document that are to be cut out of its pages: for every
/// image block whose first page the document has, the rectangle on that page
/// and the name of the file, in the order of the blocks.
pub fn image_crops(doc: &ParsedDocument, padding: u32) -> (crops: Vec<ImageCrop>)
    ensures
        crops.deep_view() == spec_image_crops(
            doc@.blocks,
            doc@.pages,
            padding,
            doc@.blocks.len() as int,
        ),
{
    let mut crops: Vec<ImageCrop> = Vec::new();
    let mut i: usize = 0;
    assert(crops.deep_view() =~= spec_image_crops(doc@.blocks, doc@.pages, padding, 0));
    while i < doc.blocks.len()
        invariant
            i <= doc.blocks.len(),
            crops.deep_view() == spec_image_crops(doc@.blocks, doc@.pages, padding, i as int),
        decreases doc.blocks.len() - i,
    {
        let ghost before = crops.deep_view();
        assert(doc@.blocks[i as int] == doc.blocks[i as int]@);
        match image_page(&doc.blocks[i], &doc.pages) {
            Some(page) => {
                let image_no: usize = crops.len();
                let crop = ImageCrop {
                    page_id: page.id,
                    image_no,
                    rect: crop_rect(&doc.blocks[i].bbox, page.width, page.height, padding),
                    file_name: crop_file_name(page.id, image_no),
                };
                crops.push(crop);
                assert(crops.deep_view() =~= before.push(crop@));
            },
            None => {},
        }
        i = i + 1;
    }
    crops
}

} // verus!
