use ferrules::blocks::{Block, BlockType, ImageBlock, List, TextBlock, Title};
use ferrules::entities::{Element, ElementText, ElementType, Page, StructuredPage};
use ferrules::document::{assemble_document, median, order_pages, PageCollector};
use ferrules::error::FerrulesError;
use ferrules::geometry::BBox;
use ferrules::merge::{joins, merge_elements_into_blocks, MergeConfig};
use ferrules::titles::{title_levels_kmeans, TitleLevels};

fn bbox(x0: u32, y0: u32, x1: u32, y1: u32) -> BBox {
    BBox { x0, y0, x1, y1 }
}

fn element(id: usize, page_id: usize, kind: ElementType, b: BBox, text: &str, size: u32) -> Element {
    Element {
        id,
        page_id,
        kind,
        bbox: b,
        text_block: ElementText { text: text.to_string(), font_size: size },
        layout_score: 9000,
        needs_ocr: false,
    }
}

fn page(id: usize, elements: Vec<Element>) -> StructuredPage {
    StructuredPage { id, width: 600, height: 1000, elements, need_ocr: false }
}

fn frames(n: usize) -> Vec<Page> {
    (0..n).map(|id| Page { id, width: 600, height: 1000, need_ocr: false }).collect()
}

fn text_block(id: usize, text: &str) -> Block {
    Block {
        id,
        kind: BlockType::TextBlock(TextBlock { text: text.to_string() }),
        pages_id: vec![0],
        bbox: bbox(10, 10, 100, 20),
    }
}

#[test]
fn image_path_names_the_image() {
    assert_eq!(ImageBlock { id: 0, caption: None }.path(), "img_0.png");
    assert_eq!(ImageBlock { id: 42, caption: None }.path(), "img_42.png");
}

#[test]
fn labels_name_the_kinds() {
    let mut b = text_block(0, "");
    assert_eq!(b.label(), "TEXT");
    b.kind = BlockType::Header(TextBlock { text: String::new() });
    assert_eq!(b.label(), "HEADER");
    b.kind = BlockType::Footer(TextBlock { text: String::new() });
    assert_eq!(b.label(), "FOOTER");
    b.kind = BlockType::Title(Title { level: 1, text: String::new() });
    assert_eq!(b.label(), "TITLE");
    b.kind = BlockType::ListBlock(List { items: vec![] });
    assert_eq!(b.label(), "LIST");
    b.kind = BlockType::Image(ImageBlock { id: 0, caption: None });
    assert_eq!(b.label(), "IMAGE");
    b.kind = BlockType::Table;
    assert_eq!(b.label(), "TABLE");
}

#[test]
fn text_block_takes_text_on_a_new_line() {
    let mut b = text_block(3, "first");
    let e = element(1, 0, ElementType::Text, bbox(5, 30, 120, 40), "second", 12);
    assert!(b.merge(e).is_ok());
    match &b.kind {
        BlockType::TextBlock(t) => assert_eq!(t.text, "first\nsecond"),
        _ => panic!("kind changed"),
    }
    assert_eq!(b.bbox, bbox(5, 10, 120, 40));
    assert_eq!(b.pages_id, vec![0]);
    assert_eq!(b.id, 3);
}

#[test]
fn block_notes_the_next_page() {
    let mut b = text_block(0, "first");
    let e = element(1, 1, ElementType::Text, bbox(10, 5, 100, 15), "second", 12);
    assert!(b.merge(e).is_ok());
    assert_eq!(b.pages_id, vec![0, 1]);
}

#[test]
fn list_takes_trimmed_items() {
    let mut b = text_block(0, "");
    b.kind = BlockType::ListBlock(List { items: vec!["one".to_string()] });
    let e = element(1, 0, ElementType::ListItem, bbox(10, 30, 100, 40), "  two \n", 12);
    assert!(b.merge(e).is_ok());
    match &b.kind {
        BlockType::ListBlock(l) => assert_eq!(l.items, vec!["one".to_string(), "two".to_string()]),
        _ => panic!("kind changed"),
    }
}

#[test]
fn header_and_footer_take_text_as_it_is() {
    let mut b = text_block(0, "");
    b.kind = BlockType::Header(TextBlock { text: "head".to_string() });
    assert!(b.merge(element(1, 0, ElementType::Header, bbox(10, 30, 100, 40), "er", 12)).is_ok());
    match &b.kind {
        BlockType::Header(t) => assert_eq!(t.text, "header"),
        _ => panic!("kind changed"),
    }
    b.kind = BlockType::Footer(TextBlock { text: "foot".to_string() });
    assert!(b.merge(element(2, 0, ElementType::Footer, bbox(10, 30, 100, 40), "er", 12)).is_ok());
    match &b.kind {
        BlockType::Footer(t) => assert_eq!(t.text, "footer"),
        _ => panic!("kind changed"),
    }
}

#[test]
fn block_refuses_another_kind_and_hands_the_element_back() {
    let mut b = text_block(7, "first");
    let e = element(11, 0, ElementType::ListItem, bbox(5, 30, 120, 40), "item", 12);
    match b.merge(e) {
        Err(FerrulesError::BlockMergeError { block_id, kind, element }) => {
            assert_eq!(block_id, 7);
            assert!(matches!(kind, BlockType::TextBlock(_)));
            assert_eq!(element.id, 11);
            assert_eq!(element.text_block.text, "item");
        }
        _ => panic!("merge should have failed"),
    }
    assert_eq!(b.bbox, bbox(10, 10, 100, 20));
    match &b.kind {
        BlockType::TextBlock(t) => assert_eq!(t.text, "first"),
        _ => panic!("kind changed"),
    }
}

#[test]
fn titles_images_and_tables_never_grow() {
    let kinds = [
        (BlockType::Title(Title { level: 1, text: "t".to_string() }), ElementType::Title),
        (BlockType::Image(ImageBlock { id: 0, caption: None }), ElementType::Image),
        (BlockType::Table, ElementType::Table),
    ];
    for (kind, element_kind) in kinds {
        let mut b = text_block(0, "");
        b.kind = kind;
        let e = element(1, 0, element_kind, bbox(10, 30, 100, 40), "x", 12);
        assert!(b.merge(e).is_err());
    }
}

#[test]
fn block_refuses_a_page_that_does_not_follow() {
    let mut b = text_block(0, "first");
    assert!(b.merge(element(1, 2, ElementType::Text, bbox(10, 30, 100, 40), "x", 12)).is_err());
    let mut c = text_block(0, "first");
    c.pages_id = vec![3];
    assert!(c.merge(element(1, 2, ElementType::Text, bbox(10, 30, 100, 40), "x", 12)).is_err());
    assert!(b.accepts(ElementType::Text, 1));
    assert!(!b.accepts(ElementType::Text, 2));
    assert!(!b.accepts(ElementType::Header, 0));
}

#[test]
fn title_levels_follow_the_font_sizes() {
    let levels = title_levels_kmeans(&vec![24, 18, 14], 6);
    assert_eq!(levels.level_of(24), Some(1));
    assert_eq!(levels.level_of(18), Some(2));
    assert_eq!(levels.level_of(14), Some(3));
    assert_eq!(levels.level_of(12), None);
    assert_eq!(levels.sizes, vec![14, 18, 24]);
    assert_eq!(levels.levels, vec![3, 2, 1]);
}

#[test]
fn title_levels_of_no_titles_are_empty() {
    let levels = title_levels_kmeans(&vec![], 6);
    assert!(levels.sizes.is_empty());
    assert!(levels.levels.is_empty());
}

#[test]
fn title_levels_are_at_most_six() {
    let sizes: Vec<u32> = vec![10, 12, 14, 16, 18, 20, 22, 24, 26, 28, 30, 10, 30, 30];
    let levels = title_levels_kmeans(&sizes, 6);
    assert_eq!(levels.sizes.len(), 11);
    for s in &sizes {
        let l = levels.level_of(*s).unwrap();
        assert!((1..=6).contains(&l));
    }
    // a larger size never has a deeper level
    for w in levels.sizes.windows(2) {
        assert!(levels.level_of(w[0]).unwrap() >= levels.level_of(w[1]).unwrap());
    }
    assert_eq!(levels.level_of(30), Some(1));
    assert_eq!(levels.level_of(10), Some(6));
}

#[test]
fn title_levels_hold_the_number_of_clusters_in_bounds() {
    let few = title_levels_kmeans(&vec![20, 20, 10], 6);
    assert_eq!(few.levels, vec![2, 1]);
    let one = title_levels_kmeans(&vec![20, 10, 15], 0);
    assert_eq!(one.levels, vec![1, 1, 1]);
    let capped = title_levels_kmeans(&vec![1, 2, 3, 4, 5, 6, 7, 8], 100);
    assert!(capped.levels.iter().all(|l| (1..=6).contains(l)));
    let two = title_levels_kmeans(&vec![10, 11, 30, 31], 2);
    assert_eq!(two.levels, vec![2, 2, 1, 1]);
}

#[test]
fn two_paragraphs_apart_are_two_blocks() {
    let elements = vec![
        element(0, 0, ElementType::Text, bbox(100, 100, 500, 200), "one", 12),
        element(1, 0, ElementType::Text, bbox(100, 400, 500, 500), "two", 12),
    ];
    let doc = assemble_document(
        "doc".to_string(),
        vec![page(0, elements)],
        None,
        5,
        &MergeConfig::standard(),
    )
    .unwrap();
    assert_eq!(doc.pages.len(), 1);
    assert_eq!(doc.blocks.len(), 2);
    for (i, b) in doc.blocks.iter().enumerate() {
        assert_eq!(b.id, i);
        assert_eq!(b.pages_id, vec![0]);
        assert!(matches!(b.kind, BlockType::TextBlock(_)));
    }
    assert_eq!(doc.blocks[0].bbox, bbox(100, 100, 500, 200));
    assert_eq!(doc.blocks[1].bbox, bbox(100, 400, 500, 500));
    assert_eq!(doc.metadata.parsing_duration_ms, 5);
    assert_eq!(doc.doc_name, "doc");
}

#[test]
fn lines_of_one_paragraph_are_one_block() {
    let elements = vec![
        element(0, 0, ElementType::Text, bbox(100, 100, 500, 112), "one", 12),
        element(1, 0, ElementType::Text, bbox(100, 114, 400, 126), "two", 12),
        element(2, 0, ElementType::Text, bbox(100, 145, 400, 157), "three", 12),
    ];
    let doc = assemble_document(
        "doc".to_string(),
        vec![page(0, elements)],
        None,
        0,
        &MergeConfig::standard(),
    )
    .unwrap();
    assert_eq!(doc.blocks.len(), 2);
    match &doc.blocks[0].kind {
        BlockType::TextBlock(t) => assert_eq!(t.text, "one\ntwo"),
        _ => panic!("not text"),
    }
    assert_eq!(doc.blocks[0].bbox, bbox(100, 100, 500, 126));
}

#[test]
fn paragraph_runs_over_the_page_break() {
    let p0 = page(0, vec![element(0, 0, ElementType::Text, bbox(100, 900, 500, 990), "begin", 12)]);
    let p1 = page(1, vec![element(1, 1, ElementType::Text, bbox(100, 20, 500, 100), "end", 12)]);
    let doc = assemble_document("doc".to_string(), vec![p1, p0], None, 0, &MergeConfig::standard())
        .unwrap();
    assert_eq!(doc.blocks.len(), 1);
    assert_eq!(doc.blocks[0].pages_id, vec![0, 1]);
    match &doc.blocks[0].kind {
        BlockType::TextBlock(t) => assert_eq!(t.text, "begin\nend"),
        _ => panic!("not text"),
    }
    assert_eq!(doc.pages.iter().map(|p| p.id).collect::<Vec<_>>(), vec![0, 1]);
}

#[test]
fn paragraphs_in_the_middle_of_two_pages_stay_apart() {
    let p0 = page(0, vec![element(0, 0, ElementType::Text, bbox(100, 400, 500, 500), "a", 12)]);
    let p1 = page(1, vec![element(1, 1, ElementType::Text, bbox(100, 400, 500, 500), "b", 12)]);
    let doc = assemble_document("doc".to_string(), vec![p0, p1], None, 0, &MergeConfig::standard())
        .unwrap();
    assert_eq!(doc.blocks.len(), 2);
}

#[test]
fn titles_take_their_levels_and_never_merge() {
    let elements = vec![
        element(0, 0, ElementType::Title, bbox(100, 100, 500, 124), "A", 24),
        element(1, 0, ElementType::Title, bbox(100, 126, 500, 144), "B", 18),
        element(2, 0, ElementType::Subtitle, bbox(100, 146, 500, 160), "C", 14),
        element(3, 0, ElementType::Title, bbox(100, 162, 500, 186), "D", 24),
    ];
    let doc = assemble_document(
        "doc".to_string(),
        vec![page(0, elements)],
        None,
        0,
        &MergeConfig::standard(),
    )
    .unwrap();
    let levels: Vec<u8> = doc
        .blocks
        .iter()
        .map(|b| match &b.kind {
            BlockType::Title(t) => t.level,
            _ => panic!("not a title"),
        })
        .collect();
    assert_eq!(levels, vec![1, 2, 3, 1]);
}

#[test]
fn images_and_tables_stand_alone_and_images_are_numbered() {
    let elements = vec![
        element(0, 0, ElementType::Image, bbox(100, 100, 500, 200), "", 0),
        element(1, 0, ElementType::Table, bbox(100, 210, 500, 300), "", 0),
        element(2, 0, ElementType::Image, bbox(100, 310, 500, 400), "", 0),
        element(3, 0, ElementType::Caption, bbox(100, 402, 500, 414), "Figure 1", 10),
    ];
    let doc = assemble_document(
        "doc".to_string(),
        vec![page(0, elements)],
        None,
        0,
        &MergeConfig::standard(),
    )
    .unwrap();
    assert_eq!(doc.blocks.len(), 4);
    match &doc.blocks[0].kind {
        BlockType::Image(i) => {
            assert_eq!(i.id, 0);
            assert_eq!(i.path(), "img_0.png");
        }
        _ => panic!("not an image"),
    }
    assert_eq!(doc.blocks[0].bbox, bbox(100, 100, 500, 200));
    assert!(matches!(doc.blocks[1].kind, BlockType::Table));
    match &doc.blocks[2].kind {
        BlockType::Image(i) => assert_eq!(i.id, 1),
        _ => panic!("not an image"),
    }
    match &doc.blocks[3].kind {
        BlockType::TextBlock(t) => assert_eq!(t.text, "Figure 1"),
        _ => panic!("not text"),
    }
}

#[test]
fn list_items_make_one_list() {
    let elements = vec![
        element(0, 0, ElementType::ListItem, bbox(100, 100, 500, 112), " - a ", 12),
        element(1, 0, ElementType::ListItem, bbox(100, 114, 500, 126), " - b ", 12),
        element(2, 0, ElementType::Text, bbox(100, 128, 500, 140), "c", 12),
    ];
    let levels = TitleLevels { sizes: vec![], levels: vec![] };
    let blocks =
        merge_elements_into_blocks(elements, &levels, &frames(1), 12, &MergeConfig::standard())
            .unwrap();
    assert_eq!(blocks.len(), 2);
    match &blocks[0].kind {
        BlockType::ListBlock(l) => assert_eq!(l.items, vec!["- a".to_string(), "- b".to_string()]),
        _ => panic!("not a list"),
    }
}

#[test]
fn an_element_on_an_earlier_page_stops_the_stitching() {
    let elements = vec![
        element(0, 1, ElementType::Text, bbox(100, 100, 500, 112), "a", 12),
        element(1, 1, ElementType::Header, bbox(100, 300, 500, 312), "b", 12),
        element(2, 0, ElementType::Text, bbox(100, 100, 500, 112), "c", 12),
    ];
    let levels = TitleLevels { sizes: vec![], levels: vec![] };
    match merge_elements_into_blocks(elements, &levels, &frames(2), 12, &MergeConfig::standard()) {
        Err(FerrulesError::BlockMergeError { block_id, kind, element }) => {
            assert_eq!(block_id, 1);
            assert!(matches!(kind, BlockType::Header(_)));
            assert_eq!(element.id, 2);
        }
        _ => panic!("stitching should have failed"),
    }
}

#[test]
fn joins_follows_the_rules() {
    let c = MergeConfig::standard();
    let pages = frames(2);
    let a = element(0, 0, ElementType::Text, bbox(100, 100, 500, 112), "a", 12);
    let near = element(1, 0, ElementType::Text, bbox(100, 130, 500, 142), "b", 12);
    let far = element(2, 0, ElementType::Text, bbox(100, 131, 500, 143), "c", 12);
    let aside = element(3, 0, ElementType::Text, bbox(400, 114, 900, 126), "d", 12);
    let other = element(4, 0, ElementType::ListItem, bbox(100, 114, 500, 126), "e", 12);
    assert!(joins(&a, &near, &pages, 12, &c)); // gap of 18 = 1.5 lines
    assert!(!joins(&a, &far, &pages, 12, &c)); // gap of 19
    assert!(!joins(&a, &aside, &pages, 12, &c)); // shares 100 of 400
    assert!(!joins(&a, &other, &pages, 12, &c));
    let title = element(5, 0, ElementType::Title, bbox(100, 100, 500, 112), "t", 12);
    let title2 = element(6, 0, ElementType::Title, bbox(100, 114, 500, 126), "t", 12);
    assert!(!joins(&title, &title2, &pages, 12, &c));
}

#[test]
fn the_order_of_completion_does_not_matter() {
    let make = |order: [usize; 4]| {
        let pages: Vec<StructuredPage> = order
            .iter()
            .map(|&id| {
                page(
                    id,
                    vec![
                        element(2 * id, id, ElementType::Title, bbox(100, 50, 500, 80), "T", 20 + id as u32),
                        element(2 * id + 1, id, ElementType::Text, bbox(100, 100, 500, 990), "x", 12),
                    ],
                )
            })
            .collect();
        assemble_document("doc".to_string(), pages, None, 0, &MergeConfig::standard()).unwrap()
    };
    let a = make([0, 1, 2, 3]);
    let b = make([3, 1, 0, 2]);
    assert_eq!(format!("{:?}", a), format!("{:?}", b));
    assert_eq!(a.pages.iter().map(|p| p.id).collect::<Vec<_>>(), vec![0, 1, 2, 3]);
}

#[test]
fn pages_are_put_in_the_order_of_their_ids() {
    let sorted = order_pages(vec![page(5, vec![]), page(2, vec![]), page(9, vec![]), page(3, vec![])]);
    assert_eq!(sorted.iter().map(|p| p.id).collect::<Vec<_>>(), vec![2, 3, 5, 9]);
}

#[test]
fn median_is_the_middle_value() {
    assert_eq!(median(vec![]), 0);
    assert_eq!(median(vec![7]), 7);
    assert_eq!(median(vec![9, 1, 5]), 5);
    assert_eq!(median(vec![9, 1, 5, 3]), 5);
}

#[test]
fn collector_counts_pages_and_failures() {
    let mut c = PageCollector::new(5);
    assert_eq!(c.outstanding(), 5);
    assert!(c.record_page(page(4, vec![])).is_ok());
    assert!(c.record_failure());
    assert!(c.record_page(page(2, vec![])).is_ok());
    assert!(!c.is_complete());
    assert!(c.record_failure());
    assert!(c.record_page(page(3, vec![])).is_ok());
    assert!(c.is_complete());
    assert_eq!(c.outstanding(), 0);
    // what comes after every page has been recorded is handed back
    assert_eq!(c.record_page(page(7, vec![])).unwrap_err().id, 7);
    assert!(!c.record_failure());
    let pages = c.finish().unwrap();
    // five pages asked for, two failed
    assert_eq!(pages.iter().map(|p| p.id).collect::<Vec<_>>(), vec![2, 3, 4]);
}

#[test]
fn collector_fails_the_document_where_every_page_failed() {
    let mut c = PageCollector::new(2);
    assert!(c.record_failure());
    assert!(c.record_failure());
    assert!(matches!(c.finish(), Err(FerrulesError::LayoutParsingError)));
    assert_eq!(PageCollector::new(0).finish().unwrap().len(), 0);
}

#[test]
fn errors_say_what_went_wrong() {
    assert_eq!(
        FerrulesError::ParseNativeError.message(),
        "error occured parsing document natively"
    );
    assert_eq!(FerrulesError::LayoutParsingError.message(), "layout parsing error");
    assert_eq!(FerrulesError::LineMergeError.message(), "merging line into block error");
    let e = FerrulesError::BlockMergeError {
        block_id: 0,
        kind: BlockType::Table,
        element: element(0, 0, ElementType::Text, bbox(0, 0, 1, 1), "", 0),
    };
    assert_eq!(e.message(), "merging elements into block error");
    assert!(e.is_fatal());
    let d = FerrulesError::DebugPageError { tmp_dir: "/tmp/a \"b\"".to_string(), page_idx: 3 };
    assert_eq!(d.message(), "saving error page number 3 in :\"/tmp/a \\\"b\\\"\"");
    assert!(!d.is_fatal());
    let t = FerrulesError::ParseTextError { tmp_dir: "out".to_string(), page_idx: 12 };
    assert_eq!(t.message(), "saving error page number 12 in :\"out\"");
    assert!(FerrulesError::ParseNativeError.is_fatal());
    assert!(!FerrulesError::LineMergeError.is_fatal());
}
