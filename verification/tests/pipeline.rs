use ferrules::blocks::{Block, BlockType, ImageBlock, TextBlock};
use ferrules::entities::{DocumentMetadata, ElementType, Page, ParsedDocument};
use ferrules::config::{parse_ep_args, EpArgs, GraphOptLevel, ORTConfig, OrtExecutionProvider};
use ferrules::error::FerrulesError;
use ferrules::fusion::{
    build_numbered_page, build_page, first_element_id, fuse_page, order_key, plan_page,
    FusionConfig, RegionSource, IDS_PER_PAGE,
};
use ferrules::geometry::{BBox, Ratio};
use ferrules::layout::{
    kind_of_label, letterbox, nms, postprocess, same_text, LayoutBBox, LayoutClass, LayoutConfig,
    Letterbox,
};
use ferrules::names::{
    crop_file_name, doc_name, doc_name_or, results_dir_name, sanitize_char, sanitize_doc_name,
};
use ferrules::native::{native_page_result, parse_page_text, raster_scale, select_pages};
use ferrules::ocr::OCRLines;
use ferrules::output::{crop_rect, image_crops, CropRect};
use ferrules::pool::{BufferPool, InferenceState, PollAction};
use ferrules::queue::BoundedQueue;
use ferrules::text::{parse_text_lines, parse_text_spans, CharSpan, Line, TextChar};

fn bbox(x0: u32, y0: u32, x1: u32, y1: u32) -> BBox {
    BBox { x0, y0, x1, y1 }
}

fn glyph(c: char, x: u32, y: u32, font_id: u32, size: u32) -> TextChar {
    TextChar { unicode: c, font_id, font_size: size, bbox: bbox(x, y, x + 6, y + size), rotation: 0 }
}

fn word(text: &str, x: u32, y: u32, font_id: u32, size: u32) -> Vec<TextChar> {
    text.chars().enumerate().map(|(i, c)| glyph(c, x + 6 * i as u32, y, font_id, size)).collect()
}

fn line(text: &str, b: BBox, size: u32) -> Line {
    Line {
        text: text.to_string(),
        bbox: b,
        rotation: 0,
        spans: vec![CharSpan { bbox: b, text: text.to_string(), font_id: 1, font_size: size, rotation: 0 }],
    }
}

fn detection(class: LayoutClass, b: BBox, score: u32) -> LayoutBBox {
    LayoutBBox { id: 0, bbox: b, class, score }
}

#[test]
fn glyphs_of_one_font_on_one_baseline_are_one_span() {
    let spans = parse_text_spans(&word("hello", 100, 50, 1, 12));
    assert_eq!(spans.len(), 1);
    assert_eq!(spans[0].text, "hello");
    assert_eq!(spans[0].bbox, bbox(100, 50, 130, 62));
    assert_eq!(spans[0].font_size, 12);
}

#[test]
fn a_new_font_a_gap_or_a_shift_begins_a_new_span() {
    let mut chars = word("ab", 100, 50, 1, 12);
    chars.extend(word("cd", 112, 50, 2, 12)); // another font
    chars.extend(word("ef", 124, 50, 2, 14)); // another size
    chars.extend(word("gh", 200, 50, 2, 14)); // a gap
    chars.extend(word("ij", 212, 90, 2, 14)); // another baseline
    let spans = parse_text_spans(&chars);
    let texts: Vec<&str> = spans.iter().map(|s| s.text.as_str()).collect();
    assert_eq!(texts, vec!["ab", "cd", "ef", "gh", "ij"]);
    let all: String = spans.iter().map(|s| s.text.as_str()).collect();
    assert_eq!(all, "abcdefghij");
}

#[test]
fn span_append_says_whether_it_took_the_glyph() {
    let mut span = CharSpan::new_from_char(&glyph('a', 100, 50, 1, 12));
    assert_eq!(span.append(&glyph('b', 106, 50, 1, 12)), Some(()));
    assert_eq!(span.append(&glyph('c', 112, 50, 9, 12)), None);
    assert_eq!(span.append(&glyph('c', 119, 50, 1, 12)), None); // 7 away, 6 allowed
    assert_eq!(span.append(&glyph('c', 118, 50, 1, 12)), Some(()));
    assert_eq!(span.text, "abc");
    assert_eq!(span.bbox, bbox(100, 50, 124, 62));
}

#[test]
fn spans_on_one_baseline_are_one_line() {
    let mut chars = word("one ", 100, 50, 1, 12);
    chars.extend(word("two", 124, 50, 2, 12));
    chars.extend(word("below", 100, 70, 1, 12));
    let lines = parse_page_text(&chars);
    assert_eq!(lines.len(), 2);
    assert_eq!(lines[0].text, "one two");
    assert_eq!(lines[0].spans.len(), 2);
    assert_eq!(lines[0].bbox, bbox(100, 50, 142, 62));
    assert_eq!(lines[1].text, "below");
    assert_eq!(lines[0].font_size(), 12);
}

#[test]
fn line_append_hands_back_a_span_that_does_not_fit() {
    let first = CharSpan { bbox: bbox(100, 50, 130, 62), text: "a".into(), font_id: 1, font_size: 12, rotation: 0 };
    let mut l = Line::new_from_span(first);
    let far = CharSpan { bbox: bbox(149, 50, 160, 62), text: "b".into(), font_id: 1, font_size: 12, rotation: 0 };
    let back = l.append(far).unwrap_err(); // 19 away, 18 allowed
    assert_eq!(back.text, "b");
    let near = CharSpan { bbox: bbox(148, 52, 160, 64), text: "c".into(), font_id: 2, font_size: 10, rotation: 0 };
    assert!(l.append(near).is_ok());
    assert_eq!(l.text, "ac");
    assert_eq!(l.font_size(), 11);
    let low = CharSpan { bbox: bbox(161, 60, 170, 72), text: "d".into(), font_id: 2, font_size: 10, rotation: 0 };
    assert!(l.append(low).is_err());
    assert_eq!(parse_text_lines(vec![]).len(), 0);
}

#[test]
fn the_range_of_pages_is_checked_against_the_document() {
    assert_eq!(select_pages(10, Some(2..7)).unwrap(), 2..7);
    assert_eq!(select_pages(10, Some(2..7)).unwrap().collect::<Vec<_>>(), vec![2, 3, 4, 5, 6]);
    assert_eq!(select_pages(10, None).unwrap(), 0..10);
    assert_eq!(select_pages(10, Some(0..10)).unwrap(), 0..10);
    assert!(matches!(select_pages(10, Some(2..11)), Err(FerrulesError::ParseNativeError)));
}

#[test]
fn the_raster_scale_is_the_smaller_of_the_two() {
    assert_eq!(raster_scale(1024, 1024, 600, 800), Some(Ratio { num: 1024, den: 800 }));
    assert_eq!(raster_scale(1024, 1024, 800, 600), Some(Ratio { num: 1024, den: 800 }));
    assert_eq!(raster_scale(1024, 768, 500, 500), Some(Ratio { num: 768, den: 500 }));
    assert_eq!(raster_scale(1024, 1024, 0, 800), None);
    assert_eq!(raster_scale(1024, 1024, 600, 0), None);
}

#[test]
fn letterbox_centres_the_image() {
    assert_eq!(
        letterbox(600, 800, 1024, 1024),
        Some(Letterbox { scale: Ratio { num: 1024, den: 800 }, width: 768, height: 1024, pad_x: 128, pad_y: 0 })
    );
    assert_eq!(
        letterbox(1000, 500, 640, 640),
        Some(Letterbox { scale: Ratio { num: 640, den: 1000 }, width: 640, height: 320, pad_x: 0, pad_y: 160 })
    );
    assert_eq!(letterbox(0, 500, 640, 640), None);
}

#[test]
fn labels_become_kinds() {
    let table = [
        ("Title", ElementType::Title),
        ("Section-header", ElementType::Title),
        ("Text", ElementType::Text),
        ("Paragraph", ElementType::Text),
        ("List-item", ElementType::ListItem),
        ("Page-header", ElementType::Header),
        ("Page-footer", ElementType::Footer),
        ("Picture", ElementType::Image),
        ("Figure", ElementType::Image),
        ("Table", ElementType::Table),
        ("Caption", ElementType::Caption),
        ("Formula", ElementType::Text),
        ("Footnote", ElementType::Text),
        ("anything else", ElementType::Text),
        ("title", ElementType::Text),
        ("", ElementType::Text),
    ];
    for (label, kind) in table {
        assert_eq!(kind_of_label(label), kind, "for {:?}", label);
    }
    assert_eq!(LayoutClass::from_label("Section-header"), LayoutClass::SectionHeader);
    assert_eq!(LayoutClass::from_label("nonsense"), LayoutClass::Unknown);
    assert!(same_text("abc", "abc"));
    assert!(!same_text("abc", "abd"));
    assert!(!same_text("abc", "ab"));
}

#[test]
fn the_weaker_of_two_overlapping_detections_is_suppressed() {
    let sorted = vec![
        detection(LayoutClass::Text, bbox(0, 0, 100, 100), 9000),
        detection(LayoutClass::Text, bbox(0, 0, 100, 95), 8000),
        detection(LayoutClass::Table, bbox(0, 0, 100, 95), 7000),
        detection(LayoutClass::Text, bbox(0, 200, 100, 300), 6000),
    ];
    let kept = nms(&sorted, &LayoutConfig::standard());
    assert_eq!(kept.iter().map(|b| b.score).collect::<Vec<_>>(), vec![9000, 7000, 6000]);
}

#[test]
fn postprocessing_drops_sorts_suppresses_and_scales() {
    let candidates = vec![
        detection(LayoutClass::Text, bbox(0, 200, 100, 300), 6000),
        detection(LayoutClass::Text, bbox(0, 0, 100, 95), 8000),
        detection(LayoutClass::Picture, bbox(10, 10, 20, 20), 2999),
        detection(LayoutClass::Text, bbox(0, 0, 100, 100), 9000),
        detection(LayoutClass::Title, bbox(0, 400, 100, 420), 3000),
    ];
    let out = postprocess(&candidates, &LayoutConfig::standard(), Ratio { num: 3, den: 2 });
    assert_eq!(
        out,
        vec![
            LayoutBBox { id: 0, bbox: bbox(0, 0, 150, 150), class: LayoutClass::Text, score: 9000 },
            LayoutBBox { id: 1, bbox: bbox(0, 300, 150, 450), class: LayoutClass::Text, score: 6000 },
            LayoutBBox { id: 2, bbox: bbox(0, 600, 150, 630), class: LayoutClass::Title, score: 3000 },
        ]
    );
    assert!(postprocess(&vec![], &LayoutConfig::standard(), Ratio::one()).is_empty());
}

#[test]
fn every_class_has_thresholds_of_its_own() {
    let mut config = LayoutConfig::uniform(3000, Ratio { num: 8, den: 10 });
    assert_eq!(config.min_score_of(LayoutClass::Table), 3000);
    assert_eq!(config.max_iou_of(LayoutClass::Unknown), Ratio { num: 8, den: 10 });
    config.min_score[LayoutClass::Picture.index()] = 9000;
    config.max_iou[LayoutClass::Text.index()] = Ratio { num: 1, den: 10 };
    let candidates = vec![
        detection(LayoutClass::Picture, bbox(0, 500, 100, 600), 8000),
        detection(LayoutClass::Text, bbox(0, 0, 100, 100), 9000),
        detection(LayoutClass::Text, bbox(0, 50, 100, 150), 8000),
        detection(LayoutClass::Table, bbox(0, 200, 100, 300), 9000),
        detection(LayoutClass::Table, bbox(0, 250, 100, 350), 8000),
    ];
    let out = postprocess(&candidates, &config, Ratio::one());
    let got: Vec<(LayoutClass, u32)> = out.iter().map(|b| (b.class, b.score)).collect();
    // the picture is below its threshold; the texts overlap by a third, the tables too
    assert_eq!(
        got,
        vec![(LayoutClass::Text, 9000), (LayoutClass::Table, 9000), (LayoutClass::Table, 8000)]
    );
}

#[test]
fn reading_order_goes_by_rows_then_from_the_left() {
    // lines of height 12: bands of 6
    assert!(order_key(&bbox(300, 100, 400, 112), 12) < order_key(&bbox(100, 106, 200, 118), 12));
    assert!(order_key(&bbox(100, 101, 200, 113), 12) < order_key(&bbox(300, 96, 400, 108), 12));
    assert_eq!(order_key(&bbox(7, 13, 9, 20), 12), (2u64 << 32) + 7);
    assert_eq!(order_key(&bbox(7, 13, 9, 20), 0), (13u64 << 32) + 7);
}

#[test]
fn lines_go_to_the_regions_that_cover_them() {
    let lines = vec![
        line("Heading", bbox(100, 50, 300, 74), 24),
        line("first line", bbox(100, 100, 500, 112), 12),
        line("second line", bbox(100, 114, 480, 126), 12),
        line("page 3", bbox(280, 950, 320, 960), 10),
    ];
    let boxes = vec![
        detection(LayoutClass::Text, bbox(95, 98, 505, 128), 9000),
        detection(LayoutClass::SectionHeader, bbox(95, 48, 305, 76), 8000),
        detection(LayoutClass::PageFooter, bbox(270, 945, 330, 965), 7000),
    ];
    let page = fuse_page(3, 600, 1000, &lines, &boxes, 40, &FusionConfig::standard()).unwrap();
    assert_eq!(page.id, 3);
    assert!(!page.need_ocr);
    let got: Vec<(usize, ElementType, &str)> = page
        .elements
        .iter()
        .map(|e| (e.id, e.kind, e.text_block.text.as_str()))
        .collect();
    assert_eq!(
        got,
        vec![
            (40, ElementType::Title, "Heading"),
            (41, ElementType::Text, "first line second line"),
            (42, ElementType::Footer, "page 3"),
        ]
    );
    assert!(page.elements.iter().all(|e| e.page_id == 3 && !e.needs_ocr));
    assert_eq!(page.elements[0].text_block.font_size, 24);
    assert_eq!(page.elements[1].text_block.font_size, 12);
    assert_eq!(page.elements[1].bbox, bbox(95, 98, 505, 128));
    assert_eq!(page.elements[1].layout_score, 9000);
}

#[test]
fn orphans_are_attached_or_stand_alone() {
    let lines = vec![
        line("inside", bbox(100, 100, 500, 112), 12),
        line("just below", bbox(100, 140, 500, 152), 12),
        line("far away", bbox(100, 5000, 500, 5012), 12),
    ];
    let boxes = vec![
        detection(LayoutClass::Picture, bbox(100, 130, 120, 138), 9000),
        detection(LayoutClass::Text, bbox(95, 98, 505, 128), 9000),
    ];
    let config = FusionConfig { line_overlap: Ratio { num: 1, den: 2 }, orphan_distance: 50 };
    let plan = plan_page(&lines, &boxes, &config);
    assert_eq!(plan.attached, vec![None, Some(1), None]);
    assert_eq!(plan.line_height, 12);
    assert_eq!(
        plan.regions.iter().map(|r| r.source).collect::<Vec<_>>(),
        vec![RegionSource::Layout(1), RegionSource::Layout(0), RegionSource::Orphan(2)]
    );
    let page = build_page(0, 600, 6000, &lines, &plan, &vec![], 0);
    let got: Vec<(usize, ElementType, &str)> = page
        .elements
        .iter()
        .map(|e| (e.id, e.kind, e.text_block.text.as_str()))
        .collect();
    assert_eq!(
        got,
        vec![
            (0, ElementType::Text, "inside just below"),
            (1, ElementType::Image, ""),
            (2, ElementType::Text, "far away"),
        ]
    );
    assert_eq!(page.elements[0].bbox, bbox(95, 98, 505, 152));
    assert_eq!(page.elements[2].bbox, bbox(100, 5000, 500, 5012));
    assert!(!page.need_ocr);
}

#[test]
fn a_picture_without_text_is_an_image_with_the_box_of_the_detection() {
    let boxes = vec![detection(LayoutClass::Picture, bbox(100, 100, 400, 300), 9500)];
    let page = fuse_page(0, 600, 1000, &vec![], &boxes, 0, &FusionConfig::standard()).unwrap();
    assert_eq!(page.elements.len(), 1);
    assert_eq!(page.elements[0].kind, ElementType::Image);
    assert_eq!(page.elements[0].bbox, bbox(100, 100, 400, 300));
    assert_eq!(page.elements[0].text_block.text, "");
    assert!(!page.elements[0].needs_ocr);
    assert!(!page.need_ocr);
}

#[test]
fn a_scanned_page_takes_its_text_from_recognition() {
    let boxes = vec![
        detection(LayoutClass::Text, bbox(100, 100, 500, 200), 9000),
        detection(LayoutClass::Text, bbox(100, 300, 500, 400), 9000),
    ];
    let plan = plan_page(&vec![], &boxes, &FusionConfig::standard());
    assert!(plan.regions.iter().all(|r| r.needs_ocr));
    let ocr = vec![vec![
        OCRLines { text: "read".into(), confidence: 9000, bbox: bbox(100, 100, 500, 120) },
        OCRLines { text: "off".into(), confidence: 8000, bbox: bbox(100, 130, 500, 150) },
    ]];
    let page = build_page(0, 600, 1000, &vec![], &plan, &ocr, 10);
    assert!(page.need_ocr);
    assert_eq!(page.elements[0].text_block.text, "read off");
    assert_eq!(page.elements[0].text_block.font_size, 20);
    assert!(page.elements[0].needs_ocr);
    assert_eq!(page.elements[0].bbox, bbox(100, 100, 500, 200));
    // nothing was read for the second region
    assert_eq!(page.elements[1].text_block.text, "");
    assert!(page.elements[1].needs_ocr);
    assert_eq!(page.elements[1].id, 11);
    // without recognition at all
    let bare = fuse_page(0, 600, 1000, &vec![], &boxes, 0, &FusionConfig::standard()).unwrap();
    assert!(bare.need_ocr);
    assert!(bare.elements.iter().all(|e| e.needs_ocr && e.text_block.text.is_empty()));
}

#[test]
fn element_ids_must_fit() {
    let boxes = vec![detection(LayoutClass::Picture, bbox(100, 100, 400, 300), 9500)];
    assert!(fuse_page(0, 600, 1000, &vec![], &boxes, usize::MAX, &FusionConfig::standard()).is_none());
    assert!(fuse_page(0, 600, 1000, &vec![], &boxes, usize::MAX - 1, &FusionConfig::standard()).is_some());
}

#[test]
fn a_recognised_line_is_a_line_of_one_span() {
    let l = OCRLines { text: "seen".into(), confidence: 9000, bbox: bbox(10, 20, 110, 36) }.to_line();
    assert_eq!(l.text, "seen");
    assert_eq!(l.rotation, 0);
    assert_eq!(l.bbox, bbox(10, 20, 110, 36));
    assert_eq!(l.spans.len(), 1);
    assert_eq!(l.spans[0].font_size, 16);
    assert_eq!(l.font_size(), 16);
}

#[test]
fn buffers_are_lent_and_come_back() {
    let mut pool = BufferPool::new(vec!["a", "b"]);
    assert!(pool.is_quiesced());
    assert_eq!(pool.capacity(), 2);
    assert_eq!(pool.try_get(), Some("b"));
    assert!(!pool.is_quiesced());
    assert_eq!(pool.try_get(), Some("a"));
    assert_eq!(pool.try_get(), None);
    assert_eq!(pool.available(), 0);
    assert_eq!(pool.put("b"), Ok(()));
    assert_eq!(pool.put("a"), Ok(()));
    assert!(pool.is_quiesced());
    // a buffer that is not the pool's own is handed back
    assert_eq!(pool.put("c"), Err("c"));
    assert_eq!(pool.available(), 2);
    assert_eq!(pool.try_get(), Some("a"));
}

#[test]
fn a_pending_result_wakes_once_and_is_taken_once() {
    let s = InferenceState::new();
    assert_eq!(s, InferenceState::Pending);
    let (s, action) = s.on_poll();
    assert_eq!((s, action), (InferenceState::WakerSet, PollAction::StoreWaker));
    let (s, wake) = s.on_complete();
    assert_eq!((s, wake), (InferenceState::Ready, true));
    let (s, wake) = s.on_complete();
    assert_eq!((s, wake), (InferenceState::Ready, false));
    let (s, action) = s.on_poll();
    assert_eq!((s, action), (InferenceState::Done, PollAction::TakeValue));
    assert_eq!(s.on_poll(), (InferenceState::Done, PollAction::StoreWaker));
    assert_eq!(s.on_complete(), (InferenceState::Done, false));
    // completion before the first poll wakes nobody
    assert_eq!(InferenceState::Pending.on_complete(), (InferenceState::Ready, false));
    // a dropped future is not woken
    let dropped = InferenceState::WakerSet.on_drop();
    assert_eq!(dropped, InferenceState::Pending);
    assert_eq!(dropped.on_complete(), (InferenceState::Ready, false));
    assert_eq!(InferenceState::Ready.on_drop(), InferenceState::Ready);
}

#[test]
fn providers_are_listed_in_their_order() {
    let none = EpArgs { trt: false, cuda: false, coreml: false, use_ane: true, device_id: 0 };
    assert_eq!(parse_ep_args(&none), vec![OrtExecutionProvider::CPU]);
    let all = EpArgs { trt: true, cuda: true, coreml: true, use_ane: false, device_id: 2 };
    assert_eq!(
        parse_ep_args(&all),
        vec![
            OrtExecutionProvider::Trt(2),
            OrtExecutionProvider::CUDA(2),
            OrtExecutionProvider::CoreML { ane_only: false },
            OrtExecutionProvider::CPU,
        ]
    );
    let config = ORTConfig {
        execution_providers: parse_ep_args(&all),
        intra_threads: 16,
        inter_threads: 4,
        opt_level: GraphOptLevel::from_index(3),
    };
    let copy = config.clone();
    assert_eq!(copy.execution_providers, config.execution_providers);
    assert_eq!(copy.permits(), 16);
    assert_eq!(copy.opt_level, Some(GraphOptLevel::Level3));
    assert_eq!(GraphOptLevel::from_index(0), None);
    assert_eq!(GraphOptLevel::from_index(1), Some(GraphOptLevel::Level1));
    assert_eq!(GraphOptLevel::from_index(2), Some(GraphOptLevel::Level2));
    assert_eq!(GraphOptLevel::from_index(4), None);
}

#[test]
fn names_are_made_fit_for_directories() {
    assert_eq!(sanitize_doc_name("my doc (v2)!.pdf"), "mydoc-v2---pdf");
    assert_eq!(sanitize_doc_name("a-b_c"), "a-b_c");
    assert_eq!(sanitize_doc_name("été\t2024\u{a0}№5"), "été2024-5");
    assert_eq!(sanitize_doc_name(""), "");
    assert_eq!(results_dir_name("my report"), "myreport-results");
    assert_eq!(sanitize_char('x', true), Some('x'));
    assert_eq!(sanitize_char('-', false), Some('-'));
    assert_eq!(sanitize_char('_', false), Some('_'));
    assert_eq!(sanitize_char(' ', false), None);
    assert_eq!(sanitize_char('!', false), Some('-'));
}

#[test]
fn documents_are_named_after_their_files() {
    assert_eq!(doc_name_or(Some("paper.v2.pdf"), "x".into()), "paper");
    assert_eq!(doc_name_or(Some("paper"), "x".into()), "paper");
    assert_eq!(doc_name_or(Some(".hidden"), "x".into()), "");
    assert_eq!(doc_name_or(None, "fallback".into()), "fallback");
    assert_eq!(doc_name(Some("paper.pdf")), "paper");
    let random = doc_name(None);
    assert_eq!(random.chars().count(), 36);
    assert_ne!(random, doc_name(None));
    assert_eq!(crop_file_name(3, 0), "page_3_img_0.png");
    assert_eq!(crop_file_name(12, 34), "page_12_img_34.png");
}

#[test]
fn crops_are_padded_and_held_on_the_page() {
    assert_eq!(
        crop_rect(&bbox(100, 200, 300, 260), 600, 800, 5),
        CropRect { x: 95, y: 195, width: 210, height: 70 }
    );
    assert_eq!(
        crop_rect(&bbox(2, 3, 700, 900), 600, 800, 5),
        CropRect { x: 0, y: 0, width: 600, height: 800 }
    );
    assert_eq!(
        crop_rect(&bbox(10, 10, 10, 10), 600, 800, 5),
        CropRect { x: 5, y: 5, width: 11, height: 11 }
    );
}

#[test]
fn the_images_of_a_document_are_listed_for_cropping() {
    let block = |id: usize, kind: BlockType, pages: Vec<usize>| Block {
        id,
        kind,
        pages_id: pages,
        bbox: bbox(100, 200, 300, 260),
    };
    let doc = ParsedDocument {
        doc_name: "d".into(),
        pages: vec![
            Page { id: 2, width: 600, height: 800, need_ocr: false },
            Page { id: 3, width: 250, height: 800, need_ocr: false },
        ],
        blocks: vec![
            block(0, BlockType::Image(ImageBlock { id: 0, caption: None }), vec![3]),
            block(1, BlockType::TextBlock(TextBlock { text: "t".into() }), vec![2]),
            block(2, BlockType::Image(ImageBlock { id: 1, caption: None }), vec![9]),
            block(3, BlockType::Table, vec![2]),
            block(4, BlockType::Image(ImageBlock { id: 2, caption: None }), vec![2, 3]),
        ],
        debug_path: None,
        metadata: DocumentMetadata::new(0),
    };
    let crops = image_crops(&doc, 5);
    let got: Vec<(usize, usize, CropRect, &str)> = crops
        .iter()
        .map(|c| (c.page_id, c.image_no, c.rect, c.file_name.as_str()))
        .collect();
    assert_eq!(
        got,
        vec![
            (3, 0, CropRect { x: 95, y: 195, width: 210, height: 70 }, "page_3_img_0.png"),
            (2, 1, CropRect { x: 95, y: 195, width: 210, height: 70 }, "page_2_img_1.png"),
        ]
    );
}

#[test]
fn a_full_queue_hands_the_item_back() {
    let mut q = BoundedQueue::new(3);
    assert_eq!(q.capacity(), 3);
    for i in 0..3 {
        assert_eq!(q.try_send(i), Ok(()));
    }
    assert!(q.is_full());
    // one more than fits: not taken, not dropped
    assert_eq!(q.try_send(3), Err(3));
    assert_eq!(q.try_send(4), Err(4));
    assert_eq!(q.len(), 3);
    // the consumer takes one out: there is room again, and the order is kept
    assert_eq!(q.try_recv(), Some(0));
    assert_eq!(q.try_send(3), Ok(()));
    assert_eq!(q.try_recv(), Some(1));
    assert_eq!(q.try_recv(), Some(2));
    assert_eq!(q.try_recv(), Some(3));
    assert_eq!(q.try_recv(), None);
    let mut none = BoundedQueue::new(0);
    assert_eq!(none.try_send('x'), Err('x'));
}

#[test]
fn every_page_has_element_ids_of_its_own() {
    assert_eq!(first_element_id(0, 10, IDS_PER_PAGE), Some(0));
    assert_eq!(first_element_id(3, 10, IDS_PER_PAGE), Some(3 * IDS_PER_PAGE));
    assert_eq!(first_element_id(3, IDS_PER_PAGE, IDS_PER_PAGE), Some(3 * IDS_PER_PAGE));
    assert_eq!(first_element_id(3, IDS_PER_PAGE + 1, IDS_PER_PAGE), None);
    assert_eq!(first_element_id(usize::MAX, 1, IDS_PER_PAGE), None);
    assert_eq!(first_element_id(usize::MAX, 0, 1), Some(usize::MAX));
    assert_eq!(first_element_id(usize::MAX, 1, 1), None);
    let boxes = vec![detection(LayoutClass::Picture, bbox(100, 100, 400, 300), 9500)];
    let plan = plan_page(&vec![], &boxes, &FusionConfig::standard());
    let page = build_numbered_page(2, 600, 1000, &vec![], &plan, &vec![], 100).unwrap();
    assert_eq!(page.elements[0].id, 200);
    assert!(build_numbered_page(2, 600, 1000, &vec![], &plan, &vec![], 0).is_none());
}

#[test]
fn the_box_of_a_recognised_element_encloses_what_was_read() {
    let boxes = vec![detection(LayoutClass::Text, bbox(100, 100, 500, 200), 9000)];
    let plan = plan_page(&vec![], &boxes, &FusionConfig::standard());
    let ocr = vec![vec![
        OCRLines { text: "a".into(), confidence: 9000, bbox: bbox(90, 110, 400, 130) },
        OCRLines { text: "b".into(), confidence: 9000, bbox: bbox(100, 140, 520, 210) },
    ]];
    let page = build_page(0, 600, 1000, &vec![], &plan, &ocr, 0);
    assert_eq!(page.elements[0].bbox, bbox(90, 100, 520, 210));
    assert_eq!(page.elements[0].text_block.text, "a b");
}

#[test]
fn the_record_of_a_page_holds_its_frame_and_its_factor() {
    let chars = word("hello", 100, 50, 1, 12);
    let r = native_page_result(4, 600, 800, 1024, 1024, &chars, 17).unwrap();
    assert_eq!(r.page_id, 4);
    assert_eq!(r.page_bbox, bbox(0, 0, 600, 800));
    assert_eq!(r.downscale_factor, Ratio { num: 800, den: 1024 });
    assert_eq!(r.text_lines.len(), 1);
    assert_eq!(r.text_lines[0].text, "hello");
    assert_eq!(r.metadata.parse_native_duration_ms, 17);
    assert!(native_page_result(4, 0, 800, 1024, 1024, &chars, 17).is_none());
}

#[test]
fn a_range_beyond_the_document_fails_even_when_it_is_reversed() {
    assert!(matches!(select_pages(10, Some(12..11)), Err(FerrulesError::ParseNativeError)));
    assert!(matches!(select_pages(10, Some(3..11)), Err(FerrulesError::ParseNativeError)));
    assert_eq!(select_pages(10, Some(4..4)).unwrap(), 4..4);
}
