use ferrules::geometry::{BBox, Ratio};
use ferrules::order::sort_by_key;
use ferrules::strings::{decimal, is_whitespace, trim};

fn bbox(x0: u32, y0: u32, x1: u32, y1: u32) -> BBox {
    BBox { x0, y0, x1, y1 }
}

#[test]
fn new_wants_a_positive_area() {
    assert_eq!(BBox::new(1, 2, 3, 4), Some(bbox(1, 2, 3, 4)));
    assert_eq!(BBox::new(3, 2, 3, 4), None);
    assert_eq!(BBox::new(1, 5, 3, 4), None);
}

#[test]
fn merge_gives_the_smallest_enclosing_rectangle() {
    let mut a = bbox(10, 20, 30, 40);
    a.merge(&bbox(5, 25, 20, 60));
    assert_eq!(a, bbox(5, 20, 30, 60));
    assert!(a.contains(&bbox(10, 20, 30, 40)));
    assert!(a.contains(&bbox(5, 25, 20, 60)));
}

#[test]
fn merge_with_itself_changes_nothing() {
    let mut a = bbox(10, 20, 30, 40);
    a.merge(&bbox(10, 20, 30, 40));
    assert_eq!(a, bbox(10, 20, 30, 40));
}

#[test]
fn scale_by_one_changes_nothing() {
    let a = bbox(10, 20, 30, 40);
    assert_eq!(a.scale(Ratio::one()), Some(a));
    assert_eq!(a.scale(Ratio { num: 7, den: 7 }), Some(a));
}

#[test]
fn scale_multiplies_and_rounds_down() {
    let a = bbox(10, 20, 31, 41);
    assert_eq!(a.scale(Ratio { num: 3, den: 2 }), Some(bbox(15, 30, 46, 61)));
    assert_eq!(a.scale(Ratio { num: 1, den: 2 }), Some(bbox(5, 10, 15, 20)));
}

#[test]
fn scale_refuses_what_leaves_the_grid_or_collapses() {
    assert_eq!(bbox(0, 0, u32::MAX, 10).scale(Ratio { num: 2, den: 1 }), None);
    assert_eq!(bbox(10, 10, 11, 11).scale(Ratio { num: 1, den: 100 }), None);
}

#[test]
fn scale_there_and_back_stays_within_the_tolerance() {
    let factor = Ratio { num: 3, den: 7 };
    for x in [10u32, 99, 1000, 12345] {
        let a = bbox(x, x + 1, x + 500, x + 900);
        let there = a.scale(factor).unwrap();
        let back = there.scale(factor.inverse()).unwrap();
        for (orig, got) in [(a.x0, back.x0), (a.y0, back.y0), (a.x1, back.x1), (a.y1, back.y1)] {
            assert!(got <= orig);
            assert!(((orig - got) as u64) * 3 < 3 + 7);
        }
    }
}

#[test]
fn areas_and_overlaps() {
    let a = bbox(0, 0, 10, 10);
    let b = bbox(5, 5, 15, 15);
    assert_eq!(a.width(), 10);
    assert_eq!(a.height(), 10);
    assert_eq!(a.area(), 100);
    assert_eq!(a.intersect_area(&b), 25);
    assert_eq!(a.overlap_x(&b), 5);
    assert_eq!(a.overlap_y(&b), 5);
    assert_eq!(a.intersect_area(&bbox(20, 20, 30, 30)), 0);
    assert_eq!(bbox(7, 0, 3, 10).width(), 0);
    assert_eq!(bbox(7, 0, 3, 10).area(), 0);
}

#[test]
fn iou_is_compared_without_division() {
    let a = bbox(0, 0, 10, 10);
    let b = bbox(5, 5, 15, 15);
    // intersection 25, union 175: a seventh
    assert!(a.iou_at_least(&b, Ratio { num: 1, den: 7 }));
    assert!(!a.iou_at_least(&b, Ratio { num: 1, den: 6 }));
    assert!(a.iou_at_least(&a, Ratio { num: 1, den: 1 }));
    assert!(!a.iou_at_least(&bbox(20, 20, 30, 30), Ratio { num: 1, den: 1000 }));
}

#[test]
fn points_and_centers() {
    let a = bbox(10, 20, 31, 40);
    assert_eq!(a.center_x(), 20);
    assert_eq!(a.center_y(), 30);
    assert!(a.contains_point(10, 20));
    assert!(a.contains_point(31, 40));
    assert!(!a.contains_point(9, 20));
    assert!(!a.contains_point(10, 41));
}

#[test]
fn distance_is_the_gap_along_both_axes() {
    let a = bbox(0, 0, 10, 10);
    assert_eq!(a.distance(&bbox(15, 0, 20, 10)), 5);
    assert_eq!(a.distance(&bbox(15, 17, 20, 30)), 12);
    assert_eq!(a.distance(&bbox(5, 5, 20, 30)), 0);
}

#[test]
fn ratio_applies_and_inverts() {
    let r = Ratio { num: 3, den: 4 };
    assert_eq!(r.apply(10), 7);
    assert_eq!(r.inverse(), Ratio { num: 4, den: 3 });
    assert_eq!(Ratio { num: u32::MAX, den: 1 }.apply(u32::MAX), (u32::MAX as u64) * (u32::MAX as u64));
}

#[test]
fn sort_is_stable_and_ascending() {
    let sorted = sort_by_key(vec![5u32, 3, 9, 3, 1]);
    assert_eq!(sorted, vec![1, 3, 3, 5, 9]);
    assert_eq!(sort_by_key(Vec::<u32>::new()), Vec::<u32>::new());
}

#[test]
fn trim_agrees_with_the_standard_library() {
    let samples = [
        "", " ", "a", "  a b  ", "\t\n x \r\n", "\u{a0}x\u{2003}", "\u{3000}\u{85}", "x\u{200b}",
        " \u{1680}mid dle\u{205f} ",
    ];
    for s in samples {
        assert_eq!(trim(s), s.trim(), "for {:?}", s);
    }
}

#[test]
fn whitespace_agrees_with_the_standard_library() {
    for u in 0u32..0x3100 {
        if let Some(c) = char::from_u32(u) {
            assert_eq!(is_whitespace(c), c.is_whitespace(), "for U+{:04X}", u);
        }
    }
}

#[test]
fn decimal_writes_numbers() {
    assert_eq!(decimal(0), "0");
    assert_eq!(decimal(7), "7");
    assert_eq!(decimal(10), "10");
    assert_eq!(decimal(1234567890), "1234567890");
    assert_eq!(decimal(usize::MAX), usize::MAX.to_string());
}
