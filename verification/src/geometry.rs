//! Axis-aligned rectangles on the integer grid of page units.

use vstd::prelude::*;

verus! {

/// A non-negative rational `num / den`: a scale factor or a threshold.
#[derive(Clone, Copy, Debug, PartialEq, Eq, Structural)]
pub struct Ratio {
    pub num: u32,
    pub den: u32,
}

impl Ratio {
    /// The denominator is not zero.
    pub open spec fn valid(&self) -> bool {
        self.den > 0
    }

    /// The factor that undoes this one.
    pub open spec fn spec_inverse(&self) -> Ratio {
        Ratio { num: self.den, den: self.num }
    }

    /// `value * num / den`, rounded down.
    pub open spec fn spec_apply(&self, value: int) -> int {
        (value * self.num) / (self.den as int)
    }

    pub fn one() -> (r: Ratio)
        ensures
            r == (Ratio { num: 1, den: 1 }),
    {
        Ratio { num: 1, den: 1 }
    }

    pub fn inverse(&self) -> (r: Ratio)
        ensures
            r == self.spec_inverse(),
    {
        Ratio { num: self.den, den: self.num }
    }

    /// `value * num / den`, rounded down, in 64 bits.
    pub fn apply(&self, value: u32) -> (r: u64)
        requires
            self.valid(),
        ensures
            r == self.spec_apply(value as int),
    {
        let wide: u64 = value as u64;
        let num: u64 = self.num as u64;
        assert(wide * num <= 0xFFFF_FFFF * 0xFFFF_FFFF) by (nonlinear_arith)
            requires
                0 <= wide <= 0xFFFF_FFFF,
                0 <= num <= 0xFFFF_FFFF,
        ;
        (wide * num) / (self.den as u64)
    }
}

/// A rectangle with corners `(x0, y0)` and `(x1, y1)`, `y` growing downwards.
#[derive(Clone, Copy, Debug, PartialEq, Eq, Structural)]
pub struct BBox {
    pub x0: u32,
    pub y0: u32,
    pub x1: u32,
    pub y1: u32,
}

pub open spec fn spec_min(a: int, b: int) -> int {
    if a <= b {
        a
    } else {
        b
    }
}

pub open spec fn spec_max(a: int, b: int) -> int {
    if a >= b {
        a
    } else {
        b
    }
}

impl BBox {
    /// The rectangle has a positive width and a positive height.
    pub open spec fn valid(&self) -> bool {
        self.x0 < self.x1 && self.y0 < self.y1
    }

    /// Extent along `x`; zero where the corners are out of order.
    pub open spec fn spec_width(&self) -> int {
        spec_max(0, self.x1 - self.x0)
    }

    /// Extent along `y`; zero where the corners are out of order.
    pub open spec fn spec_height(&self) -> int {
        spec_max(0, self.y1 - self.y0)
    }

    pub open spec fn spec_area(&self) -> int {
        self.spec_width() * self.spec_height()
    }

    /// The smallest rectangle that encloses both.
    pub open spec fn hull(&self, other: BBox) -> BBox {
        BBox {
            x0: if self.x0 <= other.x0 {
                self.x0
            } else {
                other.x0
            },
            y0: if self.y0 <= other.y0 {
                self.y0
            } else {
                other.y0
            },
            x1: if self.x1 >= other.x1 {
                self.x1
            } else {
                other.x1
            },
            y1: if self.y1 >= other.y1 {
                self.y1
            } else {
                other.y1
            },
        }
    }

    /// `other` lies inside this rectangle, borders included.
    pub open spec fn encloses(&self, other: BBox) -> bool {
        self.x0 <= other.x0 && self.y0 <= other.y0 && other.x1 <= self.x1 && other.y1 <= self.y1
    }

    /// The point lies inside this rectangle, borders included.
    pub open spec fn spec_contains_point(&self, x: int, y: int) -> bool {
        self.x0 <= x <= self.x1 && self.y0 <= y <= self.y1
    }

    /// Length of the stretch of the `x` axis that both rectangles cover.
    pub open spec fn spec_overlap_x(&self, other: BBox) -> int {
        spec_max(0, spec_min(self.x1 as int, other.x1 as int) - spec_max(self.x0 as int, other.x0 as int))
    }

    /// Length of the stretch of the `y` axis that both rectangles cover.
    pub open spec fn spec_overlap_y(&self, other: BBox) -> int {
        spec_max(0, spec_min(self.y1 as int, other.y1 as int) - spec_max(self.y0 as int, other.y0 as int))
    }

    pub open spec fn spec_intersect_area(&self, other: BBox) -> int {
        self.spec_overlap_x(other) * self.spec_overlap_y(other)
    }

    pub open spec fn spec_union_area(&self, other: BBox) -> int {
        self.spec_area() + other.spec_area() - self.spec_intersect_area(other)
    }

    /// Intersection over union is at least `num / den`.
    pub open spec fn spec_iou_at_least(&self, other: BBox, threshold: Ratio) -> bool {
        self.spec_intersect_area(other) * threshold.den >= threshold.num * self.spec_union_area(other)
    }

    /// Free space between the two rectangles along the `x` axis, zero where they overlap.
    pub open spec fn spec_gap_x(&self, other: BBox) -> int {
        spec_max(0, spec_max(self.x0 as int, other.x0 as int) - spec_min(self.x1 as int, other.x1 as int))
    }

    /// Free space between the two rectangles along the `y` axis, zero where they overlap.
    pub open spec fn spec_gap_y(&self, other: BBox) -> int {
        spec_max(0, spec_max(self.y0 as int, other.y0 as int) - spec_min(self.y1 as int, other.y1 as int))
    }

    /// City-block distance between the two rectangles.
    pub open spec fn spec_distance(&self, other: BBox) -> int {
        self.spec_gap_x(other) + self.spec_gap_y(other)
    }

    pub open spec fn spec_center_x(&self) -> int {
        (self.x0 + self.x1) / 2
    }

    pub open spec fn spec_center_y(&self) -> int {
        (self.y0 + self.y1) / 2
    }

    /// Every coordinate multiplied by `factor` and rounded down; `None` where
    /// the factor has no value, a coordinate leaves the grid or the rectangle
    /// collapses.
    pub open spec fn spec_scale(&self, factor: Ratio) -> Option<BBox> {
        let x0 = factor.spec_apply(self.x0 as int);
        let y0 = factor.spec_apply(self.y0 as int);
        let x1 = factor.spec_apply(self.x1 as int);
        let y1 = factor.spec_apply(self.y1 as int);
        if factor.den > 0 && x0 < x1 && y0 < y1 && x1 <= u32::MAX && y1 <= u32::MAX {
            Some(BBox { x0: x0 as u32, y0: y0 as u32, x1: x1 as u32, y1: y1 as u32 })
        } else {
            None
        }
    }

    /// The rectangle with these corners, where they span a positive area.
    pub fn new(x0: u32, y0: u32, x1: u32, y1: u32) -> (r: Option<BBox>)
        ensures
            r == (if x0 < x1 && y0 < y1 {
                Some(BBox { x0, y0, x1, y1 })
            } else {
                None
            }),
    {
        if x0 < x1 && y0 < y1 {
            Some(BBox { x0, y0, x1, y1 })
        } else {
            None
        }
    }

    pub fn width(&self) -> (w: u32)
        ensures
            w == self.spec_width(),
    {
        if self.x1 > self.x0 {
            self.x1 - self.x0
        } else {
            0
        }
    }

    pub fn height(&self) -> (h: u32)
        ensures
            h == self.spec_height(),
    {
        if self.y1 > self.y0 {
            self.y1 - self.y0
        } else {
            0
        }
    }

    pub fn area(&self) -> (a: u64)
        ensures
            a == self.spec_area(),
    {
        let w: u64 = self.width() as u64;
        let h: u64 = self.height() as u64;
        assert(0 <= w * h <= 0xFFFF_FFFF * 0xFFFF_FFFF) by (nonlinear_arith)
            requires
                0 <= w <= 0xFFFF_FFFF,
                0 <= h <= 0xFFFF_FFFF,
        ;
        w * h
    }

    pub fn center_x(&self) -> (c: u32)
        ensures
            c == self.spec_center_x(),
    {
        ((self.x0 as u64 + self.x1 as u64) / 2) as u32
    }

    pub fn center_y(&self) -> (c: u32)
        ensures
            c == self.spec_center_y(),
    {
        ((self.y0 as u64 + self.y1 as u64) / 2) as u32
    }

    /// Grows this rectangle to the smallest one that also encloses `other`.
    pub fn merge(&mut self, other: &BBox)
        ensures
            *final(self) == old(self).hull(*other),
    {
        if other.x0 < self.x0 {
            self.x0 = other.x0;
        }
        if other.y0 < self.y0 {
            self.y0 = other.y0;
        }
        if other.x1 > self.x1 {
            self.x1 = other.x1;
        }
        if other.y1 > self.y1 {
            self.y1 = other.y1;
        }
    }

    pub fn contains(&self, other: &BBox) -> (b: bool)
        ensures
            b == self.encloses(*other),
    {
        self.x0 <= other.x0 && self.y0 <= other.y0 && other.x1 <= self.x1 && other.y1 <= self.y1
    }

    pub fn contains_point(&self, x: u32, y: u32) -> (b: bool)
        ensures
            b == self.spec_contains_point(x as int, y as int),
    {
        self.x0 <= x && x <= self.x1 && self.y0 <= y && y <= self.y1
    }

    pub fn overlap_x(&self, other: &BBox) -> (w: u32)
        ensures
            w == self.spec_overlap_x(*other),
    {
        let hi: u32 = if self.x1 <= other.x1 {
            self.x1
        } else {
            other.x1
        };
        let lo: u32 = if self.x0 >= other.x0 {
            self.x0
        } else {
            other.x0
        };
        if hi > lo {
            hi - lo
        } else {
            0
        }
    }

    pub fn overlap_y(&self, other: &BBox) -> (h: u32)
        ensures
            h == self.spec_overlap_y(*other),
    {
        let hi: u32 = if self.y1 <= other.y1 {
            self.y1
        } else {
            other.y1
        };
        let lo: u32 = if self.y0 >= other.y0 {
            self.y0
        } else {
            other.y0
        };
        if hi > lo {
            hi - lo
        } else {
            0
        }
    }

    pub fn intersect_area(&self, other: &BBox) -> (a: u64)
        ensures
            a == self.spec_intersect_area(*other),
    {
        let w: u64 = self.overlap_x(other) as u64;
        let h: u64 = self.overlap_y(other) as u64;
        assert(0 <= w * h <= 0xFFFF_FFFF * 0xFFFF_FFFF) by (nonlinear_arith)
            requires
                0 <= w <= 0xFFFF_FFFF,
                0 <= h <= 0xFFFF_FFFF,
        ;
        w * h
    }

    /// Whether intersection over union reaches `threshold`, decided without division.
    pub fn iou_at_least(&self, other: &BBox, threshold: Ratio) -> (b: bool)
        ensures
            b == self.spec_iou_at_least(*other, threshold),
    {
        let inter: u64 = self.intersect_area(other);
        let a: u64 = self.area();
        let o: u64 = other.area();
        proof {
            lemma_intersection_bounded(*self, *other);
        }
        let union: u128 = (a as u128) + (o as u128) - (inter as u128);
        let den: u128 = threshold.den as u128;
        let num: u128 = threshold.num as u128;
        let wide: u128 = inter as u128;
        assert(wide * den <= 0xFFFF_FFFF_FFFF_FFFF * 0xFFFF_FFFF) by (nonlinear_arith)
            requires
                0 <= wide <= 0xFFFF_FFFF_FFFF_FFFF,
                0 <= den <= 0xFFFF_FFFF,
        ;
        assert(num * union <= 0xFFFF_FFFF * 0x1_FFFF_FFFF_FFFF_FFFE) by (nonlinear_arith)
            requires
                0 <= union <= 0x1_FFFF_FFFF_FFFF_FFFE,
                0 <= num <= 0xFFFF_FFFF,
        ;
        wide * den >= num * union
    }

    pub fn distance(&self, other: &BBox) -> (d: u64)
        ensures
            d == self.spec_distance(*other),
    {
        let lo_x: u32 = if self.x1 <= other.x1 {
            self.x1
        } else {
            other.x1
        };
        let hi_x: u32 = if self.x0 >= other.x0 {
            self.x0
        } else {
            other.x0
        };
        let lo_y: u32 = if self.y1 <= other.y1 {
            self.y1
        } else {
            other.y1
        };
        let hi_y: u32 = if self.y0 >= other.y0 {
            self.y0
        } else {
            other.y0
        };
        let gx: u64 = if hi_x > lo_x {
            (hi_x - lo_x) as u64
        } else {
            0
        };
        let gy: u64 = if hi_y > lo_y {
            (hi_y - lo_y) as u64
        } else {
            0
        };
        gx + gy
    }

    /// Multiplies every coordinate by `factor`, rounding down.
    pub fn scale(&self, factor: Ratio) -> (r: Option<BBox>)
        ensures
            r == self.spec_scale(factor),
    {
        if factor.den == 0 {
            return None;
        }
        let x0: u64 = factor.apply(self.x0);
        let y0: u64 = factor.apply(self.y0);
        let x1: u64 = factor.apply(self.x1);
        let y1: u64 = factor.apply(self.y1);
        if x0 < x1 && y0 < y1 && x1 <= 0xFFFF_FFFF && y1 <= 0xFFFF_FFFF {
            Some(BBox { x0: x0 as u32, y0: y0 as u32, x1: x1 as u32, y1: y1 as u32 })
        } else {
            None
        }
    }
}

/// The area that two rectangles share is no larger than either of them.
pub proof fn lemma_intersection_bounded(a: BBox, b: BBox)
    ensures
        0 <= a.spec_intersect_area(b) <= a.spec_area(),
        a.spec_intersect_area(b) <= b.spec_area(),
        b.valid() ==> a.spec_union_area(b) > 0,
{
    let w = a.spec_overlap_x(b);
    let h = a.spec_overlap_y(b);
    let aw = a.spec_width();
    let ah = a.spec_height();
    let bw = b.spec_width();
    let bh = b.spec_height();
    assert(0 <= w * h <= aw * ah && w * h <= bw * bh) by (nonlinear_arith)
        requires
            0 <= w <= aw,
            0 <= h <= ah,
            w <= bw,
            h <= bh,
    ;
    if b.valid() {
        assert(bw * bh > 0) by (nonlinear_arith)
            requires
                bw > 0,
                bh > 0,
        ;
    }
}

/// Merging a rectangle with itself changes nothing.
pub proof fn lemma_merge_idempotent(b: BBox)
    ensures
        b.hull(b) == b,
{
}

/// The hull of two rectangles encloses both, and is the least rectangle that does.
pub proof fn lemma_hull_encloses(a: BBox, b: BBox)
    ensures
        a.hull(b).encloses(a),
        a.hull(b).encloses(b),
        forall|c: BBox| c.encloses(a) && c.encloses(b) ==> #[trigger] c.encloses(a.hull(b)),
        a.valid() ==> a.hull(b).valid(),
{
}

/// Scaling by one changes nothing.
pub proof fn lemma_scale_identity(b: BBox)
    requires
        b.valid(),
    ensures
        b.spec_scale(Ratio { num: 1, den: 1 }) == Some(b),
{
}

/// Scaling a coordinate by a factor and then by its inverse never grows it, and
/// loses less than `1 + den / num` page units.
pub proof fn lemma_scale_round_trip_coord(x: int, factor: Ratio)
    requires
        0 <= x,
        factor.num > 0,
        factor.den > 0,
    ensures
        ({
            let there = factor.spec_apply(x);
            let back = factor.spec_inverse().spec_apply(there);
            &&& 0 <= back <= x
            &&& (x - back) * factor.num < factor.num + factor.den
        }),
{
    let n = factor.num as int;
    let d = factor.den as int;
    let there = (x * n) / d;
    let back = (there * d) / n;
    assert(there * d <= x * n < there * d + d && there >= 0) by (nonlinear_arith)
        requires
            there == (x * n) / d,
            d > 0,
            x * n >= 0,
    ;
    assert(x * n >= 0) by (nonlinear_arith)
        requires
            x >= 0,
            n > 0,
    ;
    assert(back * n <= there * d < back * n + n && back >= 0) by (nonlinear_arith)
        requires
            back == (there * d) / n,
            n > 0,
            there * d >= 0,
    ;
    assert(there * d >= 0) by (nonlinear_arith)
        requires
            there >= 0,
            d > 0,
    ;
    assert(back <= x) by (nonlinear_arith)
        requires
            back * n <= x * n,
            n > 0,
    ;
    assert((x - back) * n == x * n - back * n) by (nonlinear_arith);
}

/// Scaling a rectangle by a factor and then by its inverse gives, where both
/// steps stay on the grid, a rectangle whose every coordinate lies at or below
/// the one it started from and less than `1 + den / num` page units away from it.
pub proof fn lemma_scale_round_trip(b: BBox, factor: Ratio)
    requires
        b.valid(),
        factor.num > 0,
        factor.den > 0,
        b.spec_scale(factor) is Some,
        b.spec_scale(factor).unwrap().spec_scale(factor.spec_inverse()) is Some,
    ensures
        ({
            let back = b.spec_scale(factor).unwrap().spec_scale(factor.spec_inverse()).unwrap();
            &&& back.x0 <= b.x0 && (b.x0 - back.x0) * factor.num < factor.num + factor.den
            &&& back.y0 <= b.y0 && (b.y0 - back.y0) * factor.num < factor.num + factor.den
            &&& back.x1 <= b.x1 && (b.x1 - back.x1) * factor.num < factor.num + factor.den
            &&& back.y1 <= b.y1 && (b.y1 - back.y1) * factor.num < factor.num + factor.den
        }),
{
    lemma_scale_round_trip_coord(b.x0 as int, factor);
    lemma_scale_round_trip_coord(b.y0 as int, factor);
    lemma_scale_round_trip_coord(b.x1 as int, factor);
    lemma_scale_round_trip_coord(b.y1 as int, factor);
}

} // verus!
