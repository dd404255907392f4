//! Integer geometry shared by outputs, windows and damage.

use vstd::prelude::*;

verus! {

/// Width and height, in the unit of the space the value lives in.
#[derive(Clone, Copy, Debug, PartialEq, Eq, Structural)]
pub struct Size {
    pub w: i32,
    pub h: i32,
}

/// A position.
#[derive(Clone, Copy, Debug, PartialEq, Eq, Structural)]
pub struct Point {
    pub x: i32,
    pub y: i32,
}

/// A rectangle given by its top-left corner and its dimensions.
#[derive(Clone, Copy, Debug, PartialEq, Eq, Structural)]
pub struct Rect {
    pub loc: Point,
    pub size: Size,
}

/// Size of a window as the display server reports it.
#[derive(Clone, Copy, Debug, PartialEq, Eq, Structural)]
pub struct WindowSize {
    pub w: u16,
    pub h: u16,
}

impl WindowSize {
    /// The same extent as a pixel size.
    pub open spec fn pixels(self) -> Size {
        Size { w: self.w as i32, h: self.h as i32 }
    }

    /// The same extent as a pixel size.
    pub fn to_size(self) -> (size: Size)
        ensures
            size == self.pixels(),
    {
        Size { w: self.w as i32, h: self.h as i32 }
    }
}

/// The `i32` nearest to `v`.
pub open spec fn clamp_i32(v: int) -> i32 {
    if v > i32::MAX {
        i32::MAX
    } else if v < i32::MIN {
        i32::MIN
    } else {
        v as i32
    }
}

/// The sum of `a` and `b`, kept within `i32`.
pub fn saturating_add(a: i32, b: i32) -> (sum: i32)
    ensures
        sum == clamp_i32(a + b),
{
    let wide: i64 = a as i64 + b as i64;
    if wide > i32::MAX as i64 {
        i32::MAX
    } else if wide < i32::MIN as i64 {
        i32::MIN
    } else {
        wide as i32
    }
}

/// The difference of `a` and `b`, kept within `i32`.
pub fn saturating_sub(a: i32, b: i32) -> (difference: i32)
    ensures
        difference == clamp_i32(a - b),
{
    let wide: i64 = a as i64 - b as i64;
    if wide > i32::MAX as i64 {
        i32::MAX
    } else if wide < i32::MIN as i64 {
        i32::MIN
    } else {
        wide as i32
    }
}

impl Point {
    /// The point moved by `by`; coordinates stop at the ends of `i32`.
    pub open spec fn spec_offset(self, by: Point) -> Point {
        Point { x: clamp_i32(self.x + by.x), y: clamp_i32(self.y + by.y) }
    }

    /// The point as seen from `origin`; coordinates stop at the ends of `i32`.
    pub open spec fn spec_relative_to(self, origin: Point) -> Point {
        Point { x: clamp_i32(self.x - origin.x), y: clamp_i32(self.y - origin.y) }
    }

    /// The point moved by `by`.
    #[verifier::when_used_as_spec(spec_offset)]
    pub fn offset(self, by: Point) -> (moved: Point)
        ensures
            moved == self.spec_offset(by),
    {
        Point { x: saturating_add(self.x, by.x), y: saturating_add(self.y, by.y) }
    }

    /// The point as seen from `origin`.
    #[verifier::when_used_as_spec(spec_relative_to)]
    pub fn relative_to(self, origin: Point) -> (moved: Point)
        ensures
            moved == self.spec_relative_to(origin),
    {
        Point { x: saturating_sub(self.x, origin.x), y: saturating_sub(self.y, origin.y) }
    }
}

impl Rect {
    /// The first column right of the rectangle.
    pub open spec fn right(self) -> i32 {
        clamp_i32(self.loc.x + self.size.w)
    }

    /// The first row below the rectangle.
    pub open spec fn bottom(self) -> i32 {
        clamp_i32(self.loc.y + self.size.h)
    }

    /// `point` lies in the rectangle; the right and the bottom edge are
    /// outside.
    pub open spec fn spec_contains(self, point: Point) -> bool {
        &&& self.loc.x <= point.x < self.right()
        &&& self.loc.y <= point.y < self.bottom()
    }

    /// The rectangles share some area; touching is not enough.
    pub open spec fn spec_overlaps(self, other: Rect) -> bool {
        &&& self.loc.x < other.right()
        &&& other.loc.x < self.right()
        &&& self.loc.y < other.bottom()
        &&& other.loc.y < self.bottom()
    }

    /// The area that the rectangles share, if they share any.
    pub open spec fn spec_intersection(self, other: Rect) -> Option<Rect> {
        if !self.spec_overlaps(other) {
            None
        } else {
            let left = if self.loc.x >= other.loc.x {
                self.loc.x
            } else {
                other.loc.x
            };
            let top = if self.loc.y >= other.loc.y {
                self.loc.y
            } else {
                other.loc.y
            };
            let right = if self.right() <= other.right() {
                self.right()
            } else {
                other.right()
            };
            let bottom = if self.bottom() <= other.bottom() {
                self.bottom()
            } else {
                other.bottom()
            };
            Some(
                Rect {
                    loc: Point { x: left, y: top },
                    size: Size { w: clamp_i32(right - left), h: clamp_i32(bottom - top) },
                },
            )
        }
    }

    /// Width times height.
    pub open spec fn spec_area(self) -> int {
        self.size.w * self.size.h
    }

    /// Whether `point` lies in the rectangle.
    #[verifier::when_used_as_spec(spec_contains)]
    pub fn contains(self, point: Point) -> (inside: bool)
        ensures
            inside == self.spec_contains(point),
    {
        point.x >= self.loc.x && point.x < saturating_add(self.loc.x, self.size.w) && point.y
            >= self.loc.y && point.y < saturating_add(self.loc.y, self.size.h)
    }

    /// Whether the rectangles share some area.
    #[verifier::when_used_as_spec(spec_overlaps)]
    pub fn overlaps(self, other: Rect) -> (shared: bool)
        ensures
            shared == self.spec_overlaps(other),
    {
        self.loc.x < saturating_add(other.loc.x, other.size.w) && other.loc.x < saturating_add(
            self.loc.x,
            self.size.w,
        ) && self.loc.y < saturating_add(other.loc.y, other.size.h) && other.loc.y
            < saturating_add(self.loc.y, self.size.h)
    }

    /// The area that the rectangles share, if they share any.
    #[verifier::when_used_as_spec(spec_intersection)]
    pub fn intersection(self, other: Rect) -> (shared: Option<Rect>)
        ensures
            shared == self.spec_intersection(other),
    {
        if !self.overlaps(other) {
            return None;
        }
        let left = if self.loc.x >= other.loc.x {
            self.loc.x
        } else {
            other.loc.x
        };
        let top = if self.loc.y >= other.loc.y {
            self.loc.y
        } else {
            other.loc.y
        };
        let self_right = saturating_add(self.loc.x, self.size.w);
        let other_right = saturating_add(other.loc.x, other.size.w);
        let self_bottom = saturating_add(self.loc.y, self.size.h);
        let other_bottom = saturating_add(other.loc.y, other.size.h);
        let right = if self_right <= other_right {
            self_right
        } else {
            other_right
        };
        let bottom = if self_bottom <= other_bottom {
            self_bottom
        } else {
            other_bottom
        };
        Some(
            Rect {
                loc: Point { x: left, y: top },
                size: Size { w: saturating_sub(right, left), h: saturating_sub(bottom, top) },
            },
        )
    }

    /// Width times height, in 64 bits, where it cannot overflow.
    pub fn area(self) -> (area: i64)
        ensures
            area == self.spec_area(),
    {
        assert(-0x4000_0000_0000_0000 <= self.size.w * self.size.h <= 0x4000_0000_0000_0000)
            by (nonlinear_arith)
            requires
                -0x8000_0000 <= self.size.w <= 0x7fff_ffff,
                -0x8000_0000 <= self.size.h <= 0x7fff_ffff,
        ;
        (self.size.w as i64) * (self.size.h as i64)
    }
}

/// Two rectangles that share area share a rectangle that lies in both, and
/// it has a positive extent when both have.
pub proof fn lemma_intersection_lies_in_both(a: Rect, b: Rect)
    requires
        a.spec_overlaps(b),
    ensures
        a.spec_intersection(b) matches Some(shared) && shared.loc.x >= a.loc.x && shared.loc.x
            >= b.loc.x && shared.loc.y >= a.loc.y && shared.loc.y >= b.loc.y && shared.right()
            <= a.right() && shared.right() <= b.right() && shared.bottom() <= a.bottom()
            && shared.bottom() <= b.bottom(),
        a.spec_intersection(b) == b.spec_intersection(a),
        a.size.w > 0 && b.size.w > 0 && a.size.h > 0 && b.size.h > 0 ==> a.spec_intersection(
            b,
        )->Some_0.size.w > 0 && a.spec_intersection(b)->Some_0.size.h > 0,
{
}

} // verus!
