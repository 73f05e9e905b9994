//! Points, sizes and rectangles in whole layout units.

use vstd::prelude::*;

verus! {

/// The largest resolved length or coordinate.
pub const COORD_MAX: i64 = 0x7fff_ffff_ffff_ffff;

/// The smallest resolved coordinate.
pub const COORD_MIN: i64 = -0x8000_0000_0000_0000;

/// `x` brought into the range of a resolved coordinate.
pub open spec fn sat(x: int) -> int {
    if x > COORD_MAX {
        COORD_MAX as int
    } else if x < COORD_MIN {
        COORD_MIN as int
    } else {
        x
    }
}

/// The larger of two integers.
pub open spec fn max_int(a: int, b: int) -> int {
    if a >= b {
        a
    } else {
        b
    }
}

/// Saturating sum of two coordinates.
pub fn sat_add(a: i64, b: i64) -> (r: i64)
    ensures
        r == sat(a + b),
{
    if b > 0 && a > COORD_MAX - b {
        COORD_MAX
    } else if b < 0 && a < COORD_MIN - b {
        COORD_MIN
    } else {
        a + b
    }
}

/// Saturating difference of two coordinates.
pub fn sat_sub(a: i64, b: i64) -> (r: i64)
    ensures
        r == sat(a - b),
{
    if b < 0 && a > COORD_MAX + b {
        COORD_MAX
    } else if b > 0 && a < COORD_MIN + b {
        COORD_MIN
    } else {
        a - b
    }
}

/// One of the two layout directions.
#[derive(Clone, Copy, Debug, PartialEq, Eq, Structural)]
pub enum Axis {
    X,
    Y,
}

impl Axis {
    /// The other axis.
    pub open spec fn spec_cross(self) -> Axis {
        match self {
            Axis::X => Axis::Y,
            Axis::Y => Axis::X,
        }
    }

    /// The other axis.
    #[verifier::when_used_as_spec(spec_cross)]
    pub fn cross(self) -> (r: Axis)
        ensures
            r == self.spec_cross(),
    {
        match self {
            Axis::X => Axis::Y,
            Axis::Y => Axis::X,
        }
    }
}

/// A position.
#[derive(Clone, Copy, Debug, PartialEq, Eq, Structural)]
pub struct Point {
    pub x: i64,
    pub y: i64,
}

impl Point {
    /// The point `(x, y)`.
    pub fn new(x: i64, y: i64) -> (p: Point)
        ensures
            p == (Point { x, y }),
    {
        Point { x, y }
    }

    /// The coordinate along `axis`.
    pub open spec fn spec_along(self, axis: Axis) -> i64 {
        match axis {
            Axis::X => self.x,
            Axis::Y => self.y,
        }
    }

    /// The coordinate along `axis`.
    #[verifier::when_used_as_spec(spec_along)]
    pub fn along(self, axis: Axis) -> (r: i64)
        ensures
            r == self.spec_along(axis),
    {
        match axis {
            Axis::X => self.x,
            Axis::Y => self.y,
        }
    }

    /// This point with its coordinate along `axis` replaced by `v`.
    pub open spec fn spec_with(self, axis: Axis, v: i64) -> Point {
        match axis {
            Axis::X => Point { x: v, y: self.y },
            Axis::Y => Point { x: self.x, y: v },
        }
    }

    /// This point with its coordinate along `axis` replaced by `v`.
    #[verifier::when_used_as_spec(spec_with)]
    pub fn with(self, axis: Axis, v: i64) -> (r: Point)
        ensures
            r == self.spec_with(axis, v),
    {
        match axis {
            Axis::X => Point { x: v, y: self.y },
            Axis::Y => Point { x: self.x, y: v },
        }
    }
}

/// A width and a height.
#[derive(Clone, Copy, Debug, PartialEq, Eq, Structural)]
pub struct Size {
    pub w: i64,
    pub h: i64,
}

impl Size {
    /// The size `w` by `h`.
    pub fn new(w: i64, h: i64) -> (s: Size)
        ensures
            s == (Size { w, h }),
    {
        Size { w, h }
    }

    /// The extent along `axis`.
    pub open spec fn spec_along(self, axis: Axis) -> i64 {
        match axis {
            Axis::X => self.w,
            Axis::Y => self.h,
        }
    }

    /// The extent along `axis`.
    #[verifier::when_used_as_spec(spec_along)]
    pub fn along(self, axis: Axis) -> (r: i64)
        ensures
            r == self.spec_along(axis),
    {
        match axis {
            Axis::X => self.w,
            Axis::Y => self.h,
        }
    }

    /// This size with its extent along `axis` replaced by `v`.
    pub open spec fn spec_with(self, axis: Axis, v: i64) -> Size {
        match axis {
            Axis::X => Size { w: v, h: self.h },
            Axis::Y => Size { w: self.w, h: v },
        }
    }

    /// This size with its extent along `axis` replaced by `v`.
    #[verifier::when_used_as_spec(spec_with)]
    pub fn with(self, axis: Axis, v: i64) -> (r: Size)
        ensures
            r == self.spec_with(axis, v),
    {
        match axis {
            Axis::X => Size { w: v, h: self.h },
            Axis::Y => Size { w: self.w, h: v },
        }
    }
}

/// An axis-aligned rectangle that holds the points `p` with
/// `min <= p < max` in both coordinates.
#[derive(Clone, Copy, Debug, PartialEq, Eq, Structural)]
pub struct Rect {
    pub min: Point,
    pub max: Point,
}

impl Rect {
    /// The rectangle between two corners.
    pub fn from_min_max(min: Point, max: Point) -> (r: Rect)
        ensures
            r == (Rect { min, max }),
    {
        Rect { min, max }
    }

    /// The rectangle at `min` with the given size; the far corner saturates.
    pub fn from_min_size(min: Point, size: Size) -> (r: Rect)
        ensures
            r.min == min,
            r.max.x == sat(min.x + size.w),
            r.max.y == sat(min.y + size.h),
    {
        Rect { min, max: Point { x: sat_add(min.x, size.w), y: sat_add(min.y, size.h) } }
    }

    /// Whether `p` lies inside.
    pub open spec fn spec_contains(&self, p: Point) -> bool {
        self.min.x <= p.x < self.max.x && self.min.y <= p.y < self.max.y
    }

    /// Whether `p` lies inside. A rectangle without area holds no point.
    #[verifier::when_used_as_spec(spec_contains)]
    pub fn contains(&self, p: Point) -> (r: bool)
        ensures
            r == self.spec_contains(p),
    {
        self.min.x <= p.x && p.x < self.max.x && self.min.y <= p.y && p.y < self.max.y
    }

    /// The horizontal extent, saturating.
    pub fn width(&self) -> (w: i64)
        ensures
            w == sat(self.max.x - self.min.x),
    {
        sat_sub(self.max.x, self.min.x)
    }

    /// The vertical extent, saturating.
    pub fn height(&self) -> (h: i64)
        ensures
            h == sat(self.max.y - self.min.y),
    {
        sat_sub(self.max.y, self.min.y)
    }

    /// Width and height, saturating.
    pub fn size(&self) -> (s: Size)
        ensures
            s.w == sat(self.max.x - self.min.x),
            s.h == sat(self.max.y - self.min.y),
    {
        Size { w: self.width(), h: self.height() }
    }

    /// Whether the rectangle covers no point at all.
    pub open spec fn spec_is_empty(&self) -> bool {
        self.max.x <= self.min.x || self.max.y <= self.min.y
    }

    /// Whether the rectangle covers no point at all.
    #[verifier::when_used_as_spec(spec_is_empty)]
    pub fn is_empty(&self) -> (r: bool)
        ensures
            r == self.spec_is_empty(),
    {
        self.max.x <= self.min.x || self.max.y <= self.min.y
    }
}

} // verus!
