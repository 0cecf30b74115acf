//! Integer points and rectangles, and the handle by which a window is known.
use vstd::prelude::*;

verus! {

/// The handle of one window, display or strip.
#[derive(Clone, Copy, Debug, PartialEq, Eq, Structural, Hash)]
pub struct Entity(pub u64);

/// A mathematical integer that a coordinate can hold.
pub open spec fn fits(x: int) -> bool {
    i32::MIN <= x <= i32::MAX
}

/// Division that rounds toward zero, as on machine integers.
pub open spec fn quot(a: int, b: int) -> int {
    if a >= 0 {
        a / b
    } else {
        -((-a) / b)
    }
}

/// A point, or an offset between points.
#[derive(Clone, Copy, Debug, PartialEq, Eq, Structural, Hash)]
pub struct IVec2 {
    pub x: i32,
    pub y: i32,
}

impl IVec2 {
    pub fn new(x: i32, y: i32) -> (point: IVec2)
        ensures
            point == (IVec2 { x, y }),
    {
        IVec2 { x, y }
    }

    /// The sum of two offsets.
    pub fn plus(self, other: IVec2) -> (sum: IVec2)
        requires
            fits(self.x + other.x),
            fits(self.y + other.y),
        ensures
            sum.x == self.x + other.x,
            sum.y == self.y + other.y,
    {
        IVec2 { x: self.x + other.x, y: self.y + other.y }
    }

    /// The offset from another point to this one.
    pub fn minus(self, other: IVec2) -> (difference: IVec2)
        requires
            fits(self.x - other.x),
            fits(self.y - other.y),
        ensures
            difference.x == self.x - other.x,
            difference.y == self.y - other.y,
    {
        IVec2 { x: self.x - other.x, y: self.y - other.y }
    }
}

/// A rectangle by its two corners: `min` is the upper left one.
#[derive(Clone, Copy, Debug, PartialEq, Eq, Structural, Hash)]
pub struct IRect {
    pub min: IVec2,
    pub max: IVec2,
}

impl IRect {
    /// How wide the rectangle is.
    pub open spec fn spec_width(self) -> int {
        self.max.x - self.min.x
    }

    /// How high the rectangle is.
    pub open spec fn spec_height(self) -> int {
        self.max.y - self.min.y
    }

    /// Width and height are numbers that a coordinate can hold.
    pub open spec fn measurable(self) -> bool {
        fits(self.spec_width()) && fits(self.spec_height())
    }

    /// The corners are where their names say.
    pub open spec fn proper(self) -> bool {
        self.min.x <= self.max.x && self.min.y <= self.max.y
    }

    /// The rectangle between two points, whichever of them comes first.
    pub fn new(x0: i32, y0: i32, x1: i32, y1: i32) -> (rect: IRect)
        ensures
            rect.proper(),
            rect.min.x == x0 && rect.max.x == x1 || rect.min.x == x1 && rect.max.x == x0,
            rect.min.y == y0 && rect.max.y == y1 || rect.min.y == y1 && rect.max.y == y0,
    {
        let (left, right) = if x0 <= x1 {
            (x0, x1)
        } else {
            (x1, x0)
        };
        let (top, bottom) = if y0 <= y1 {
            (y0, y1)
        } else {
            (y1, y0)
        };
        IRect { min: IVec2 { x: left, y: top }, max: IVec2 { x: right, y: bottom } }
    }

    /// The rectangle between two corners, whichever of them comes first.
    pub fn from_corners(a: IVec2, b: IVec2) -> (rect: IRect)
        ensures
            rect.proper(),
            rect.min.x == a.x && rect.max.x == b.x || rect.min.x == b.x && rect.max.x == a.x,
            rect.min.y == a.y && rect.max.y == b.y || rect.min.y == b.y && rect.max.y == a.y,
    {
        IRect::new(a.x, a.y, b.x, b.y)
    }

    pub fn width(&self) -> (width: i32)
        requires
            fits(self.spec_width()),
        ensures
            width == self.spec_width(),
    {
        self.max.x - self.min.x
    }

    pub fn height(&self) -> (height: i32)
        requires
            fits(self.spec_height()),
        ensures
            height == self.spec_height(),
    {
        self.max.y - self.min.y
    }

    /// Width and height as an offset.
    pub fn size(&self) -> (size: IVec2)
        requires
            self.measurable(),
        ensures
            size.x == self.spec_width(),
            size.y == self.spec_height(),
    {
        self.max.minus(self.min)
    }

    /// The point in the middle, rounded toward zero.
    pub fn center(&self) -> (center: IVec2)
        requires
            fits(self.min.x + self.max.x),
            fits(self.min.y + self.max.y),
        ensures
            center.x == quot(self.min.x + self.max.x, 2),
            center.y == quot(self.min.y + self.max.y, 2),
    {
        let x: i32 = self.min.x + self.max.x;
        let y: i32 = self.min.y + self.max.y;
        IVec2 { x: halve(x), y: halve(y) }
    }
}

/// Half of a number, rounded toward zero.
pub fn halve(x: i32) -> (half: i32)
    ensures
        half == quot(x as int, 2),
{
    if x >= 0 {
        x / 2
    } else if x == i32::MIN {
        -1073741824
    } else {
        -((-x) / 2)
    }
}

/// A quotient rounded toward zero, for a positive divisor.
pub fn divide(a: i32, b: i32) -> (quotient: i32)
    requires
        b > 0,
    ensures
        quotient == quot(a as int, b as int),
{
    let (x, d): (i64, i64) = (a as i64, b as i64);
    if a >= 0 {
        a / b
    } else {
        let q: i64 = (-x) / d;
        proof {
            assert(0 <= q <= -x) by (nonlinear_arith)
                requires
                    d >= 1,
                    -x >= 0,
                    q == (-x) / (d as int),
            ;
        }
        (-q) as i32
    }
}

} // verus!
