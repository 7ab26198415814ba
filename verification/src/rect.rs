//! Axis-aligned integer rectangles: the footprint of a room before it is
//! stamped onto the grid.

use vstd::prelude::*;

verus! {

/// An axis-aligned rectangle with inclusive origin `(x0, y0)` and far corner
/// `(x1, y1)` computed as origin plus size.
#[derive(Clone, Copy, Debug, PartialEq, Eq, Structural)]
pub struct Rectangle {
    pub x0: i32,
    pub y0: i32,
    pub x1: i32,
    pub y1: i32,
}

/// Two rectangles overlap, where merely touching at an edge counts as
/// overlapping: closed-interval comparison on both axes.
pub open spec fn rect_intersects(a: Rectangle, b: Rectangle) -> bool {
    a.x0 <= b.x1 && a.x1 >= b.x0 && a.y0 <= b.y1 && a.y1 >= b.y0
}

/// Division by two truncated toward zero, as the machine divides.
pub open spec fn div2_trunc(a: int) -> int {
    if a >= 0 {
        a / 2
    } else {
        -((-a) / 2)
    }
}

impl Rectangle {
    /// Construct from an origin and a positive size.
    pub fn new(x: i32, y: i32, width: i32, height: i32) -> (r: Rectangle)
        requires
            i32::MIN <= x + width <= i32::MAX,
            i32::MIN <= y + height <= i32::MAX,
        ensures
            r.x0 == x,
            r.y0 == y,
            r.x1 == x + width,
            r.y1 == y + height,
    {
        Rectangle { x0: x, y0: y, x1: x + width, y1: y + height }
    }

    /// True iff the two rectangles overlap or touch at an edge: rooms must not
    /// even share a wall.
    pub fn intersects(&self, other: &Rectangle) -> (r: bool)
        ensures
            r == rect_intersects(*self, *other),
    {
        self.x0 <= other.x1 && self.x1 >= other.x0 && self.y0 <= other.y1 && self.y1 >= other.y0
    }

    /// The midpoint of the rectangle, truncated toward zero.
    pub fn center(&self) -> (r: (i32, i32))
        requires
            i32::MIN <= self.x0 + self.x1 <= i32::MAX,
            i32::MIN <= self.y0 + self.y1 <= i32::MAX,
        ensures
            r.0 == div2_trunc(self.x0 + self.x1),
            r.1 == div2_trunc(self.y0 + self.y1),
    {
        let sx = self.x0 + self.x1;
        let sy = self.y0 + self.y1;
        let cx: i32 = if sx >= 0 {
            sx / 2
        } else if sx == i32::MIN {
            -1073741824
        } else {
            -((-sx) / 2)
        };
        let cy: i32 = if sy >= 0 {
            sy / 2
        } else if sy == i32::MIN {
            -1073741824
        } else {
            -((-sy) / 2)
        };
        (cx, cy)
    }
}

} // verus!
