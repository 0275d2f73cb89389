//! Integer rectangles.
use vstd::prelude::*;

verus! {

/// Division rounding toward zero, as integer division does.
pub open spec fn tdiv(a: int, b: int) -> int
    recommends
        b > 0,
{
    if a >= 0 {
        a / b
    } else {
        -((-a) / b)
    }
}

/// `v` is a value of `i32`.
pub open spec fn fits_i32(v: int) -> bool {
    i32::MIN <= v <= i32::MAX
}

/// A rectangle: left, top, width, height.
#[derive(Debug, Clone, Copy, PartialEq, Eq)]
pub struct Rect {
    pub x: i32,
    pub y: i32,
    pub w: i32,
    pub h: i32,
}

impl Rect {
    /// The rectangle with this corner and size.
    pub fn new(x: i32, y: i32, w: i32, h: i32) -> (r: Rect)
        ensures
            r == (Rect { x, y, w, h }),
    {
        Rect { x, y, w, h }
    }

    /// `self` shrunk by `d` on every side (grown for a negative `d`), as numbers.
    pub open spec fn inset_spec(self, d: int) -> (int, int, int, int) {
        (self.x + d, self.y + d, self.w - 2 * d, self.h - 2 * d)
    }

    /// Shrinking by `d` keeps every coordinate within `i32`.
    pub open spec fn can_inset(self, d: int) -> bool {
        let (x, y, w, h) = self.inset_spec(d);
        fits_i32(2 * d) && fits_i32(x) && fits_i32(y) && fits_i32(w) && fits_i32(h)
    }

    /// `self` shrunk by `d` on every side.
    pub fn inset(&self, d: i32) -> (r: Rect)
        requires
            self.can_inset(d as int),
        ensures
            (r.x as int, r.y as int, r.w as int, r.h as int) == self.inset_spec(d as int),
    {
        Rect { x: self.x + d, y: self.y + d, w: self.w - 2 * d, h: self.h - 2 * d }
    }

    /// The point `(px, py)` lies in the rectangle (left and top edges included,
    /// right and bottom excluded).
    pub open spec fn contains_spec(self, px: int, py: int) -> bool {
        self.x <= px < self.x + self.w && self.y <= py < self.y + self.h
    }

    /// Whether the point `(px, py)` lies in the rectangle.
    pub fn contains(&self, px: i64, py: i64) -> (r: bool)
        ensures
            r == self.contains_spec(px as int, py as int),
    {
        (self.x as i64) <= px && px < (self.x as i64) + (self.w as i64) && (self.y as i64) <= py && py
            < (self.y as i64) + (self.h as i64)
    }
}

} // verus!
