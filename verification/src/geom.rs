//! Axis-aligned rectangle primitive.
//!
//! `intersects` uses strict inequalities on both axes, so rectangles that
//! merely touch along an edge do not intersect.  `is_contained_in` uses
//! inclusive bounds.  Both predicates are load-bearing for the packer.

use vstd::prelude::*;

verus! {

/// An axis-aligned rectangle with its origin at the top-left corner.
#[derive(Debug, Clone, Copy, PartialEq, Eq, Structural)]
pub struct Rect {
    pub x: u32,
    pub y: u32,
    pub width: u32,
    pub height: u32,
}

/// Two rectangles overlap iff their interiors share a point: strict
/// inequality on both axes, so touching edges do not count.
pub open spec fn spec_intersects(a: Rect, b: Rect) -> bool {
    &&& a.x < b.x + b.width
    &&& b.x < a.x + a.width
    &&& a.y < b.y + b.height
    &&& b.y < a.y + a.height
}

/// `inner` lies inside `outer`, inclusive on every bound.
pub open spec fn spec_contained_in(inner: Rect, outer: Rect) -> bool {
    &&& outer.x <= inner.x
    &&& outer.y <= inner.y
    &&& inner.x + inner.width <= outer.x + outer.width
    &&& inner.y + inner.height <= outer.y + outer.height
}

impl Rect {
    pub fn new(x: u32, y: u32, width: u32, height: u32) -> (r: Rect)
        ensures
            r == (Rect { x, y, width, height }),
    {
        Rect { x, y, width, height }
    }

    /// Strict-overlap test; touching edges do not intersect.
    pub fn intersects(&self, other: &Rect) -> (r: bool)
        ensures
            r == spec_intersects(*self, *other),
    {
        (self.x as u64) < (other.x as u64) + (other.width as u64)
            && (self.x as u64) + (self.width as u64) > (other.x as u64)
            && (self.y as u64) < (other.y as u64) + (other.height as u64)
            && (self.y as u64) + (self.height as u64) > (other.y as u64)
    }

    /// Inclusive containment of `self` inside `other`.
    pub fn is_contained_in(&self, other: &Rect) -> (r: bool)
        ensures
            r == spec_contained_in(*self, *other),
    {
        self.x >= other.x
            && self.y >= other.y
            && (self.x as u64) + (self.width as u64) <= (other.x as u64) + (other.width as u64)
            && (self.y as u64) + (self.height as u64) <= (other.y as u64) + (other.height as u64)
    }
}


/// The rectangle lies inside a `w` by `h` canvas anchored at the origin.
pub open spec fn rect_in_canvas(r: Rect, w: int, h: int) -> bool {
    &&& r.x + r.width <= w
    &&& r.y + r.height <= h
}

} // verus!
