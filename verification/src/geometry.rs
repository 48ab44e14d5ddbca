//! Plane geometry on integer coordinates: 2D vectors and axis-aligned
//! rectangles, with the strict (area-positive) overlap test the broad-phase
//! detector uses. Rectangles that merely share a boundary edge do not
//! overlap.

use vstd::prelude::*;

verus! {

/// A 2D vector in sub-units (two sub-units to a pixel).
#[derive(Clone, Copy, Debug, PartialEq, Eq, Structural)]
pub struct Vec2i {
    pub x: i64,
    pub y: i64,
}

impl Vec2i {
    pub fn new(x: i64, y: i64) -> (v: Vec2i)
        ensures
            v.x == x && v.y == y,
    {
        Vec2i { x, y }
    }

    pub fn zero() -> (v: Vec2i)
        ensures
            v.x == 0 && v.y == 0,
    {
        Vec2i { x: 0, y: 0 }
    }
}

/// An axis-aligned rectangle given by its two corners. A rectangle with
/// `min >= max` on either axis is empty.
#[derive(Clone, Copy, Debug, PartialEq, Eq, Structural)]
pub struct Rect2 {
    pub min: Vec2i,
    pub max: Vec2i,
}

pub open spec fn min_i(a: int, b: int) -> int {
    if a <= b {
        a
    } else {
        b
    }
}

pub open spec fn max_i(a: int, b: int) -> int {
    if a >= b {
        a
    } else {
        b
    }
}

/// Corners in the usual order: the minimum corner at or below-left of the
/// maximum corner.
pub open spec fn rect_wf(r: Rect2) -> bool {
    r.min.x <= r.max.x && r.min.y <= r.max.y
}

/// A rectangle is empty when it has no area.
pub open spec fn spec_is_empty(r: Rect2) -> bool {
    r.min.x >= r.max.x || r.min.y >= r.max.y
}

/// Strict overlap: the rectangles share interior points, not just an edge
/// or a corner.
pub open spec fn spec_overlaps(a: Rect2, b: Rect2) -> bool {
    &&& max_i(a.min.x as int, b.min.x as int) < min_i(a.max.x as int, b.max.x as int)
    &&& max_i(a.min.y as int, b.min.y as int) < min_i(a.max.y as int, b.max.y as int)
}

/// The intersection of two rectangles; when they do not meet, the minimum
/// corner collapses onto the maximum corner so the result is empty rather
/// than inverted.
pub open spec fn spec_intersect(a: Rect2, b: Rect2) -> Rect2 {
    let mxx = min_i(a.max.x as int, b.max.x as int);
    let mxy = min_i(a.max.y as int, b.max.y as int);
    let mnx = min_i(max_i(a.min.x as int, b.min.x as int), mxx);
    let mny = min_i(max_i(a.min.y as int, b.min.y as int), mxy);
    Rect2 {
        min: Vec2i { x: mnx as i64, y: mny as i64 },
        max: Vec2i { x: mxx as i64, y: mxy as i64 },
    }
}

impl Rect2 {
    pub fn is_empty(&self) -> (r: bool)
        ensures
            r == spec_is_empty(*self),
    {
        self.min.x >= self.max.x || self.min.y >= self.max.y
    }

    pub fn overlaps(&self, other: &Rect2) -> (r: bool)
        ensures
            r == spec_overlaps(*self, *other),
    {
        !self.intersect(other).is_empty()
    }

    pub fn intersect(&self, other: &Rect2) -> (r: Rect2)
        ensures
            r == spec_intersect(*self, *other),
    {
        let mxx = if self.max.x <= other.max.x {
            self.max.x
        } else {
            other.max.x
        };
        let mxy = if self.max.y <= other.max.y {
            self.max.y
        } else {
            other.max.y
        };
        let mut mnx = if self.min.x >= other.min.x {
            self.min.x
        } else {
            other.min.x
        };
        let mut mny = if self.min.y >= other.min.y {
            self.min.y
        } else {
            other.min.y
        };
        if mnx > mxx {
            mnx = mxx;
        }
        if mny > mxy {
            mny = mxy;
        }
        Rect2 { min: Vec2i { x: mnx, y: mny }, max: Vec2i { x: mxx, y: mxy } }
    }

    /// Horizontal extent; zero for an empty rectangle.
    pub fn width(&self) -> (w: i64)
        requires
            self.min.x <= self.max.x,
            -(0x2000000000000000i64 as int) <= self.min.x,
            self.max.x <= 0x2000000000000000i64,
        ensures
            w == self.max.x - self.min.x,
    {
        self.max.x - self.min.x
    }

    /// Vertical extent; zero for an empty rectangle.
    pub fn height(&self) -> (h: i64)
        requires
            self.min.y <= self.max.y,
            -(0x2000000000000000i64 as int) <= self.min.y,
            self.max.y <= 0x2000000000000000i64,
        ensures
            h == self.max.y - self.min.y,
    {
        self.max.y - self.min.y
    }
}

/// Overlap does not depend on the order of its arguments.
pub proof fn lemma_overlaps_symmetric(a: Rect2, b: Rect2)
    ensures
        spec_overlaps(a, b) == spec_overlaps(b, a),
{
}

/// Two rectangles overlap exactly when their intersection has positive
/// area; in particular, rectangles sharing only a boundary edge (a
/// zero-area intersection) do not overlap.
pub proof fn lemma_touching_is_not_overlap(a: Rect2, b: Rect2)
    ensures
        spec_overlaps(a, b) <==> !spec_is_empty(spec_intersect(a, b)),
{
}

/// Rectangles that meet only along a shared boundary edge do not overlap:
/// when one rectangle begins, on either axis, exactly where the other
/// ends, the intersection has zero area.
pub proof fn lemma_shared_edge_not_overlap(a: Rect2, b: Rect2)
    requires
        a.max.x == b.min.x || b.max.x == a.min.x || a.max.y == b.min.y || b.max.y == a.min.y,
    ensures
        !spec_overlaps(a, b),
{
}

} // verus!
