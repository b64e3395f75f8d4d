//! Points and axis-aligned rectangles on the integer pixel grid.
//!
//! A rectangle covers the half-open box `[x, x + w) x [y, y + h)`: its left
//! and top edges belong to it, its right and bottom edges do not. Positions
//! and sizes are kept within half the range of an `i32`, so that the far
//! edges of every well-formed rectangle are themselves grid coordinates.

use vstd::prelude::*;

verus! {

/// The least coordinate of a well-formed rectangle's origin.
pub const MIN_POSITION: i32 = -1_073_741_824;

/// The greatest coordinate of a well-formed rectangle's origin.
pub const MAX_POSITION: i32 = 1_073_741_823;

/// The greatest width or height of a well-formed rectangle.
pub const MAX_SIZE: u32 = 1_073_741_823;

/// A point of the pixel grid.
#[derive(Clone, Copy, Debug, PartialEq, Eq, Structural)]
pub struct Point {
    pub x: i32,
    pub y: i32,
}

/// An axis-aligned rectangle: origin at the top-left corner, extents to the
/// right and downward.
#[derive(Clone, Copy, Debug, PartialEq, Eq, Structural)]
pub struct Rect {
    pub x: i32,
    pub y: i32,
    pub w: u32,
    pub h: u32,
}

/// `v` moved to the nearest value in `[lo, hi]`.
pub open spec fn clamp_spec(v: int, lo: int, hi: int) -> int {
    if v < lo {
        lo
    } else if v > hi {
        hi
    } else {
        v
    }
}

impl Point {
    /// The point `(x, y)`.
    pub fn new(x: i32, y: i32) -> (p: Point)
        ensures
            p.x == x,
            p.y == y,
    {
        Point { x, y }
    }
}

impl Rect {
    /// Origin and extents within the limits of the grid.
    pub open spec fn wf(self) -> bool {
        &&& MIN_POSITION <= self.x <= MAX_POSITION
        &&& MIN_POSITION <= self.y <= MAX_POSITION
        &&& self.w <= MAX_SIZE
        &&& self.h <= MAX_SIZE
    }

    /// The x coordinate just past the right edge.
    pub open spec fn spec_right(self) -> int {
        self.x + self.w
    }

    /// The y coordinate just past the bottom edge.
    pub open spec fn spec_bottom(self) -> int {
        self.y + self.h
    }

    /// Whether the grid point `(x, y)` lies in the rectangle.
    pub open spec fn contains(self, x: int, y: int) -> bool {
        self.x <= x < self.spec_right() && self.y <= y < self.spec_bottom()
    }

    /// Whether the two rectangles overlap. Rectangles that only share an
    /// edge do not, and an empty rectangle overlaps nothing.
    pub open spec fn intersects(self, other: Rect) -> bool {
        &&& self.x < other.spec_right()
        &&& other.x < self.spec_right()
        &&& self.y < other.spec_bottom()
        &&& other.y < self.spec_bottom()
        &&& self.w > 0 && self.h > 0 && other.w > 0 && other.h > 0
    }

    /// Whether the rectangle is well-formed.
    pub fn valid(&self) -> (ok: bool)
        ensures
            ok == self.wf(),
    {
        MIN_POSITION <= self.x && self.x <= MAX_POSITION && MIN_POSITION <= self.y && self.y
            <= MAX_POSITION && self.w <= MAX_SIZE && self.h <= MAX_SIZE
    }

    /// The rectangle at `(x, y)` of the given size, each value moved to the
    /// nearest one that the grid's limits allow.
    pub fn new(x: i32, y: i32, w: u32, h: u32) -> (r: Rect)
        ensures
            r.wf(),
            r.x == clamp_spec(x as int, MIN_POSITION as int, MAX_POSITION as int),
            r.y == clamp_spec(y as int, MIN_POSITION as int, MAX_POSITION as int),
            r.w == clamp_spec(w as int, 0, MAX_SIZE as int),
            r.h == clamp_spec(h as int, 0, MAX_SIZE as int),
    {
        Rect {
            x: if x < MIN_POSITION { MIN_POSITION } else if x > MAX_POSITION { MAX_POSITION } else { x },
            y: if y < MIN_POSITION { MIN_POSITION } else if y > MAX_POSITION { MAX_POSITION } else { y },
            w: if w > MAX_SIZE { MAX_SIZE } else { w },
            h: if h > MAX_SIZE { MAX_SIZE } else { h },
        }
    }

    /// The x coordinate of the left edge.
    pub fn left(&self) -> (v: i32)
        ensures
            v == self.x,
    {
        self.x
    }

    /// The y coordinate of the top edge.
    pub fn top(&self) -> (v: i32)
        ensures
            v == self.y,
    {
        self.y
    }

    /// The x coordinate just past the right edge.
    pub fn right(&self) -> (v: i32)
        requires
            self.wf(),
        ensures
            v == self.spec_right(),
    {
        self.x + self.w as i32
    }

    /// The y coordinate just past the bottom edge.
    pub fn bottom(&self) -> (v: i32)
        requires
            self.wf(),
        ensures
            v == self.spec_bottom(),
    {
        self.y + self.h as i32
    }

    /// The top-left corner.
    pub fn top_left(&self) -> (p: Point)
        ensures
            p.x == self.x,
            p.y == self.y,
    {
        Point { x: self.x, y: self.y }
    }

    /// The middle of the rectangle, rounded toward the top-left corner.
    pub fn center(&self) -> (p: Point)
        requires
            self.wf(),
        ensures
            p.x == self.x + self.w / 2,
            p.y == self.y + self.h / 2,
    {
        Point { x: self.x + (self.w / 2) as i32, y: self.y + (self.h / 2) as i32 }
    }

    /// Whether `point` lies in the rectangle.
    pub fn contains_point(&self, point: Point) -> (inside: bool)
        ensures
            inside == self.contains(point.x as int, point.y as int),
    {
        let px: i64 = point.x as i64;
        let py: i64 = point.y as i64;
        let inside_x: bool = px >= self.x as i64 && px < self.x as i64 + self.w as i64;
        inside_x && py >= self.y as i64 && py < self.y as i64 + self.h as i64
    }

    /// Whether the two rectangles overlap.
    pub fn has_intersection(&self, other: Rect) -> (overlap: bool)
        ensures
            overlap == self.intersects(other),
    {
        if self.w == 0 || self.h == 0 || other.w == 0 || other.h == 0 {
            return false;
        }
        (self.x as i64) < other.x as i64 + other.w as i64
            && (other.x as i64) < self.x as i64 + self.w as i64
            && (self.y as i64) < other.y as i64 + other.h as i64
            && (other.y as i64) < self.y as i64 + self.h as i64
    }
}

/// Two rectangles overlap exactly when some grid point lies in both.
pub proof fn lemma_intersects_iff_shared_point(a: Rect, b: Rect)
    ensures
        a.intersects(b) <==> exists|x: int, y: int| #[trigger] a.contains(x, y) && b.contains(x, y),
{
    if a.intersects(b) {
        let x: int = if a.x >= b.x { a.x as int } else { b.x as int };
        let y: int = if a.y >= b.y { a.y as int } else { b.y as int };
        assert(a.contains(x, y) && b.contains(x, y));
    }
}

} // verus!
