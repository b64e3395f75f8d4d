//! The circle and its collision test against a rectangle.
//!
//! A circle keeps its center and radius in fixed-point units; a collision is
//! judged on the pixel grid, with the center and the radius each rounded
//! toward zero to whole pixels. Only the reach test at a corner uses the
//! radius at full precision.

use vstd::prelude::*;
use crate::fixed::{is_sqrt_floor, lemma_sqrt_floor_unique, sqrt_floor};
use crate::geometry::{distance, distance_spec, distance_squared, div_trunc, ONE};
use crate::rect::{Point, Rect};

verus! {

/// The greatest distance of a well-formed circle's center from either axis,
/// and the bound below which its radius stays: 2^29 pixels.
pub const LIMIT: i64 = 536_870_912_000_000_000;

/// The outcome of a collision test: no contact, or contact at a grid point
/// on the rectangle's outline.
#[derive(Clone, Copy, Debug, PartialEq, Eq, Structural)]
pub enum Collision {
    NoContact,
    At(i32, i32),
}

/// The eight regions around a rectangle in which a circle's center can make
/// contact: four squares outward of the corners, four strips outward of the
/// sides.
#[derive(Clone, Copy, Debug, PartialEq, Eq, Structural)]
pub enum Region {
    LeftUp,
    RightUp,
    LeftDown,
    RightDown,
    Left,
    Right,
    Up,
    Down,
}

/// A contact between a circle and a rectangle: the region that holds the
/// circle's center, and the grid point on the rectangle's outline where the
/// two touch.
#[derive(Clone, Copy, Debug, PartialEq, Eq, Structural)]
pub struct Contact {
    pub region: Region,
    pub x: i32,
    pub y: i32,
}

/// A circle: center and radius in fixed-point units.
#[derive(Clone, Copy, Debug, PartialEq, Eq, Structural)]
pub struct Circle {
    pub x: i64,
    pub y: i64,
    pub radius: i64,
}

impl Region {
    /// Whether the region is one of the four corner squares.
    pub open spec fn is_corner(self) -> bool {
        self is LeftUp || self is RightUp || self is LeftDown || self is RightDown
    }

    /// Whether contact in this region is with the left or the right side.
    pub open spec fn is_flank(self) -> bool {
        self is Left || self is Right
    }

    /// Whether contact in this region is with the top or the bottom side.
    pub open spec fn is_cap(self) -> bool {
        self is Up || self is Down
    }
}

impl Circle {
    /// A positive radius, and a center and radius small enough for the
    /// bounding square to be a well-formed rectangle.
    pub open spec fn wf(self) -> bool {
        &&& -LIMIT <= self.x <= LIMIT
        &&& -LIMIT <= self.y <= LIMIT
        &&& 0 < self.radius < LIMIT
    }

    /// The grid point that holds the center.
    pub open spec fn spec_center(self) -> (i32, i32) {
        (div_trunc(self.x as int, ONE as int) as i32, div_trunc(self.y as int, ONE as int) as i32)
    }

    /// The radius in whole pixels.
    pub open spec fn reach(self) -> int {
        self.radius / ONE
    }

    /// The bounding square on the grid: its corner is the center less the
    /// radius, its side twice the radius.
    pub open spec fn spec_to_rect(self) -> Rect {
        Rect {
            x: (self.spec_center().0 - self.reach()) as i32,
            y: (self.spec_center().1 - self.reach()) as i32,
            w: (2 * self.reach()) as u32,
            h: (2 * self.reach()) as u32,
        }
    }

    /// Whether the center lies in the given region around `rect`. Each
    /// region reaches outward from the rectangle by twice the radius.
    pub open spec fn in_region(self, rect: Rect, region: Region) -> bool {
        let cx = self.spec_center().0 as int;
        let cy = self.spec_center().1 as int;
        let size = 2 * self.reach();
        let left = rect.x as int;
        let up = rect.y as int;
        let right = rect.spec_right();
        let down = rect.spec_bottom();
        match region {
            Region::LeftUp => left - size <= cx < left && up - size <= cy < up,
            Region::RightUp => right <= cx < right + size && up - size <= cy < up,
            Region::LeftDown => left - size <= cx < left && down <= cy < down + size,
            Region::RightDown => right <= cx < right + size && down <= cy < down + size,
            Region::Left => left - size <= cx < left && up <= cy < down,
            Region::Right => right <= cx < right + size && up <= cy < down,
            Region::Up => left <= cx < right && up - size <= cy < up,
            Region::Down => left <= cx < right && down <= cy < down + size,
        }
    }

    /// The region that holds the center, the corners tried first.
    pub open spec fn spec_region(self, rect: Rect) -> Option<Region> {
        if self.in_region(rect, Region::LeftUp) {
            Some(Region::LeftUp)
        } else if self.in_region(rect, Region::RightUp) {
            Some(Region::RightUp)
        } else if self.in_region(rect, Region::LeftDown) {
            Some(Region::LeftDown)
        } else if self.in_region(rect, Region::RightDown) {
            Some(Region::RightDown)
        } else if self.in_region(rect, Region::Left) {
            Some(Region::Left)
        } else if self.in_region(rect, Region::Right) {
            Some(Region::Right)
        } else if self.in_region(rect, Region::Up) {
            Some(Region::Up)
        } else if self.in_region(rect, Region::Down) {
            Some(Region::Down)
        } else {
            None
        }
    }

    /// Where a circle whose center is in `region` touches `rect`: the corner
    /// itself for a corner square, the projection of the center onto the
    /// side for a strip.
    pub open spec fn contact_point(self, rect: Rect, region: Region) -> (i32, i32) {
        let cx = self.spec_center().0;
        let cy = self.spec_center().1;
        let left = rect.x;
        let up = rect.y;
        let right = rect.spec_right() as i32;
        let down = rect.spec_bottom() as i32;
        match region {
            Region::LeftUp => (left, up),
            Region::RightUp => (right, up),
            Region::LeftDown => (left, down),
            Region::RightDown => (right, down),
            Region::Left => (left, cy),
            Region::Right => (right, cy),
            Region::Up => (cx, up),
            Region::Down => (cx, down),
        }
    }

    /// What [`Circle::contact`] returns. There is contact when the bounding
    /// square overlaps the rectangle, the center lies in one of the eight
    /// regions and, for a corner square, the corner is no further from the
    /// center than the radius.
    pub open spec fn spec_contact(self, rect: Rect) -> Option<Contact> {
        if !self.spec_to_rect().intersects(rect) {
            None
        } else {
            match self.spec_region(rect) {
                None => None,
                Some(region) => {
                    let point = self.contact_point(rect, region);
                    if region.is_corner() && distance_spec(self.spec_center(), point) > self.radius {
                        None
                    } else {
                        Some(Contact { region, x: point.0, y: point.1 })
                    }
                },
            }
        }
    }

    /// What [`Circle::collision`] returns: the point of
    /// [`Circle::spec_contact`], if there is one.
    pub open spec fn spec_collision(self, rect: Rect) -> Collision {
        match self.spec_contact(rect) {
            None => Collision::NoContact,
            Some(contact) => Collision::At(contact.x, contact.y),
        }
    }

    /// Whether the circle is well-formed.
    pub fn valid(&self) -> (ok: bool)
        ensures
            ok == self.wf(),
    {
        -LIMIT <= self.x && self.x <= LIMIT && -LIMIT <= self.y && self.y <= LIMIT && 0
            < self.radius && self.radius < LIMIT
    }

    /// The grid point that holds the center.
    pub fn center(&self) -> (c: (i32, i32))
        requires
            self.wf(),
        ensures
            c == self.spec_center(),
    {
        ((self.x / ONE) as i32, (self.y / ONE) as i32)
    }

    /// The top-left corner of the bounding square.
    pub fn corner(&self) -> (c: (i32, i32))
        requires
            self.wf(),
        ensures
            c.0 == self.spec_center().0 - self.reach(),
            c.1 == self.spec_center().1 - self.reach(),
    {
        let reach: i32 = (self.radius / ONE) as i32;
        let c: (i32, i32) = self.center();
        (c.0 - reach, c.1 - reach)
    }

    /// The center as a [`Point`].
    pub fn to_point(&self) -> (p: Point)
        requires
            self.wf(),
        ensures
            p.x == self.spec_center().0,
            p.y == self.spec_center().1,
    {
        let c: (i32, i32) = self.center();
        Point::new(c.0, c.1)
    }

    /// The bounding square on the grid.
    pub fn to_rect(&self) -> (r: Rect)
        requires
            self.wf(),
        ensures
            r == self.spec_to_rect(),
            r.wf(),
    {
        let side: u32 = (self.radius / ONE) as u32 * 2;
        let c: (i32, i32) = self.corner();
        Rect::new(c.0, c.1, side, side)
    }

    /// Which of the eight regions around `rect` holds the center, if any.
    /// The regions do not overlap, so the order of the tests decides
    /// nothing.
    pub fn region(&self, rect: Rect) -> (found: Option<Region>)
        requires
            self.wf(),
            rect.wf(),
        ensures
            found == self.spec_region(rect),
            found matches Some(region) ==> self.in_region(rect, region),
    {
        let (left, up): (i32, i32) = (rect.x, rect.y);
        let (right, down): (i32, i32) = (rect.right(), rect.bottom());
        let size: u32 = (self.radius / ONE) as u32 * 2;
        let span: i32 = size as i32;
        let p: Point = self.to_point();

        let left_up = Rect { x: left - span, y: up - span, w: size, h: size };
        let right_up = Rect { x: right, y: up - span, w: size, h: size };
        let left_down = Rect { x: left - span, y: down, w: size, h: size };
        let right_down = Rect { x: right, y: down, w: size, h: size };

        let left_r = Rect { x: left - span, y: up, w: size, h: rect.h };
        let up_r = Rect { x: left, y: up - span, w: rect.w, h: size };
        let right_r = Rect { x: right, y: up, w: size, h: rect.h };
        let down_r = Rect { x: left, y: down, w: rect.w, h: size };

        if left_up.contains_point(p) {
            Some(Region::LeftUp)
        } else if right_up.contains_point(p) {
            Some(Region::RightUp)
        } else if left_down.contains_point(p) {
            Some(Region::LeftDown)
        } else if right_down.contains_point(p) {
            Some(Region::RightDown)
        } else if left_r.contains_point(p) {
            Some(Region::Left)
        } else if right_r.contains_point(p) {
            Some(Region::Right)
        } else if up_r.contains_point(p) {
            Some(Region::Up)
        } else if down_r.contains_point(p) {
            Some(Region::Down)
        } else {
            None
        }
    }

    /// Tests the circle against `rect` and classifies the contact: none, at
    /// a corner, or with a side at the projection of the center onto it.
    pub fn contact(&self, rect: Rect) -> (c: Option<Contact>)
        requires
            self.wf(),
            rect.wf(),
        ensures
            c == self.spec_contact(rect),
    {
        if !self.to_rect().has_intersection(rect) {
            return None;
        }
        let (left, up): (i32, i32) = (rect.x, rect.y);
        let (right, down): (i32, i32) = (rect.right(), rect.bottom());
        let (cx, cy): (i32, i32) = self.center();
        match self.region(rect) {
            None => None,
            Some(Region::LeftUp) => self.corner_contact(Region::LeftUp, left, up),
            Some(Region::RightUp) => self.corner_contact(Region::RightUp, right, up),
            Some(Region::LeftDown) => self.corner_contact(Region::LeftDown, left, down),
            Some(Region::RightDown) => self.corner_contact(Region::RightDown, right, down),
            Some(Region::Left) => Some(Contact { region: Region::Left, x: left, y: cy }),
            Some(Region::Right) => Some(Contact { region: Region::Right, x: right, y: cy }),
            Some(Region::Up) => Some(Contact { region: Region::Up, x: cx, y: up }),
            Some(Region::Down) => Some(Contact { region: Region::Down, x: cx, y: down }),
        }
    }

    fn corner_contact(&self, region: Region, x: i32, y: i32) -> (c: Option<Contact>)
        requires
            self.wf(),
        ensures
            c == if distance_spec(self.spec_center(), (x, y)) > self.radius {
                None
            } else {
                Some(Contact { region, x, y })
            },
    {
        if distance(self.center(), (x, y)) <= self.radius {
            Some(Contact { region, x, y })
        } else {
            None
        }
    }

    /// Tests the circle against `rect`: no contact, or the grid point where
    /// the two touch.
    pub fn collision(&self, rect: Rect) -> (c: Collision)
        requires
            self.wf(),
            rect.wf(),
        ensures
            c == self.spec_collision(rect),
    {
        match self.contact(rect) {
            None => Collision::NoContact,
            Some(contact) => Collision::At(contact.x, contact.y),
        }
    }
}

/// The eight regions around a rectangle do not overlap: a center lies in at
/// most one of them.
pub proof fn lemma_regions_disjoint(circle: Circle, rect: Rect, a: Region, b: Region)
    requires
        circle.wf(),
        circle.in_region(rect, a),
        circle.in_region(rect, b),
    ensures
        a == b,
{
}

/// A circle whose center lies in a corner square, but further from the
/// corner than its radius, makes no contact.
pub proof fn lemma_corner_out_of_reach(circle: Circle, rect: Rect, region: Region)
    requires
        circle.wf(),
        rect.wf(),
        region.is_corner(),
        circle.in_region(rect, region),
        distance_spec(circle.spec_center(), circle.contact_point(rect, region)) > circle.radius,
    ensures
        circle.spec_contact(rect) is None,
        circle.spec_collision(rect) == Collision::NoContact,
{
    if circle.spec_to_rect().intersects(rect) {
        lemma_regions_disjoint(circle, rect, region, circle.spec_region(rect).unwrap());
    }
}

/// A circle whose bounding square overlaps the rectangle and whose center
/// lies in the strip beside one of its sides touches that side, at the
/// projection of the center onto it.
pub proof fn lemma_side_contact(circle: Circle, rect: Rect, region: Region)
    requires
        circle.wf(),
        rect.wf(),
        !region.is_corner(),
        circle.in_region(rect, region),
        circle.spec_to_rect().intersects(rect),
    ensures
        circle.spec_contact(rect) == Some(
            Contact {
                region,
                x: circle.contact_point(rect, region).0,
                y: circle.contact_point(rect, region).1,
            },
        ),
        circle.spec_collision(rect) == Collision::At(
            circle.contact_point(rect, region).0,
            circle.contact_point(rect, region).1,
        ),
        region.is_flank() ==> circle.contact_point(rect, region).1 == circle.spec_center().1,
        region.is_cap() ==> circle.contact_point(rect, region).0 == circle.spec_center().0,
{
    lemma_regions_disjoint(circle, rect, region, circle.spec_region(rect).unwrap());
}

/// When the bounding square overlaps the rectangle, the center lies in none
/// of the eight regions exactly when it lies inside the rectangle itself:
/// the one case in which an overlapping circle goes unreported.
pub proof fn lemma_no_region_iff_inside(circle: Circle, rect: Rect)
    requires
        circle.wf(),
        rect.wf(),
        circle.spec_to_rect().intersects(rect),
    ensures
        circle.spec_region(rect) is None <==> rect.contains(
            circle.spec_center().0 as int,
            circle.spec_center().1 as int,
        ),
        circle.spec_region(rect) is None ==> circle.spec_collision(rect) == Collision::NoContact,
{
}

proof fn lemma_distance_along_axis(a: (i32, i32), b: (i32, i32), d: int)
    requires
        0 <= d,
        (a.0 == b.0 && (a.1 - b.1 == d || b.1 - a.1 == d)) || (a.1 == b.1 && (a.0 - b.0 == d || b.0
            - a.0 == d)),
    ensures
        distance_spec(a, b) == d * ONE,
{
    let n = distance_squared(a, b) * ONE * ONE;
    assert(distance_squared(a, b) == d * d) by (nonlinear_arith)
        requires
            (a.0 == b.0 && (a.1 - b.1 == d || b.1 - a.1 == d)) || (a.1 == b.1 && (a.0 - b.0 == d
                || b.0 - a.0 == d)),
            distance_squared(a, b) == (a.0 - b.0) * (a.0 - b.0) + (a.1 - b.1) * (a.1 - b.1),
    ;
    assert(is_sqrt_floor(n, d * ONE)) by (nonlinear_arith)
        requires
            n == d * d * ONE * ONE,
            0 <= d,
    ;
    lemma_sqrt_floor_unique(n, d * ONE, sqrt_floor(n));
}

/// Where there is contact, the contact point lies on the outline of the
/// rectangle, and no further from the center than the radius: the circle
/// does reach the rectangle there.
pub proof fn lemma_contact_within_reach(circle: Circle, rect: Rect)
    requires
        circle.wf(),
        rect.wf(),
        circle.spec_contact(rect) is Some,
    ensures
        ({
            let contact = circle.spec_contact(rect).unwrap();
            &&& distance_spec(circle.spec_center(), (contact.x, contact.y)) <= circle.radius
            &&& rect.x <= contact.x <= rect.spec_right()
            &&& rect.y <= contact.y <= rect.spec_bottom()
            &&& (contact.x == rect.x || contact.x == rect.spec_right() || contact.y == rect.y
                || contact.y == rect.spec_bottom())
        }),
{
    let contact = circle.spec_contact(rect).unwrap();
    let center = circle.spec_center();
    let region = contact.region;
    if !region.is_corner() {
        let d: int = if region is Left {
            contact.x - center.0
        } else if region is Right {
            center.0 - contact.x
        } else if region is Up {
            contact.y - center.1
        } else {
            center.1 - contact.y
        };
        lemma_distance_along_axis(center, (contact.x, contact.y), d);
        assert(d < circle.reach());
        assert(circle.reach() * ONE <= circle.radius);
    }
}

} // verus!
