//! The new direction of a ball after a contact, and the paddle's steering
//! rule.

use vstd::prelude::*;
use crate::circle::{Circle, Contact, Region};
use crate::fixed::{lemma_arc_at_eighth_turns};
use crate::geometry::{
    bounce, bounce_spec, div_trunc, horizontal_bounce, horizontal_bounce_spec, line_angle,
    line_angle_spec, lemma_bounce_off_axis, normalize_spec, to_rad, vertical_bounce,
    vertical_bounce_spec, HALF_PI, ONE, PI, TWO_PI,
};
use crate::rect::{clamp_spec, Rect};

verus! {

/// The range of directions in which a ball may leave the paddle.
#[derive(Clone, Copy, Debug, PartialEq, Eq, Structural)]
pub struct Cone {
    pub min: i64,
    pub max: i64,
}

impl Cone {
    /// Bounds in order, both normalized angles.
    pub open spec fn wf(self) -> bool {
        0 <= self.min <= self.max < TWO_PI
    }

    /// Whether the cone is well-formed.
    pub fn valid(&self) -> (ok: bool)
        ensures
            ok == self.wf(),
    {
        0 <= self.min && self.min <= self.max && self.max < TWO_PI
    }

    /// The cone with the given bounds, if they are normalized angles in
    /// order.
    pub fn new(min: i64, max: i64) -> (cone: Option<Cone>)
        ensures
            cone matches Some(c) ==> c.min == min && c.max == max && c.wf(),
            cone is Some <==> 0 <= min <= max < TWO_PI,
    {
        if 0 <= min && min <= max && max < TWO_PI {
            Some(Cone { min, max })
        } else {
            None
        }
    }

    /// The cone that opens 80 degrees either side of straight up: from 190
    /// to 350 degrees.
    pub fn upward() -> (cone: Cone)
        ensures
            cone.wf(),
            cone.min == div_trunc(190 * PI, 180),
            cone.max == div_trunc(350 * PI, 180),
            cone.min <= PI + HALF_PI <= cone.max,
    {
        Cone { min: to_rad(190), max: to_rad(350) }
    }
}

/// What [`reflect`] returns. Off the left or right side the direction takes
/// a horizontal bounce, off the top or bottom a vertical one; off a corner
/// it is mirrored about the line from the corner to the center.
pub open spec fn reflect_spec(direction: int, contact: Contact, center: (i32, i32)) -> int {
    if contact.region.is_flank() {
        horizontal_bounce_spec(direction)
    } else if contact.region.is_cap() {
        vertical_bounce_spec(direction)
    } else {
        bounce_spec(direction, line_angle_spec((contact.x, contact.y), center))
    }
}

/// The direction of a ball centered at `center` after the given contact.
pub fn reflect(direction: i64, contact: Contact, center: (i32, i32)) -> (out: i64)
    ensures
        out == reflect_spec(direction as int, contact, center),
        0 <= out < TWO_PI,
{
    match contact.region {
        Region::Left | Region::Right => horizontal_bounce(direction),
        Region::Up | Region::Down => vertical_bounce(direction),
        _ => bounce(direction, line_angle((contact.x, contact.y), center)),
    }
}

/// The steering term: how far from the paddle's middle the ball struck, as
/// a fraction of the paddle's width, read as an angle.
pub open spec fn steering_spec(contact_x: int, paddle_center_x: int, paddle_width: int) -> int {
    div_trunc(contact_x - paddle_center_x * ONE, paddle_width)
}

/// What [`steer`] returns: the direction plus the steering term, clamped
/// into the cone.
pub open spec fn steer_spec(
    direction: int,
    contact_x: int,
    paddle_center_x: int,
    paddle_width: int,
    cone: Cone,
) -> int {
    clamp_spec(
        direction + steering_spec(contact_x, paddle_center_x, paddle_width),
        cone.min as int,
        cone.max as int,
    )
}

/// The paddle's steering rule. `direction` is the ball's direction after
/// its bounce, `contact_x` the x coordinate of its center in fixed-point
/// units, `paddle_center_x` the grid column of the paddle's middle.
pub fn steer(
    direction: i64,
    contact_x: i64,
    paddle_center_x: i32,
    paddle_width: u32,
    cone: Cone,
) -> (out: i64)
    requires
        paddle_width > 0,
        cone.wf(),
    ensures
        out == steer_spec(
            direction as int,
            contact_x as int,
            paddle_center_x as int,
            paddle_width as int,
            cone,
        ),
        cone.min <= out <= cone.max,
{
    let middle: i128 = (paddle_center_x as i128) * 1_000_000_000;
    let offset: i128 = contact_x as i128 - middle;
    let delta: i128 = offset / (paddle_width as i128);
    proof {
        lemma_div_trunc_shrinks(offset as int, paddle_width as int);
    }
    let steered: i128 = direction as i128 + delta;
    if steered < cone.min as i128 {
        cone.min
    } else if steered > cone.max as i128 {
        cone.max
    } else {
        steered as i64
    }
}

proof fn lemma_div_trunc_shrinks(a: int, b: int)
    by (nonlinear_arith)
    requires
        b >= 1,
    ensures
        a >= 0 ==> 0 <= a / b <= a,
        a < 0 ==> a <= -((-a) / b) <= 0,
{
}

/// What [`paddle_bounce`] returns.
pub open spec fn paddle_bounce_spec(
    direction: int,
    circle: Circle,
    contact: Contact,
    paddle: Rect,
    cone: Cone,
) -> int {
    steer_spec(
        reflect_spec(direction, contact, circle.spec_center()),
        circle.x as int,
        paddle.x + paddle.w / 2,
        paddle.w as int,
        cone,
    )
}

/// The direction of a ball after the given contact with the paddle: the
/// bounce, then the steering rule.
pub fn paddle_bounce(direction: i64, circle: &Circle, contact: Contact, paddle: Rect, cone: Cone) -> (out: i64)
    requires
        circle.wf(),
        paddle.wf(),
        paddle.w > 0,
        cone.wf(),
    ensures
        out == paddle_bounce_spec(direction as int, *circle, contact, paddle, cone),
        cone.min <= out <= cone.max,
{
    let bounced: i64 = reflect(direction, contact, circle.center());
    steer(bounced, circle.x, paddle.center().x, paddle.w, cone)
}

/// Off a corner the direction is mirrored about the line from the corner to
/// the center. With the center diagonally above and to the right of the
/// corner, a ball travelling east leaves travelling straight down.
pub proof fn lemma_corner_reflection(direction: int, contact: Contact, center: (i32, i32))
    requires
        contact.region.is_corner(),
    ensures
        reflect_spec(direction, contact, center) == bounce_spec(
            direction,
            line_angle_spec((contact.x, contact.y), center),
        ),
        center.0 > contact.x && center.0 - contact.x == contact.y - center.1 ==> reflect_spec(
            direction,
            contact,
            center,
        ) == normalize_spec(HALF_PI - direction),
        center.0 > contact.x && center.0 - contact.x == contact.y - center.1 ==> reflect_spec(
            0,
            contact,
            center,
        ) == HALF_PI,
{
    if center.0 > contact.x && center.0 - contact.x == contact.y - center.1 {
        lemma_arc_at_eighth_turns(center.0 - contact.x);
    }
}

/// Off a side, the horizontal or vertical bounce is the same reflection as
/// off a corner, about the line from the contact point to the center, as
/// long as that line has a direction: the one exception is a center on the
/// very row just below the rectangle, which coincides with its contact
/// point.
pub proof fn lemma_side_reflection(direction: int, circle: Circle, rect: Rect, region: Region)
    requires
        circle.wf(),
        rect.wf(),
        !region.is_corner(),
        circle.in_region(rect, region),
        region is Down ==> circle.spec_center().1 != rect.spec_bottom(),
    ensures
        ({
            let point = circle.contact_point(rect, region);
            reflect_spec(direction, Contact { region, x: point.0, y: point.1 }, circle.spec_center())
                == bounce_spec(direction, line_angle_spec(point, circle.spec_center()))
        }),
{
    let point = circle.contact_point(rect, region);
    let center = circle.spec_center();
    lemma_bounce_off_axis(direction);
    match region {
        Region::Left => {
            lemma_arc_at_eighth_turns(point.0 - center.0);
        },
        Region::Right => {
            if center.0 > point.0 {
                lemma_arc_at_eighth_turns(center.0 - point.0);
            }
        },
        Region::Up => {
            lemma_arc_at_eighth_turns(point.1 - center.1);
        },
        _ => {
            lemma_arc_at_eighth_turns(center.1 - point.1);
        },
    }
}

/// The steered direction never leaves the cone, and a steered direction that
/// would fall on or outside a bound lands exactly on that bound: the nearer
/// one. A steering term larger than half the cone's width does so from the
/// cone's middle, whichever way it points.
pub proof fn lemma_steer_clamps(
    direction: int,
    contact_x: int,
    paddle_center_x: int,
    paddle_width: int,
    cone: Cone,
)
    requires
        cone.wf(),
    ensures
        ({
            let delta = steering_spec(contact_x, paddle_center_x, paddle_width);
            let out = steer_spec(direction, contact_x, paddle_center_x, paddle_width, cone);
            &&& cone.min <= out <= cone.max
            &&& direction + delta <= cone.min ==> out == cone.min
            &&& direction + delta >= cone.max ==> out == cone.max
            &&& 2 * direction == cone.min + cone.max && 2 * delta > cone.max - cone.min ==> out
                == cone.max
            &&& 2 * direction == cone.min + cone.max && 2 * -delta > cone.max - cone.min ==> out
                == cone.min
        }),
{
}

/// A ball that falls straight down onto the middle of the paddle's top
/// leaves straight up, with no deflection, if the cone holds that direction.
pub proof fn lemma_paddle_returns_straight_up(circle: Circle, contact: Contact, paddle: Rect, cone: Cone)
    requires
        cone.wf(),
        paddle.w > 0,
        cone.min <= PI + HALF_PI <= cone.max,
        contact.region is Up,
        circle.x == (paddle.x + paddle.w / 2) * ONE,
    ensures
        paddle_bounce_spec(HALF_PI as int, circle, contact, paddle, cone) == PI + HALF_PI,
{
}

/// A ball that strikes the paddle dead center is not deflected: it leaves
/// in its bounced direction, if that lies in the cone.
pub proof fn lemma_steer_dead_center(direction: int, paddle_center_x: int, paddle_width: int, cone: Cone)
    requires
        cone.wf(),
        paddle_width > 0,
        cone.min <= direction <= cone.max,
    ensures
        steer_spec(direction, paddle_center_x * ONE, paddle_center_x, paddle_width, cone) == direction,
{
}

} // verus!
