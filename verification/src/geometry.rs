//! Angle arithmetic and the reflection primitives.
//!
//! Every quantity that varies continuously is held as a fixed-point `i64`
//! counted in billionths: a length of one pixel and an angle of one radian are
//! both written [`ONE`]. Angles grow clockwise on screen (the y axis points
//! down), zero pointing east, and a normalized angle lies in `[0, TWO_PI)`.

use vstd::prelude::*;
use crate::fixed::{arc, arc_fixed, cos_fixed, cos_sin, sin_fixed, sqrt, sqrt_floor, is_sqrt_floor};

verus! {

/// One pixel of length, or one radian of angle, in fixed-point units.
pub const ONE: i64 = 1_000_000_000;

/// Half a turn: π radians, rounded down to a multiple of four so that
/// quarter and eighth turns are whole numbers of units.
pub const PI: i64 = 3_141_592_652;

/// A full turn.
pub const TWO_PI: i64 = 6_283_185_304;

/// A quarter turn.
pub const HALF_PI: i64 = 1_570_796_326;

/// An eighth of a turn.
pub const QUARTER_PI: i64 = 785_398_163;

/// The quotient of `a` by `b` rounded toward zero.
pub open spec fn div_trunc(a: int, b: int) -> int
    recommends
        b != 0,
{
    if b > 0 {
        if a >= 0 {
            a / b
        } else {
            -((-a) / b)
        }
    } else {
        if a >= 0 {
            -(a / (-b))
        } else {
            (-a) / (-b)
        }
    }
}

/// The angle of `deg` whole degrees: `deg * PI / 180`, rounded toward zero.
/// Multiples of 45 degrees convert exactly.
pub fn to_rad(deg: i32) -> (rad: i64)
    ensures
        rad == div_trunc(deg * PI, 180),
        deg % 45 == 0 ==> rad * 180 == deg * PI,
{
    (deg as i64) * PI / 180
}

/// The offset of cell `index` when a span of `length` is cut into `width`
/// equal cells: `index * length / width`, rounded toward zero.
pub fn split(length: i32, width: i32, index: i32) -> (offset: i32)
    requires
        width != 0,
        i32::MIN <= div_trunc(index * length, width as int) <= i32::MAX,
    ensures
        offset == div_trunc(index * length, width as int),
{
    assert(-0x4000_0000_0000_0000 <= index * length <= 0x4000_0000_0000_0000)
        by (nonlinear_arith)
        requires
            -0x8000_0000 <= index < 0x8000_0000,
            -0x8000_0000 <= length < 0x8000_0000,
    ;
    let product: i64 = (index as i64) * (length as i64);
    let quotient: i64 = if width > 0 {
        product / (width as i64)
    } else {
        (-product) / (-(width as i64))
    };
    quotient as i32
}

/// The representative of `angle` in `[0, TWO_PI)`.
pub open spec fn normalize_spec(angle: int) -> int {
    angle % (TWO_PI as int)
}

/// What [`horizontal_bounce`] returns.
pub open spec fn horizontal_bounce_spec(angle: int) -> int {
    normalize_spec(PI - angle)
}

/// What [`vertical_bounce`] returns.
pub open spec fn vertical_bounce_spec(angle: int) -> int {
    normalize_spec(TWO_PI - angle)
}

/// What [`bounce`] returns.
pub open spec fn bounce_spec(move_angle: int, normal: int) -> int {
    normalize_spec(normal - (move_angle - normal) + PI)
}

fn wrap(angle: i128) -> (wrapped: i64)
    ensures
        wrapped == normalize_spec(angle as int),
        0 <= wrapped < TWO_PI,
{
    let rem: i128 = angle % (TWO_PI as i128);
    if rem < 0 {
        (rem + TWO_PI as i128) as i64
    } else {
        rem as i64
    }
}

/// Brings any angle into `[0, TWO_PI)` by adding or removing whole turns.
pub fn normalize(angle: i64) -> (wrapped: i64)
    ensures
        wrapped == normalize_spec(angle as int),
        0 <= wrapped < TWO_PI,
        0 <= angle < TWO_PI ==> wrapped == angle,
{
    wrap(angle as i128)
}

/// Reflects a travel direction off a vertical wall: the horizontal component
/// of the motion changes sign.
pub fn horizontal_bounce(angle: i64) -> (out: i64)
    ensures
        out == horizontal_bounce_spec(angle as int),
        0 <= out < TWO_PI,
        0 <= angle <= PI ==> out == PI - angle,
        PI < angle < TWO_PI ==> out == PI - angle + TWO_PI,
{
    wrap(PI as i128 - angle as i128)
}

/// Reflects a travel direction off a horizontal wall: the vertical component
/// of the motion changes sign.
pub fn vertical_bounce(angle: i64) -> (out: i64)
    ensures
        out == vertical_bounce_spec(angle as int),
        0 <= out < TWO_PI,
        angle == 0 ==> out == 0,
        0 < angle < TWO_PI ==> out == TWO_PI - angle,
{
    wrap(TWO_PI as i128 - angle as i128)
}

/// Reflects `move_angle` off the surface whose outward normal points along
/// `normal`: the reversed direction mirrored about the normal.
pub fn bounce(move_angle: i64, normal: i64) -> (out: i64)
    ensures
        out == bounce_spec(move_angle as int, normal as int),
        0 <= out < TWO_PI,
{
    wrap(2 * (normal as i128) - move_angle as i128 + PI as i128)
}

/// Bouncing twice off the same vertical wall restores a normalized direction.
pub proof fn lemma_horizontal_bounce_involution(angle: int)
    requires
        0 <= angle < TWO_PI,
    ensures
        horizontal_bounce_spec(horizontal_bounce_spec(angle)) == angle,
{
}

/// Bouncing twice off the same horizontal wall restores a normalized
/// direction.
pub proof fn lemma_vertical_bounce_involution(angle: int)
    requires
        0 <= angle < TWO_PI,
    ensures
        vertical_bounce_spec(vertical_bounce_spec(angle)) == angle,
{
}

/// Bouncing twice off the same surface restores a normalized direction,
/// whatever the surface's normal.
pub proof fn lemma_bounce_involution(move_angle: int, normal: int)
    requires
        0 <= move_angle < TWO_PI,
    ensures
        bounce_spec(bounce_spec(move_angle, normal), normal) == move_angle,
{
    let once: int = bounce_spec(move_angle, normal);
    let turns: int = (2 * normal - move_angle + PI) / (TWO_PI as int);
    assert(once == 2 * normal - move_angle + PI - turns * TWO_PI);
    assert(2 * normal - once + PI == move_angle + turns * TWO_PI);
}

/// A bounce whose normal points along the x axis, either way, is a
/// horizontal bounce; one whose normal points along the y axis is a vertical
/// bounce.
pub proof fn lemma_bounce_off_axis(move_angle: int)
    ensures
        bounce_spec(move_angle, 0) == horizontal_bounce_spec(move_angle),
        bounce_spec(move_angle, PI as int) == horizontal_bounce_spec(move_angle),
        bounce_spec(move_angle, HALF_PI as int) == vertical_bounce_spec(move_angle),
        bounce_spec(move_angle, PI + HALF_PI) == vertical_bounce_spec(move_angle),
{
}

/// What [`to_cartesian`] returns: the components of a vector of the given
/// length along the given angle, each rounded toward zero.
pub open spec fn to_cartesian_spec(length: int, angle: int) -> (int, int) {
    (div_trunc(length * cos_fixed(angle), ONE as int), div_trunc(length * sin_fixed(angle), ONE as int))
}

proof fn lemma_component_bound(length: int, c: int)
    by (nonlinear_arith)
    requires
        -ONE <= c <= ONE,
    ensures
        length >= 0 ==> -length * ONE <= length * c <= length * ONE,
        length < 0 ==> length * ONE <= length * c <= -length * ONE,
{
}

fn component(length: i64, c: i64) -> (r: i64)
    requires
        -ONE <= c <= ONE,
        length > i64::MIN,
    ensures
        r == div_trunc(length * c, ONE as int),
        length >= 0 ==> -length <= r <= length,
        length < 0 ==> length <= r <= -length,
{
    proof {
        lemma_component_bound(length as int, c as int);
    }
    let product: i128 = (length as i128) * (c as i128);
    (product / (ONE as i128)) as i64
}

/// Polar to Cartesian: the `(dx, dy)` of a step of `length` along `angle`.
/// Neither component is longer than the step itself, so the one length
/// whose negation does not fit the type is left out.
pub fn to_cartesian(length: i64, angle: i64) -> (d: (i64, i64))
    requires
        length > i64::MIN,
    ensures
        d.0 == to_cartesian_spec(length as int, angle as int).0,
        d.1 == to_cartesian_spec(length as int, angle as int).1,
        length >= 0 ==> -length <= d.0 <= length && -length <= d.1 <= length,
{
    let (c, s): (i64, i64) = cos_sin(angle);
    (component(length, c), component(length, s))
}

/// The square of the distance between two grid points.
pub open spec fn distance_squared(a: (i32, i32), b: (i32, i32)) -> int {
    (a.0 - b.0) * (a.0 - b.0) + (a.1 - b.1) * (a.1 - b.1)
}

/// What [`distance`] returns: the Euclidean distance in fixed-point units,
/// rounded down.
pub open spec fn distance_spec(a: (i32, i32), b: (i32, i32)) -> int {
    sqrt_floor(distance_squared(a, b) * ONE * ONE)
}

fn relative_distance(dist: (i64, i64)) -> (r: i64)
    requires
        -0x1_0000_0000 < dist.0 < 0x1_0000_0000,
        -0x1_0000_0000 < dist.1 < 0x1_0000_0000,
    ensures
        is_sqrt_floor((dist.0 * dist.0 + dist.1 * dist.1) * ONE * ONE, r as int),
        r == sqrt_floor((dist.0 * dist.0 + dist.1 * dist.1) * ONE * ONE),
{
    let x: i128 = dist.0 as i128;
    let y: i128 = dist.1 as i128;
    assert(0 <= x * x <= 0x1_0000_0000_0000_0000) by (nonlinear_arith)
        requires
            -0x1_0000_0000 < x < 0x1_0000_0000,
    ;
    assert(0 <= y * y <= 0x1_0000_0000_0000_0000) by (nonlinear_arith)
        requires
            -0x1_0000_0000 < y < 0x1_0000_0000,
    ;
    let squares: i128 = x * x + y * y;
    let scaled: i128 = squares * 1_000_000_000_000_000_000;
    assert(scaled == (dist.0 * dist.0 + dist.1 * dist.1) * ONE * ONE) by (nonlinear_arith)
        requires
            scaled == squares * 1_000_000_000_000_000_000,
            squares == dist.0 * dist.0 + dist.1 * dist.1,
    ;
    let root: u64 = sqrt(scaled as u128);
    assert(root < 0x8000_0000_0000_0000) by (nonlinear_arith)
        requires
            0 <= root,
            root * root <= scaled,
            scaled < 0x4000_0000_0000_0000_0000_0000_0000_0000,
    ;
    root as i64
}

/// The Euclidean distance between two grid points, in fixed-point units and
/// rounded down to the unit.
pub fn distance(a: (i32, i32), b: (i32, i32)) -> (d: i64)
    ensures
        d == distance_spec(a, b),
        is_sqrt_floor(distance_squared(a, b) * ONE * ONE, d as int),
{
    relative_distance((a.0 as i64 - b.0 as i64, a.1 as i64 - b.1 as i64))
}

/// What [`line_angle`] returns.
pub open spec fn line_angle_spec(begin: (i32, i32), end: (i32, i32)) -> int {
    arc_fixed(end.0 - begin.0, end.1 - begin.1)
}

/// The direction of travel from `begin` to `end`, in `[0, TWO_PI)`; zero
/// when the two points coincide.
pub fn line_angle(begin: (i32, i32), end: (i32, i32)) -> (angle: i64)
    ensures
        angle == line_angle_spec(begin, end),
        0 <= angle < TWO_PI,
{
    arc(end.0 as i64 - begin.0 as i64, end.1 as i64 - begin.1 as i64)
}

} // verus!
