//! Fixed-point elementary functions: sine, cosine, arctangent, square root.
//!
//! Each function is defined by a short integer recipe (an alternating power
//! series in nested form, every product scaled back by [`ONE`] and every
//! quotient rounded down) and the executable code is proved to follow it
//! without overflow. The recipes agree with the real functions to a few
//! billionths; what is proved here is their shape: ranges, and the exact
//! values at every eighth of a turn.

use vstd::prelude::*;
use crate::geometry::{ONE, PI, TWO_PI, HALF_PI, QUARTER_PI};

verus! {

/// The tangent of a sixteenth of a turn, where the arctangent switches series.
pub const TAN_SIXTEENTH: i64 = 414_213_562;

/// One nested step of the sine and cosine series: `1 - x2 * t / c`.
pub open spec fn horner(x2: int, t: int, c: int) -> int {
    ONE - (x2 * t / (ONE as int)) / c
}

/// Sine of `x` for `x` in the first eighth of a turn.
#[verifier::opaque]
pub open spec fn sin_octant(x: int) -> int {
    let x2 = x * x / (ONE as int);
    x * horner(x2, horner(x2, horner(x2, horner(x2, ONE as int, 72), 42), 20), 6) / (ONE as int)
}

/// Cosine of `x` for `x` in the first eighth of a turn.
#[verifier::opaque]
pub open spec fn cos_octant(x: int) -> int {
    let x2 = x * x / (ONE as int);
    horner(x2, horner(x2, horner(x2, horner(x2, horner(x2, ONE as int, 90), 56), 30), 12), 2)
}

/// Cosine and sine of `p` for `p` in the first quarter turn: past the
/// eighth, the two octant series trade places.
pub open spec fn quadrant_cos_sin(p: int) -> (int, int) {
    if p <= QUARTER_PI {
        (cos_octant(p), sin_octant(p))
    } else {
        (sin_octant(HALF_PI - p), cos_octant(HALF_PI - p))
    }
}

/// Cosine and sine of any angle, each scaled by [`ONE`].
pub open spec fn cos_sin_spec(angle: int) -> (int, int) {
    let r = angle % (TWO_PI as int);
    let (c, s) = quadrant_cos_sin(r % (HALF_PI as int));
    let q = r / (HALF_PI as int);
    if q == 0 {
        (c, s)
    } else if q == 1 {
        (-s, c)
    } else if q == 2 {
        (-c, -s)
    } else {
        (s, -c)
    }
}

/// Cosine of `angle`, scaled by [`ONE`].
pub open spec fn cos_fixed(angle: int) -> int {
    cos_sin_spec(angle).0
}

/// Sine of `angle`, scaled by [`ONE`].
pub open spec fn sin_fixed(angle: int) -> int {
    cos_sin_spec(angle).1
}

proof fn lemma_scale_down(a: int, b: int)
    by (nonlinear_arith)
    requires
        0 <= a,
        0 <= b <= ONE,
    ensures
        0 <= a * b,
        0 <= a * b / (ONE as int) <= a,
{
}

proof fn lemma_quotient_small(a: int, c: int)
    by (nonlinear_arith)
    requires
        0 <= a,
        c >= 1,
    ensures
        0 <= a / c <= a,
{
}

proof fn lemma_horner_bounds(x2: int, t: int, c: int)
    requires
        0 <= x2 <= ONE,
        0 <= t <= ONE,
        c >= 1,
    ensures
        0 <= horner(x2, t, c) <= ONE,
{
    lemma_scale_down(x2, t);
    lemma_quotient_small(x2 * t / (ONE as int), c);
}

fn horner_step(x2: i64, t: i64, c: i64) -> (r: i64)
    requires
        0 <= x2 <= ONE,
        0 <= t <= ONE,
        c >= 1,
    ensures
        r == horner(x2 as int, t as int, c as int),
        0 <= r <= ONE,
{
    proof {
        lemma_scale_down(x2 as int, t as int);
        lemma_quotient_small(x2 * t / (ONE as int), c as int);
    }
    ONE - (x2 * t / ONE) / c
}

fn square_scaled(x: i64) -> (x2: i64)
    requires
        0 <= x <= ONE,
    ensures
        x2 == x * x / (ONE as int),
        0 <= x2 <= ONE,
{
    proof {
        lemma_scale_down(x as int, x as int);
    }
    x * x / ONE
}

fn sin_first_octant(x: i64) -> (r: i64)
    requires
        0 <= x <= QUARTER_PI,
    ensures
        r == sin_octant(x as int),
        0 <= r <= x,
{
    reveal(sin_octant);
    let x2: i64 = square_scaled(x);
    let t: i64 = horner_step(x2, horner_step(x2, horner_step(x2, horner_step(x2, ONE, 72), 42), 20), 6);
    proof {
        lemma_scale_down(x as int, t as int);
    }
    x * t / ONE
}

fn cos_first_octant(x: i64) -> (r: i64)
    requires
        0 <= x <= QUARTER_PI,
    ensures
        r == cos_octant(x as int),
        0 <= r <= ONE,
{
    reveal(cos_octant);
    let x2: i64 = square_scaled(x);
    horner_step(
        x2,
        horner_step(x2, horner_step(x2, horner_step(x2, horner_step(x2, ONE, 90), 56), 30), 12),
        2,
    )
}

fn first_quadrant(p: i64) -> (r: (i64, i64))
    requires
        0 <= p < HALF_PI,
    ensures
        r.0 == quadrant_cos_sin(p as int).0,
        r.1 == quadrant_cos_sin(p as int).1,
        0 <= r.0 <= ONE,
        0 <= r.1 <= ONE,
{
    if p <= QUARTER_PI {
        (cos_first_octant(p), sin_first_octant(p))
    } else {
        (sin_first_octant(HALF_PI - p), cos_first_octant(HALF_PI - p))
    }
}

fn whole_turn(angle: i64) -> (turn: i64)
    ensures
        turn == (angle as int) % (TWO_PI as int),
        0 <= turn < TWO_PI,
{
    let rem: i64 = angle % TWO_PI;
    if rem < 0 {
        rem + TWO_PI
    } else {
        rem
    }
}

/// Cosine and sine of `angle`, each scaled by [`ONE`].
pub fn cos_sin(angle: i64) -> (r: (i64, i64))
    ensures
        r.0 == cos_fixed(angle as int),
        r.1 == sin_fixed(angle as int),
        -ONE <= r.0 <= ONE,
        -ONE <= r.1 <= ONE,
{
    let turn: i64 = whole_turn(angle);
    let q: i64 = turn / HALF_PI;
    let (c, s): (i64, i64) = first_quadrant(turn % HALF_PI);
    if q == 0 {
        (c, s)
    } else if q == 1 {
        (-s, c)
    } else if q == 2 {
        (-c, -s)
    } else {
        (s, -c)
    }
}

/// Cosine and sine never leave `[-ONE, ONE]`.
pub proof fn lemma_cos_sin_bounded(angle: int)
    ensures
        -ONE <= cos_fixed(angle) <= ONE,
        -ONE <= sin_fixed(angle) <= ONE,
{
    let r: int = angle % (TWO_PI as int);
    let p: int = r % (HALF_PI as int);
    let x: int = if p <= QUARTER_PI { p } else { HALF_PI - p };
    lemma_octant_bounded(x);
}

proof fn lemma_octant_bounded(x: int)
    requires
        0 <= x <= QUARTER_PI,
    ensures
        0 <= sin_octant(x) <= x,
        0 <= cos_octant(x) <= ONE,
{
    reveal(sin_octant);
    reveal(cos_octant);
    lemma_scale_down(x, x);
    let x2: int = x * x / (ONE as int);
    let one: int = ONE as int;
    lemma_horner_bounds(x2, one, 72);
    lemma_horner_bounds(x2, horner(x2, one, 72), 42);
    lemma_horner_bounds(x2, horner(x2, horner(x2, one, 72), 42), 20);
    lemma_horner_bounds(x2, horner(x2, horner(x2, horner(x2, one, 72), 42), 20), 6);
    lemma_scale_down(x, horner(x2, horner(x2, horner(x2, horner(x2, one, 72), 42), 20), 6));
    lemma_horner_bounds(x2, one, 90);
    lemma_horner_bounds(x2, horner(x2, one, 90), 56);
    lemma_horner_bounds(x2, horner(x2, horner(x2, one, 90), 56), 30);
    lemma_horner_bounds(x2, horner(x2, horner(x2, horner(x2, one, 90), 56), 30), 12);
    lemma_horner_bounds(
        x2,
        horner(x2, horner(x2, horner(x2, horner(x2, one, 90), 56), 30), 12),
        2,
    );
}

/// At every quarter turn cosine and sine are exactly 0, `ONE` or `-ONE`.
pub proof fn lemma_cos_sin_at_quarter_turns()
    ensures
        cos_sin_spec(0) == (ONE as int, 0int),
        cos_sin_spec(HALF_PI as int) == (0int, ONE as int),
        cos_sin_spec(PI as int) == (-ONE as int, 0int),
        cos_sin_spec(PI + HALF_PI) == (0int, -ONE as int),
{
    reveal(sin_octant);
    reveal(cos_octant);
    assert(sin_octant(0) == 0);
    assert(cos_octant(0) == ONE);
}

/// A quarter turn further on, cosine and sine trade places: the direction
/// has turned by a right angle.
pub proof fn lemma_cos_sin_quarter_turn(angle: int)
    ensures
        cos_fixed(angle + HALF_PI) == -sin_fixed(angle),
        sin_fixed(angle + HALF_PI) == cos_fixed(angle),
{
}

/// One nested step of the arctangent series: `c - t2 * acc`.
pub open spec fn arc_step(t2: int, acc: int, c: int) -> int {
    c - t2 * acc / (ONE as int)
}

/// Arctangent of `t / ONE` for `0 <= t <= ONE`, by the series
/// `t - t^3/3 + t^5/5 - ...` up to the term in `t^17`.
#[verifier::opaque]
pub open spec fn arc_series(t: int) -> int {
    let t2 = t * t / (ONE as int);
    let a17 = 58_823_529int;
    let a15 = arc_step(t2, a17, 66_666_666);
    let a13 = arc_step(t2, a15, 76_923_076);
    let a11 = arc_step(t2, a13, 90_909_090);
    let a9 = arc_step(t2, a11, 111_111_111);
    let a7 = arc_step(t2, a9, 142_857_142);
    let a5 = arc_step(t2, a7, 200_000_000);
    let a3 = arc_step(t2, a5, 333_333_333);
    let a1 = arc_step(t2, a3, ONE as int);
    t * a1 / (ONE as int)
}

/// Arctangent of `n / d` for `0 <= n <= d`, between zero and an eighth of a
/// turn. Small ratios go through the series directly; larger ones through
/// `atan(t) = QUARTER_PI - atan((1 - t) / (1 + t))`, which keeps the
/// series' argument below [`TAN_SIXTEENTH`].
pub open spec fn arc_ratio(n: int, d: int) -> int {
    if n * ONE <= d * TAN_SIXTEENTH {
        arc_series(n * ONE / d)
    } else {
        QUARTER_PI - arc_series((d - n) * ONE / (d + n))
    }
}

/// The angle of the vector `(dx, dy)` within the first quarter turn, taken
/// on the magnitudes of its components.
pub open spec fn arc_quadrant(ax: int, ay: int) -> int {
    if ay <= ax {
        arc_ratio(ay, ax)
    } else {
        HALF_PI - arc_ratio(ax, ay)
    }
}

/// The direction of the vector `(dx, dy)` as an angle in `[0, TWO_PI)`;
/// zero for the null vector.
pub open spec fn arc_fixed(dx: int, dy: int) -> int {
    if dx == 0 && dy == 0 {
        0
    } else {
        let phi = arc_quadrant(if dx >= 0 { dx } else { -dx }, if dy >= 0 { dy } else { -dy });
        if dx >= 0 && dy >= 0 {
            phi
        } else if dx < 0 && dy >= 0 {
            PI - phi
        } else if dx < 0 {
            PI + phi
        } else {
            (TWO_PI - phi) % (TWO_PI as int)
        }
    }
}

proof fn lemma_arc_step_bounds(t2: int, acc: int, c: int)
    requires
        0 <= t2 <= ONE,
        0 <= acc <= c,
    ensures
        0 <= arc_step(t2, acc, c) <= c,
{
    lemma_scale_down(acc, t2);
    assert(t2 * acc == acc * t2) by (nonlinear_arith);
}

fn arc_step_exec(t2: i64, acc: i64, c: i64) -> (r: i64)
    requires
        0 <= t2 <= ONE,
        0 <= acc <= c <= ONE,
    ensures
        r == arc_step(t2 as int, acc as int, c as int),
        0 <= r <= c,
{
    proof {
        lemma_arc_step_bounds(t2 as int, acc as int, c as int);
        lemma_scale_down(t2 as int, acc as int);
    }
    c - t2 * acc / ONE
}

fn arc_series_exec(t: i64) -> (r: i64)
    requires
        0 <= t <= ONE,
    ensures
        r == arc_series(t as int),
        0 <= r <= t,
{
    reveal(arc_series);
    let t2: i64 = square_scaled(t);
    let a15: i64 = arc_step_exec(t2, 58_823_529, 66_666_666);
    let a13: i64 = arc_step_exec(t2, a15, 76_923_076);
    let a11: i64 = arc_step_exec(t2, a13, 90_909_090);
    let a9: i64 = arc_step_exec(t2, a11, 111_111_111);
    let a7: i64 = arc_step_exec(t2, a9, 142_857_142);
    let a5: i64 = arc_step_exec(t2, a7, 200_000_000);
    let a3: i64 = arc_step_exec(t2, a5, 333_333_333);
    let a1: i64 = arc_step_exec(t2, a3, ONE);
    proof {
        lemma_scale_down(t as int, a1 as int);
    }
    t * a1 / ONE
}

proof fn lemma_arc_series_bounds(t: int)
    requires
        0 <= t <= ONE,
    ensures
        0 <= arc_series(t) <= t,
        t == 0 ==> arc_series(t) == 0,
{
    reveal(arc_series);
    lemma_scale_down(t, t);
    let t2: int = t * t / (ONE as int);
    let a15: int = arc_step(t2, 58_823_529, 66_666_666);
    lemma_arc_step_bounds(t2, 58_823_529, 66_666_666);
    let a13: int = arc_step(t2, a15, 76_923_076);
    lemma_arc_step_bounds(t2, a15, 76_923_076);
    let a11: int = arc_step(t2, a13, 90_909_090);
    lemma_arc_step_bounds(t2, a13, 90_909_090);
    let a9: int = arc_step(t2, a11, 111_111_111);
    lemma_arc_step_bounds(t2, a11, 111_111_111);
    let a7: int = arc_step(t2, a9, 142_857_142);
    lemma_arc_step_bounds(t2, a9, 142_857_142);
    let a5: int = arc_step(t2, a7, 200_000_000);
    lemma_arc_step_bounds(t2, a7, 200_000_000);
    let a3: int = arc_step(t2, a5, 333_333_333);
    lemma_arc_step_bounds(t2, a5, 333_333_333);
    let a1: int = arc_step(t2, a3, ONE as int);
    lemma_arc_step_bounds(t2, a3, ONE as int);
    lemma_scale_down(t, a1);
}

proof fn lemma_quotient_bound(a: int, d: int, k: int)
    by (nonlinear_arith)
    requires
        0 <= a <= d * k,
        d > 0,
    ensures
        0 <= a / d <= k,
{
}

proof fn lemma_arc_ratio_bounds(n: int, d: int)
    requires
        0 <= n <= d,
        d > 0,
    ensures
        0 <= arc_ratio(n, d) <= QUARTER_PI,
        n == 0 ==> arc_ratio(n, d) == 0,
        n == d ==> arc_ratio(n, d) == QUARTER_PI,
{
    if n * ONE <= d * TAN_SIXTEENTH {
        lemma_quotient_bound(n * ONE, d, TAN_SIXTEENTH as int);
        lemma_arc_series_bounds(n * ONE / d);
    } else {
        lemma_quotient_bound((d - n) * ONE, d + n, QUARTER_PI as int);
        lemma_arc_series_bounds((d - n) * ONE / (d + n));
    }
}

fn arc_ratio_exec(n: i128, d: i128) -> (r: i64)
    requires
        0 <= n <= d <= 0x8000_0000_0000_0000,
        d > 0,
    ensures
        r == arc_ratio(n as int, d as int),
        0 <= r <= QUARTER_PI,
{
    proof {
        lemma_arc_ratio_bounds(n as int, d as int);
    }
    if n * (ONE as i128) <= d * (TAN_SIXTEENTH as i128) {
        proof {
            lemma_quotient_bound(n * ONE, d as int, TAN_SIXTEENTH as int);
        }
        arc_series_exec((n * (ONE as i128) / d) as i64)
    } else {
        proof {
            lemma_quotient_bound((d - n) * ONE, d + n, QUARTER_PI as int);
        }
        QUARTER_PI - arc_series_exec(((d - n) * (ONE as i128) / (d + n)) as i64)
    }
}

/// The direction of the vector `(dx, dy)` as an angle in `[0, TWO_PI)`.
pub fn arc(dx: i64, dy: i64) -> (angle: i64)
    ensures
        angle == arc_fixed(dx as int, dy as int),
        0 <= angle < TWO_PI,
{
    if dx == 0 && dy == 0 {
        return 0;
    }
    let ax: i128 = if dx >= 0 { dx as i128 } else { -(dx as i128) };
    let ay: i128 = if dy >= 0 { dy as i128 } else { -(dy as i128) };
    let phi: i64 = if ay <= ax {
        arc_ratio_exec(ay, ax)
    } else {
        HALF_PI - arc_ratio_exec(ax, ay)
    };
    if dx >= 0 && dy >= 0 {
        phi
    } else if dx < 0 && dy >= 0 {
        PI - phi
    } else if dx < 0 {
        PI + phi
    } else {
        (TWO_PI - phi) % TWO_PI
    }
}

/// Every direction lies in `[0, TWO_PI)`.
pub proof fn lemma_arc_range(dx: int, dy: int)
    ensures
        0 <= arc_fixed(dx, dy) < TWO_PI,
{
    let ax: int = if dx >= 0 { dx } else { -dx };
    let ay: int = if dy >= 0 { dy } else { -dy };
    if dx != 0 || dy != 0 {
        if ay <= ax {
            lemma_arc_ratio_bounds(ay, ax);
        } else {
            lemma_arc_ratio_bounds(ax, ay);
        }
    }
}

/// Along the axes and the diagonals the direction is an exact multiple of
/// an eighth of a turn.
pub proof fn lemma_arc_at_eighth_turns(d: int)
    requires
        d > 0,
    ensures
        arc_fixed(d, 0) == 0,
        arc_fixed(d, d) == QUARTER_PI,
        arc_fixed(0, d) == HALF_PI,
        arc_fixed(-d, d) == HALF_PI + QUARTER_PI,
        arc_fixed(-d, 0) == PI,
        arc_fixed(-d, -d) == PI + QUARTER_PI,
        arc_fixed(0, -d) == PI + HALF_PI,
        arc_fixed(d, -d) == PI + HALF_PI + QUARTER_PI,
{
    lemma_arc_ratio_bounds(0, d);
    lemma_arc_ratio_bounds(d, d);
}

/// Whether `r` is the square root of `n` rounded down.
pub open spec fn is_sqrt_floor(n: int, r: int) -> bool {
    0 <= r && r * r <= n < (r + 1) * (r + 1)
}

/// The square root of `n` rounded down.
pub open spec fn sqrt_floor(n: int) -> int {
    choose|r: int| is_sqrt_floor(n, r)
}

/// A number has at most one rounded-down square root.
pub proof fn lemma_sqrt_floor_unique(n: int, r1: int, r2: int)
    requires
        is_sqrt_floor(n, r1),
        is_sqrt_floor(n, r2),
    ensures
        r1 == r2,
{
    assert(r1 < r2 ==> (r1 + 1) * (r1 + 1) <= r2 * r2) by (nonlinear_arith)
        requires
            0 <= r1,
    ;
    assert(r2 < r1 ==> (r2 + 1) * (r2 + 1) <= r1 * r1) by (nonlinear_arith)
        requires
            0 <= r2,
    ;
}

/// The square root of `n` rounded down, found by bisection.
pub fn sqrt(n: u128) -> (r: u64)
    ensures
        is_sqrt_floor(n as int, r as int),
        r == sqrt_floor(n as int),
{
    let mut lo: u128 = 0;
    let mut hi: u128 = 0x1_0000_0000_0000_0000;
    assert(0x1_0000_0000_0000_0000int * 0x1_0000_0000_0000_0000int
        == 0x1_0000_0000_0000_0000_0000_0000_0000_0000int) by (nonlinear_arith);
    while hi - lo > 1
        invariant
            lo < hi <= 0x1_0000_0000_0000_0000,
            lo * lo <= n < hi * hi,
        decreases hi - lo,
    {
        let mid: u128 = lo + (hi - lo) / 2;
        assert(mid * mid < 0x1_0000_0000_0000_0000_0000_0000_0000_0000) by (nonlinear_arith)
            requires
                0 <= mid < 0x1_0000_0000_0000_0000,
        ;
        if mid * mid <= n {
            lo = mid;
        } else {
            hi = mid;
        }
    }
    proof {
        assert(is_sqrt_floor(n as int, lo as int));
        lemma_sqrt_floor_unique(n as int, lo as int, sqrt_floor(n as int));
    }
    lo as u64
}

} // verus!
