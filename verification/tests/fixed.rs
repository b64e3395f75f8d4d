use arkanoid::fixed::{arc, cos_sin, sqrt};
use arkanoid::geometry::{HALF_PI, ONE, PI, QUARTER_PI, TWO_PI};

#[test]
fn cos_sin_is_exact_at_quarter_turns() {
    assert_eq!(cos_sin(0), (ONE, 0));
    assert_eq!(cos_sin(HALF_PI), (0, ONE));
    assert_eq!(cos_sin(PI), (-ONE, 0));
    assert_eq!(cos_sin(3 * HALF_PI), (0, -ONE));
    assert_eq!(cos_sin(TWO_PI), (ONE, 0));
    assert_eq!(cos_sin(-HALF_PI), (0, -ONE));
    assert_eq!(cos_sin(-TWO_PI), (ONE, 0));
    assert_eq!(cos_sin(5 * TWO_PI + PI), (-ONE, 0));
}

#[test]
fn cos_sin_at_eighth_turns() {
    assert_eq!(cos_sin(QUARTER_PI), (707_106_782, 707_106_783));
    assert_eq!(cos_sin(3 * QUARTER_PI), (-707_106_783, 707_106_782));
    assert_eq!(cos_sin(5 * QUARTER_PI), (-707_106_782, -707_106_783));
    assert_eq!(cos_sin(7 * QUARTER_PI), (707_106_783, -707_106_782));
}

#[test]
fn cos_sin_stays_close_to_the_real_functions() {
    let mut worst: f64 = 0.0;
    let mut angle: i64 = -2 * TWO_PI;
    while angle < 2 * TWO_PI {
        let (c, s) = cos_sin(angle);
        assert!(-ONE <= c && c <= ONE && -ONE <= s && s <= ONE);
        let a = angle as f64 / ONE as f64;
        worst = worst.max((c as f64 / ONE as f64 - a.cos()).abs());
        worst = worst.max((s as f64 / ONE as f64 - a.sin()).abs());
        angle += 1_000_003;
    }
    assert!(worst < 2e-8, "worst error {}", worst);
}

#[test]
fn cos_sin_turns_by_right_angles() {
    let mut angle: i64 = -TWO_PI;
    while angle < TWO_PI {
        let (c, s) = cos_sin(angle);
        assert_eq!(cos_sin(angle + HALF_PI), (-s, c));
        assert_eq!(cos_sin(angle + PI), (-c, -s));
        assert_eq!(cos_sin(angle + TWO_PI), (c, s));
        angle += 98_765_431;
    }
}

#[test]
fn cos_sin_takes_any_angle() {
    for angle in [i64::MIN, i64::MIN + 1, -1, 1, i64::MAX - 1, i64::MAX] {
        let (c, s) = cos_sin(angle);
        let norm = (c as i128 * c as i128 + s as i128 * s as i128) as f64 / 1e18;
        assert!((norm - 1.0).abs() < 1e-7);
    }
}

#[test]
fn arc_is_exact_at_eighth_turns() {
    for d in [1, 2, 1000, i32::MAX as i64, i64::MAX] {
        assert_eq!(arc(d, 0), 0);
        assert_eq!(arc(d, d), QUARTER_PI);
        assert_eq!(arc(0, d), HALF_PI);
        assert_eq!(arc(-d, d), 3 * QUARTER_PI);
        assert_eq!(arc(-d, 0), PI);
        assert_eq!(arc(-d, -d), 5 * QUARTER_PI);
        assert_eq!(arc(0, -d), 3 * HALF_PI);
        assert_eq!(arc(d, -d), 7 * QUARTER_PI);
    }
    assert_eq!(arc(0, 0), 0);
    assert_eq!(arc(i64::MIN, i64::MIN), 5 * QUARTER_PI);
    assert_eq!(arc(i64::MIN, 0), PI);
    assert_eq!(arc(0, i64::MIN), 3 * HALF_PI);
}

#[test]
fn arc_stays_close_to_the_real_arctangent() {
    let mut worst: f64 = 0.0;
    let mut angle: f64 = 0.0;
    while angle < 2.0 * std::f64::consts::PI {
        let dx = (1e12 * angle.cos()) as i64;
        let dy = (1e12 * angle.sin()) as i64;
        let got = arc(dx, dy);
        assert!(0 <= got && got < TWO_PI);
        let mut want = (dy as f64).atan2(dx as f64);
        if want < 0.0 {
            want += 2.0 * std::f64::consts::PI;
        }
        let mut diff = (got as f64 / ONE as f64 - want).abs();
        if diff > 6.0 {
            diff = (diff - 2.0 * std::f64::consts::PI).abs();
        }
        worst = worst.max(diff);
        angle += 0.000_37;
    }
    assert!(worst < 2e-8, "worst error {}", worst);
}

#[test]
fn arc_undoes_cos_sin() {
    let mut angle: i64 = 0;
    while angle < TWO_PI {
        let (c, s) = cos_sin(angle);
        let back = arc(c, s);
        let diff = (back - angle).abs().min(TWO_PI - (back - angle).abs());
        assert!(diff < 20, "{} came back as {}", angle, back);
        angle += 7_777_777;
    }
}

#[test]
fn sqrt_rounds_down() {
    assert_eq!(sqrt(0), 0);
    assert_eq!(sqrt(1), 1);
    assert_eq!(sqrt(2), 1);
    assert_eq!(sqrt(3), 1);
    assert_eq!(sqrt(4), 2);
    assert_eq!(sqrt(99), 9);
    assert_eq!(sqrt(100), 10);
    assert_eq!(sqrt(2_000_000_000_000_000_000), 1_414_213_562);
    assert_eq!(sqrt(u64::MAX as u128 * u64::MAX as u128), u64::MAX);
    assert_eq!(sqrt(u64::MAX as u128 * u64::MAX as u128 - 1), u64::MAX - 1);
    assert_eq!(sqrt(u128::MAX), u64::MAX);
    let mut n: u128 = 1;
    while n < u128::MAX / 7 {
        let r = sqrt(n) as u128;
        assert!(r * r <= n && (r + 1).checked_mul(r + 1).map_or(true, |s| n < s));
        n = n * 7 + 3;
    }
}
