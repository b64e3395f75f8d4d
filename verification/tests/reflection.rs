use arkanoid::circle::{Circle, Contact, Region};
use arkanoid::geometry::{
    bounce, horizontal_bounce, line_angle, to_rad, vertical_bounce, HALF_PI, ONE, PI, QUARTER_PI,
    TWO_PI,
};
use arkanoid::rect::Rect;
use arkanoid::reflection::{paddle_bounce, reflect, steer, Cone};

fn contact(region: Region, x: i32, y: i32) -> Contact {
    Contact { region, x, y }
}

#[test]
fn upward_cone_spans_190_to_350_degrees() {
    let cone = Cone::upward();
    assert_eq!(cone, Cone { min: to_rad(190), max: to_rad(350) });
    assert_eq!(cone.min, 3_316_125_577);
    assert_eq!(cone.max, 6_108_652_378);
    assert!(cone.valid());
    assert!(cone.min <= 3 * HALF_PI && 3 * HALF_PI <= cone.max);
}

#[test]
fn cone_new_accepts_ordered_normalized_bounds_only() {
    assert_eq!(Cone::new(0, 0), Some(Cone { min: 0, max: 0 }));
    assert_eq!(Cone::new(PI, TWO_PI - 1), Some(Cone { min: PI, max: TWO_PI - 1 }));
    assert_eq!(Cone::new(-1, PI), None);
    assert_eq!(Cone::new(PI, TWO_PI), None);
    assert_eq!(Cone::new(PI, PI - 1), None);
    assert!(!Cone { min: PI, max: 0 }.valid());
    assert!(!Cone { min: -1, max: 0 }.valid());
    assert!(!Cone { min: 0, max: TWO_PI }.valid());
}

#[test]
fn side_contacts_take_wall_bounces() {
    let center = (0, 0);
    for direction in [0, 1, QUARTER_PI, PI, 5 * QUARTER_PI, TWO_PI - 1] {
        assert_eq!(reflect(direction, contact(Region::Left, 5, 0), center), horizontal_bounce(direction));
        assert_eq!(reflect(direction, contact(Region::Right, -5, 0), center), horizontal_bounce(direction));
        assert_eq!(reflect(direction, contact(Region::Up, 0, 5), center), vertical_bounce(direction));
        assert_eq!(reflect(direction, contact(Region::Down, 0, -5), center), vertical_bounce(direction));
        assert_eq!(reflect(direction, contact(Region::Down, 0, 0), center), vertical_bounce(direction));
    }
}

#[test]
fn corner_contacts_mirror_about_the_line_to_the_center() {
    for region in [Region::LeftUp, Region::RightUp, Region::LeftDown, Region::RightDown] {
        for (px, py, cx, cy) in [(400, 400, 393, 394), (500, 440, 506, 445), (0, 0, 7, -7)] {
            for direction in [0, QUARTER_PI, PI + 17, TWO_PI - 1] {
                assert_eq!(
                    reflect(direction, contact(region, px, py), (cx, cy)),
                    bounce(direction, line_angle((px, py), (cx, cy)))
                );
            }
        }
    }
}

#[test]
fn eastbound_ball_leaves_a_diagonal_corner_straight_down() {
    // The center is up and to the right of the corner, at 45 degrees.
    let corner = contact(Region::LeftDown, 400, 440);
    let center = (407, 433);
    assert_eq!(line_angle((400, 440), center), 7 * QUARTER_PI);
    assert_eq!(reflect(0, corner, center), HALF_PI);
    assert_eq!(reflect(0, corner, center), bounce(0, line_angle((400, 440), center)));
    // Heading for the corner head on, the ball turns back.
    assert_eq!(reflect(3 * QUARTER_PI, corner, center), 7 * QUARTER_PI);
}

#[test]
fn steering_adds_the_offset_over_the_width() {
    let cone = Cone::upward();
    assert_eq!(steer(3 * HALF_PI, 320 * ONE, 300, 80, cone), 3 * HALF_PI + ONE / 4);
    assert_eq!(steer(3 * HALF_PI, 280 * ONE, 300, 80, cone), 3 * HALF_PI - ONE / 4);
    assert_eq!(steer(3 * HALF_PI, 300 * ONE + 1, 300, 3, cone), 3 * HALF_PI);
    assert_eq!(steer(3 * HALF_PI, 300 * ONE + 7, 300, 3, cone), 3 * HALF_PI + 2);
    assert_eq!(steer(3 * HALF_PI, 300 * ONE - 7, 300, 3, cone), 3 * HALF_PI - 2);
    assert_eq!(steer(3 * HALF_PI, -5 * ONE / 2, -3, 2, cone), 3 * HALF_PI + ONE / 4);
}

#[test]
fn steering_dead_center_leaves_the_direction() {
    let cone = Cone::upward();
    assert_eq!(steer(3 * HALF_PI, 300 * ONE, 300, 80, cone), 3 * HALF_PI);
    assert_eq!(steer(cone.min, 300 * ONE, 300, 80, cone), cone.min);
    assert_eq!(steer(cone.max, 300 * ONE, 300, 1, cone), cone.max);
}

#[test]
fn steering_beyond_the_cone_lands_on_the_nearer_bound() {
    let cone = Cone::upward();
    let middle = (cone.min + cone.max) / 2;
    let half_width = (cone.max - cone.min) / 2;
    for width in [1u32, 7, 80, 1000] {
        let mut offset: i64 = half_width + 2;
        while offset < 40 * ONE {
            let px = offset * width as i64;
            assert_eq!(steer(middle, 300 * ONE + px, 300, width, cone), cone.max);
            assert_eq!(steer(middle, 300 * ONE - px, 300, width, cone), cone.min);
            offset += 3 * ONE + 1;
        }
    }
    assert_eq!(steer(0, 300 * ONE, 300, 80, cone), cone.min);
    assert_eq!(steer(TWO_PI - 1, 300 * ONE, 300, 80, cone), cone.max);
    assert_eq!(steer(i64::MAX, i64::MAX, i32::MIN, 1, cone), cone.max);
    assert_eq!(steer(i64::MIN, i64::MIN, i32::MAX, 1, cone), cone.min);
}

#[test]
fn steering_never_leaves_the_cone() {
    let cone = Cone { min: 7 * PI / 10, max: 11 * PI / 10 };
    let mut direction: i64 = -TWO_PI;
    while direction < 2 * TWO_PI {
        let mut x: i64 = 200 * ONE;
        while x < 400 * ONE {
            let out = steer(direction, x, 300, 80, cone);
            assert!(cone.min <= out && out <= cone.max);
            let free = direction + (x - 300 * ONE) / 80;
            if cone.min <= free && free <= cone.max {
                assert_eq!(out, free);
            } else if free < cone.min {
                assert_eq!(out, cone.min);
            } else {
                assert_eq!(out, cone.max);
            }
            x += 13 * ONE + 5;
        }
        direction += 1_234_567_891;
    }
}

#[test]
fn a_large_steering_term_from_the_edge_of_the_cone_lands_inside() {
    // Larger than half the cone's width, yet the outcome is no bound.
    let cone = Cone::upward();
    let half_width = (cone.max - cone.min) / 2;
    let out = steer(cone.min, 300 * ONE + (half_width + ONE / 10) * 80, 300, 80, cone);
    assert_eq!(out, cone.min + half_width + ONE / 10);
    assert!(cone.min < out && out < cone.max);
}

#[test]
fn paddle_bounce_reflects_then_steers() {
    let cone = Cone::upward();
    let paddle = Rect::new(260, 590, 80, 10);
    let top = contact(Region::Up, 300, 590);
    let centered = Circle { x: 300 * ONE, y: 581 * ONE, radius: 10 * ONE };
    assert_eq!(paddle_bounce(HALF_PI, &centered, top, paddle, cone), 3 * HALF_PI);
    let right = Circle { x: 320 * ONE, y: 581 * ONE, radius: 10 * ONE };
    assert_eq!(
        paddle_bounce(HALF_PI, &right, contact(Region::Up, 320, 590), paddle, cone),
        3 * HALF_PI + ONE / 4
    );
    let left = Circle { x: 270 * ONE + ONE / 2, y: 581 * ONE, radius: 10 * ONE };
    assert_eq!(
        paddle_bounce(QUARTER_PI, &left, contact(Region::Up, 270, 590), paddle, cone),
        7 * QUARTER_PI - 368_750_000
    );
    // Struck on its left end by a ball heading left, the paddle sends it no
    // lower than the cone allows.
    let end = Circle { x: 255 * ONE, y: 595 * ONE, radius: 10 * ONE };
    assert_eq!(
        paddle_bounce(0, &end, contact(Region::Left, 260, 595), paddle, cone),
        cone.min
    );
}
