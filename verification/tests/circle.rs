use arkanoid::circle::{Circle, Collision, Contact, Region, LIMIT};
use arkanoid::geometry::ONE;
use arkanoid::rect::{Point, Rect};

fn circle(x: i64, y: i64, radius: i64) -> Circle {
    Circle { x: x * ONE, y: y * ONE, radius: radius * ONE }
}

fn block() -> Rect {
    Rect::new(400, 400, 100, 40)
}

#[test]
fn test_collision() {
    let palka = Rect::new(100, 100, 120, 10);
    let ball = circle(140, 105, 10);
    let col_a = ball.collision(palka);
    assert!(palka.contains_point(ball.to_point()));
    assert_eq!(col_a, Collision::NoContact);
}

#[test]
fn center_corner_and_bounding_square() {
    let c = circle(410, 391, 10);
    assert!(c.valid());
    assert_eq!(c.center(), (410, 391));
    assert_eq!(c.corner(), (400, 381));
    assert_eq!(c.to_point(), Point::new(410, 391));
    assert_eq!(c.to_rect(), Rect { x: 400, y: 381, w: 20, h: 20 });
}

#[test]
fn center_rounds_toward_zero() {
    let c = Circle { x: 5 * ONE + 999_999_999, y: -5 * ONE - 999_999_999, radius: 2 * ONE + 1 };
    assert_eq!(c.center(), (5, -5));
    assert_eq!(c.corner(), (3, -7));
    assert_eq!(c.to_rect(), Rect { x: 3, y: -7, w: 4, h: 4 });
    let small = Circle { x: -1, y: 1, radius: ONE - 1 };
    assert_eq!(small.center(), (0, 0));
    assert_eq!(small.to_rect(), Rect { x: 0, y: 0, w: 0, h: 0 });
}

#[test]
fn valid_tells_circles_beyond_the_limits() {
    assert!(Circle { x: LIMIT, y: -LIMIT, radius: LIMIT - 1 }.valid());
    assert!(Circle { x: LIMIT, y: -LIMIT, radius: LIMIT - 1 }.to_rect().valid());
    assert!(!Circle { x: LIMIT + 1, y: 0, radius: ONE }.valid());
    assert!(!Circle { x: 0, y: -LIMIT - 1, radius: ONE }.valid());
    assert!(!Circle { x: 0, y: 0, radius: 0 }.valid());
    assert!(!Circle { x: 0, y: 0, radius: -ONE }.valid());
    assert!(!Circle { x: 0, y: 0, radius: LIMIT }.valid());
}

#[test]
fn no_contact_without_overlap() {
    assert_eq!(circle(300, 300, 10).collision(block()), Collision::NoContact);
    assert_eq!(circle(389, 420, 10).collision(block()), Collision::NoContact);
    assert_eq!(circle(390, 420, 10).collision(block()), Collision::NoContact);
    assert_eq!(circle(450, 450, 10).collision(block()), Collision::NoContact);
    assert_eq!(circle(450, 389, 10).contact(block()), None);
}

#[test]
fn center_in_a_side_strip_but_out_of_reach_makes_no_contact() {
    let c = circle(385, 420, 10);
    assert_eq!(c.region(block()), Some(Region::Left));
    assert!(!c.to_rect().has_intersection(block()));
    assert_eq!(c.collision(block()), Collision::NoContact);
}

#[test]
fn corner_out_of_reach_makes_no_contact() {
    let c = circle(392, 392, 10);
    assert!(c.to_rect().has_intersection(block()));
    assert_eq!(c.region(block()), Some(Region::LeftUp));
    assert_eq!(c.collision(block()), Collision::NoContact);
    assert_eq!(c.contact(block()), None);
    assert_eq!(circle(508, 392, 10).collision(block()), Collision::NoContact);
    assert_eq!(circle(392, 448, 10).collision(block()), Collision::NoContact);
    assert_eq!(circle(508, 448, 10).collision(block()), Collision::NoContact);
}

#[test]
fn corner_within_reach_makes_contact_at_the_corner() {
    assert_eq!(circle(393, 394, 10).collision(block()), Collision::At(400, 400));
    assert_eq!(
        circle(393, 394, 10).contact(block()),
        Some(Contact { region: Region::LeftUp, x: 400, y: 400 })
    );
    assert_eq!(
        circle(506, 394, 10).contact(block()),
        Some(Contact { region: Region::RightUp, x: 500, y: 400 })
    );
    assert_eq!(
        circle(393, 445, 10).contact(block()),
        Some(Contact { region: Region::LeftDown, x: 400, y: 440 })
    );
    assert_eq!(
        circle(506, 445, 10).contact(block()),
        Some(Contact { region: Region::RightDown, x: 500, y: 440 })
    );
}

#[test]
fn corner_reach_is_measured_at_full_precision() {
    // The corner is 10 pixels from the center's grid point at (394, 392).
    let touching = Circle { x: 394 * ONE, y: 392 * ONE, radius: 10 * ONE };
    assert_eq!(touching.collision(block()), Collision::At(400, 400));
    let short = Circle { x: 394 * ONE, y: 392 * ONE, radius: 10 * ONE - 1 };
    assert_eq!(short.collision(block()), Collision::NoContact);
    let long = Circle { x: 394 * ONE + 5, y: 392 * ONE + 5, radius: 10 * ONE + 1 };
    assert_eq!(long.collision(block()), Collision::At(400, 400));
}

#[test]
fn center_above_the_top_side_near_a_corner_touches_the_side() {
    let c = circle(410, 391, 10);
    assert_eq!(c.region(block()), Some(Region::Up));
    assert_eq!(c.collision(block()), Collision::At(410, 400));
}

#[test]
fn center_below_the_bottom_side_near_a_corner_touches_the_side() {
    let c = circle(410, 400 + 40 + 10 - 1, 10);
    assert_eq!(c.region(block()), Some(Region::Down));
    assert_eq!(c.collision(block()), Collision::At(410, 440));
}

#[test]
fn side_contact_is_at_the_projection_of_the_center() {
    assert_eq!(
        circle(395, 420, 10).contact(block()),
        Some(Contact { region: Region::Left, x: 400, y: 420 })
    );
    assert_eq!(
        circle(505, 401, 10).contact(block()),
        Some(Contact { region: Region::Right, x: 500, y: 401 })
    );
    assert_eq!(
        circle(450, 395, 10).contact(block()),
        Some(Contact { region: Region::Up, x: 450, y: 400 })
    );
    assert_eq!(
        circle(499, 445, 10).contact(block()),
        Some(Contact { region: Region::Down, x: 499, y: 440 })
    );
    assert_eq!(circle(391, 439, 10).collision(block()), Collision::At(400, 439));
    assert_eq!(circle(500, 420, 10).collision(block()), Collision::At(500, 420));
    assert_eq!(circle(450, 440, 10).collision(block()), Collision::At(450, 440));
}

#[test]
fn center_inside_the_rectangle_goes_unreported() {
    let c = circle(450, 420, 10);
    assert!(c.to_rect().has_intersection(block()));
    assert_eq!(c.region(block()), None);
    assert_eq!(c.collision(block()), Collision::NoContact);
    assert_eq!(circle(400, 400, 10).collision(block()), Collision::NoContact);
    assert_eq!(circle(499, 439, 10).collision(block()), Collision::NoContact);
}

#[test]
fn regions_reach_out_by_twice_the_radius() {
    assert_eq!(circle(380, 380, 10).region(block()), Some(Region::LeftUp));
    assert_eq!(circle(379, 380, 10).region(block()), None);
    assert_eq!(circle(519, 459, 10).region(block()), Some(Region::RightDown));
    assert_eq!(circle(520, 459, 10).region(block()), None);
    assert_eq!(circle(380, 459, 10).region(block()), Some(Region::LeftDown));
    assert_eq!(circle(519, 380, 10).region(block()), Some(Region::RightUp));
    assert_eq!(circle(380, 400, 10).region(block()), Some(Region::Left));
    assert_eq!(circle(519, 439, 10).region(block()), Some(Region::Right));
    assert_eq!(circle(400, 380, 10).region(block()), Some(Region::Up));
    assert_eq!(circle(499, 459, 10).region(block()), Some(Region::Down));
}

#[test]
fn every_center_lies_in_at_most_one_region() {
    let rect = Rect::new(10, 10, 6, 4);
    let mut x = 0;
    while x < 26 {
        let mut y = 0;
        while y < 24 {
            let c = circle(x, y, 3);
            let inside = rect.contains_point(Point::new(x as i32, y as i32));
            let near = 4 <= x && x < 22 && 4 <= y && y < 20;
            assert_eq!(c.region(rect).is_some(), near && !inside, "at ({}, {})", x, y);
            if c.to_rect().has_intersection(rect) {
                assert_eq!(c.region(rect).is_none(), inside);
            }
            y += 1;
        }
        x += 1;
    }
}

#[test]
fn an_empty_rectangle_is_never_touched() {
    let c = circle(100, 100, 10);
    assert_eq!(c.collision(Rect::new(95, 95, 0, 10)), Collision::NoContact);
    assert_eq!(c.collision(Rect::new(95, 95, 10, 0)), Collision::NoContact);
}

#[test]
fn a_circle_under_a_pixel_wide_touches_nothing() {
    let c = Circle { x: 399 * ONE, y: 399 * ONE, radius: ONE - 1 };
    assert_eq!(c.collision(block()), Collision::NoContact);
}

/// The same test worked out in floating point, on the bounding square and
/// the eight regions around the rectangle.
fn float_model(x: f32, y: f32, radius: f32, rect: Rect) -> Collision {
    let inside = |r: (i32, i32, i32, i32), p: (i32, i32)| {
        p.0 >= r.0 && p.0 < r.0 + r.2 && p.1 >= r.1 && p.1 < r.1 + r.3
    };
    let distance = |a: (i32, i32), b: (i32, i32)| {
        (((a.0 - b.0) * (a.0 - b.0) + (a.1 - b.1) * (a.1 - b.1)) as f32).sqrt()
    };
    let center = (x as i32, y as i32);
    let size = radius as i32 * 2;
    let square = (center.0 - radius as i32, center.1 - radius as i32, size, size);
    let (left, up) = (rect.x, rect.y);
    let (right, down) = (rect.x + rect.w as i32, rect.y + rect.h as i32);
    let overlap = square.0 < right
        && left < square.0 + size
        && square.1 < down
        && up < square.1 + size
        && size > 0
        && rect.w > 0
        && rect.h > 0;
    if !overlap {
        return Collision::NoContact;
    }
    let corner = |px: i32, py: i32| {
        if distance(center, (px, py)) <= radius {
            Collision::At(px, py)
        } else {
            Collision::NoContact
        }
    };
    let (w, h) = (rect.w as i32, rect.h as i32);
    if inside((left - size, up - size, size, size), center) {
        corner(left, up)
    } else if inside((right, up - size, size, size), center) {
        corner(right, up)
    } else if inside((left - size, down, size, size), center) {
        corner(left, down)
    } else if inside((right, down, size, size), center) {
        corner(right, down)
    } else if inside((left - size, up, size, h), center) {
        Collision::At(left, center.1)
    } else if inside((right, up, size, h), center) {
        Collision::At(right, center.1)
    } else if inside((left, up - size, w, size), center) {
        Collision::At(center.0, up)
    } else if inside((left, down, w, size), center) {
        Collision::At(center.0, down)
    } else {
        Collision::NoContact
    }
}

#[test]
fn collision_agrees_with_the_floating_point_model() {
    let rect = Rect::new(40, 30, 25, 12);
    for (radius, tenths) in [(1.0f32, 10i64), (3.5, 35), (10.0, 100), (12.25, 0)] {
        let radius_fixed = if tenths > 0 { tenths * ONE / 10 } else { 12 * ONE + ONE / 4 };
        let mut x: i64 = 0;
        while x < 110 * 4 {
            let mut y: i64 = 0;
            while y < 80 * 4 {
                let c = Circle { x: x * ONE / 4, y: y * ONE / 4, radius: radius_fixed };
                let want = float_model(x as f32 / 4.0, y as f32 / 4.0, radius, rect);
                assert_eq!(c.collision(rect), want, "circle {:?}", c);
                y += 1;
            }
            x += 1;
        }
    }
}
