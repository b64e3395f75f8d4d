use arkanoid::rect::{Point, Rect, MAX_POSITION, MAX_SIZE, MIN_POSITION};

#[test]
fn new_keeps_values_within_the_limits() {
    let r = Rect::new(10, -20, 30, 40);
    assert_eq!(r, Rect { x: 10, y: -20, w: 30, h: 40 });
    assert!(r.valid());
    assert_eq!(Rect::new(0, 0, 0, 0), Rect { x: 0, y: 0, w: 0, h: 0 });
}

#[test]
fn new_clamps_values_beyond_the_limits() {
    let r = Rect::new(i32::MAX, i32::MIN, u32::MAX, MAX_SIZE + 1);
    assert_eq!(r, Rect { x: MAX_POSITION, y: MIN_POSITION, w: MAX_SIZE, h: MAX_SIZE });
    assert!(r.valid());
    assert_eq!(Rect::new(MAX_POSITION + 1, MIN_POSITION - 1, 1, 1).x, MAX_POSITION);
    assert_eq!(Rect::new(MAX_POSITION + 1, MIN_POSITION - 1, 1, 1).y, MIN_POSITION);
}

#[test]
fn valid_tells_rectangles_beyond_the_limits() {
    assert!(Rect { x: MAX_POSITION, y: MIN_POSITION, w: MAX_SIZE, h: 0 }.valid());
    assert!(!Rect { x: MAX_POSITION + 1, y: 0, w: 1, h: 1 }.valid());
    assert!(!Rect { x: 0, y: MIN_POSITION - 1, w: 1, h: 1 }.valid());
    assert!(!Rect { x: 0, y: 0, w: MAX_SIZE + 1, h: 1 }.valid());
    assert!(!Rect { x: 0, y: 0, w: 1, h: u32::MAX }.valid());
}

#[test]
fn edges_and_center() {
    let r = Rect::new(1, 0, 2, 3);
    assert_eq!(r.left(), 1);
    assert_eq!(r.top(), 0);
    assert_eq!(r.right(), 3);
    assert_eq!(r.bottom(), 3);
    assert_eq!(r.top_left(), Point::new(1, 0));
    assert_eq!(r.center(), Point { x: 2, y: 1 });
    let paddle = Rect::new(260, 590, 80, 10);
    assert_eq!(paddle.center(), Point { x: 300, y: 595 });
    let far = Rect::new(MAX_POSITION, MAX_POSITION, MAX_SIZE, MAX_SIZE);
    assert_eq!(far.right(), 2_147_483_646);
    assert_eq!(far.bottom(), 2_147_483_646);
}

#[test]
fn contains_point_is_half_open() {
    let r = Rect::new(1, 2, 3, 4);
    assert!(r.contains_point(Point::new(1, 2)));
    assert!(!r.contains_point(Point::new(0, 1)));
    assert!(r.contains_point(Point::new(3, 5)));
    assert!(!r.contains_point(Point::new(4, 6)));
    assert!(!r.contains_point(Point::new(4, 2)));
    assert!(!r.contains_point(Point::new(1, 6)));
    assert!(!r.contains_point(Point::new(0, 2)));
    assert!(!r.contains_point(Point::new(1, 1)));
}

#[test]
fn contains_point_does_not_overflow() {
    let r = Rect { x: i32::MAX, y: i32::MAX, w: u32::MAX, h: u32::MAX };
    assert!(r.contains_point(Point::new(i32::MAX, i32::MAX)));
    assert!(!r.contains_point(Point::new(i32::MIN, i32::MAX)));
    let empty = Rect { x: 5, y: 5, w: 0, h: 9 };
    assert!(!empty.contains_point(Point::new(5, 5)));
}

#[test]
fn has_intersection_needs_a_shared_point() {
    let r = Rect::new(0, 0, 5, 5);
    assert!(r.has_intersection(r));
    assert!(r.has_intersection(Rect::new(2, 2, 5, 5)));
    assert!(!r.has_intersection(Rect::new(5, 0, 5, 5)));
    assert!(!r.has_intersection(Rect::new(0, 5, 5, 5)));
    assert!(!r.has_intersection(Rect::new(-5, 0, 5, 5)));
    assert!(r.has_intersection(Rect::new(-5, -5, 6, 6)));
    assert!(r.has_intersection(Rect::new(4, 4, 1, 1)));
    assert!(Rect::new(4, 4, 1, 1).has_intersection(r));
}

#[test]
fn an_empty_rectangle_meets_nothing() {
    let r = Rect::new(0, 0, 5, 5);
    assert!(!r.has_intersection(Rect::new(2, 2, 0, 3)));
    assert!(!r.has_intersection(Rect::new(2, 2, 3, 0)));
    assert!(!Rect::new(2, 2, 0, 0).has_intersection(r));
    assert!(!Rect::new(2, 2, 0, 0).has_intersection(Rect::new(2, 2, 0, 0)));
}

#[test]
fn has_intersection_agrees_with_shared_points() {
    let rects = [
        Rect::new(0, 0, 3, 3),
        Rect::new(2, 2, 2, 2),
        Rect::new(3, 0, 2, 5),
        Rect::new(-1, 1, 2, 1),
        Rect::new(1, 1, 0, 2),
        Rect::new(0, 4, 4, 1),
    ];
    for a in rects {
        for b in rects {
            let mut shared = false;
            for x in -2..7 {
                for y in -2..7 {
                    let p = Point::new(x, y);
                    shared = shared || (a.contains_point(p) && b.contains_point(p));
                }
            }
            assert_eq!(a.has_intersection(b), shared, "{:?} and {:?}", a, b);
        }
    }
}
