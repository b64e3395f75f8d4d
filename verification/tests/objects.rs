use arkanoid::ball::{Ball, Kind};
use arkanoid::objects::{
    make_blocks, Block, Bonus, Color, GameObject, GrowBonus, NewBallBonus, Palka, Watcher,
    GROWTH, PADDLE_STEP, SHRINKAGE, WATCH,
};
use arkanoid::rect::{Point, Rect, MAX_POSITION, MAX_SIZE, MIN_POSITION};

const RED: Color = Color { r: 255, g: 0, b: 0 };

#[test]
fn block_new_takes_position_and_size() {
    let block = Block::new(RED, Point::new(15, 10), Point::new(50, 20));
    assert_eq!(block, Block { color: RED, pos: Rect { x: 15, y: 10, w: 50, h: 20 } });
    let flat = Block::new(RED, Point::new(-3, 4), Point::new(0, 20));
    assert_eq!(flat.pos, Rect { x: -3, y: 4, w: 0, h: 20 });
}

#[test]
fn block_new_clamps_to_the_grid() {
    let block = Block::new(RED, Point::new(i32::MAX, i32::MIN), Point::new(-1, i32::MAX));
    assert_eq!(
        block.pos,
        Rect { x: MAX_POSITION, y: MIN_POSITION, w: MAX_SIZE, h: MAX_SIZE }
    );
    assert!(block.pos.valid());
}

#[test]
fn palka_new_takes_position_and_size() {
    let palka = Palka::new(350, 590, 80, 10);
    assert_eq!(palka.pos, Rect { x: 350, y: 590, w: 80, h: 10 });
    assert_eq!(Palka::new(i32::MIN, 0, u32::MAX, 0).pos, Rect { x: MIN_POSITION, y: 0, w: MAX_SIZE, h: 0 });
}

#[test]
fn the_paddle_slides_by_a_step() {
    let mut palka = Palka::new(350, 590, 80, 10);
    palka.slide(true, false, 1000);
    assert_eq!(palka.pos.x, 350 - PADDLE_STEP);
    palka.slide(false, true, 1000);
    assert_eq!(palka.pos.x, 350);
    palka.slide(true, true, 1000);
    assert_eq!(palka.pos.x, 350);
    palka.slide(false, false, 1000);
    assert_eq!(palka.pos, Rect { x: 350, y: 590, w: 80, h: 10 });
}

#[test]
fn the_paddle_stops_at_the_walls() {
    let mut palka = Palka::new(5, 590, 80, 10);
    palka.slide(true, false, 1000);
    assert_eq!(palka.pos.x, 0);
    palka.slide(true, false, 1000);
    assert_eq!(palka.pos.x, 0);
    let mut palka = Palka::new(915, 590, 80, 10);
    palka.slide(false, true, 1000);
    assert_eq!(palka.pos.x, 920);
    palka.slide(false, true, 1000);
    assert_eq!(palka.pos.x, 920);
}

#[test]
fn the_walls_pull_a_stray_paddle_back_when_it_slides() {
    let mut palka = Palka::new(-50, 590, 80, 10);
    palka.slide(true, false, 1000);
    assert_eq!(palka.pos.x, 0);
    let mut palka = Palka::new(2000, 590, 80, 10);
    palka.slide(false, true, 1000);
    assert_eq!(palka.pos.x, 920);
    let mut palka = Palka::new(0, 590, 80, 10);
    palka.slide(false, true, 50);
    assert_eq!(palka.pos.x, -30);
    let mut palka = Palka::new(0, 590, MAX_SIZE, 10);
    palka.slide(true, true, i32::MIN);
    assert_eq!(palka.pos.x, MIN_POSITION);
    assert!(palka.pos.valid());
}

#[test]
fn the_paddle_grows_and_shrinks() {
    let mut palka = Palka::new(350, 590, 80, 10);
    palka.grow();
    assert_eq!(palka.pos, Rect { x: 350, y: 590, w: 80 + GROWTH, h: 10 });
    palka.shrink();
    assert_eq!(palka.pos, Rect { x: 350, y: 590, w: 77, h: 10 });
    assert_eq!(SHRINKAGE - GROWTH, 3);
    let mut small = Palka::new(0, 0, 42, 10);
    small.shrink();
    assert_eq!(small.pos.w, 0);
    let mut just = Palka::new(0, 0, 43, 10);
    just.shrink();
    assert_eq!(just.pos.w, 0);
    let mut large = Palka::new(0, 0, MAX_SIZE - 39, 10);
    large.grow();
    assert_eq!(large.pos.w, MAX_SIZE);
    let mut larger = Palka::new(0, 0, MAX_SIZE - 41, 10);
    larger.grow();
    assert_eq!(larger.pos.w, MAX_SIZE - 1);
}

#[test]
fn a_watcher_runs_out_after_its_watch() {
    let watcher = Watcher::new(5_000);
    assert_eq!(watcher, Watcher { start: 5_000, destroy: false });
    assert!(watcher.in_play());
    assert!(!watcher.expired(5_000));
    assert!(!watcher.expired(5_000 + WATCH));
    assert!(watcher.expired(5_001 + WATCH));
    assert!(!watcher.expired(0));
    assert!(Watcher::new(0).expired(u64::MAX));
    assert!(!Watcher { start: 0, destroy: true }.in_play());
}

#[test]
fn bonuses_keep_their_rectangle() {
    let pos = Rect::new(1, 2, 3, 4);
    assert_eq!(NewBallBonus::new(pos).pos, pos);
    assert_eq!(GrowBonus::new(pos).pos, pos);
}

#[test]
fn objects_know_what_they_are() {
    let pos = Rect::new(1, 2, 3, 4);
    let block = Block { color: RED, pos };
    let ball = Ball::new(100, 200, 10, 6);
    let palka = Palka { pos };
    let objects = [
        GameObject::Block(block),
        GameObject::Ball(ball),
        GameObject::Palka(palka),
        GameObject::NewBallBonus(NewBallBonus { pos }),
        GameObject::GrowBonus(GrowBonus { pos }),
        GameObject::Watcher(Watcher::new(0)),
    ];
    let blocks: Vec<Option<Block>> = objects.iter().map(|o| o.is_block()).collect();
    assert_eq!(blocks, vec![Some(block), None, None, None, None, None]);
    let balls: Vec<Option<Ball>> = objects.iter().map(|o| o.is_ball()).collect();
    assert_eq!(balls, vec![None, Some(ball), None, None, None, None]);
    let paddles: Vec<Option<Palka>> = objects.iter().map(|o| o.is_palka()).collect();
    assert_eq!(paddles, vec![None, None, Some(palka), None, None, None]);
    let bonuses: Vec<Option<Bonus>> = objects.iter().map(|o| o.is_bonus()).collect();
    assert_eq!(bonuses, vec![None, None, None, Some(Bonus::NewBall), Some(Bonus::Grow), None]);
    let kinds: Vec<Option<Kind>> = objects.iter().map(|o| o.kind()).collect();
    assert_eq!(
        kinds,
        vec![Some(Kind::Block), Some(Kind::Ball), Some(Kind::Paddle), None, None, None]
    );
    let rects: Vec<Rect> = objects.iter().map(|o| o.to_rect()).collect();
    assert_eq!(
        rects,
        vec![pos, Rect::new(90, 190, 20, 20), pos, pos, pos, Rect { x: 0, y: 0, w: 0, h: 0 }]
    );
    assert!(objects.iter().all(|o| o.valid()));
}

#[test]
fn valid_looks_into_the_object() {
    let bad = Rect { x: 0, y: 0, w: u32::MAX, h: 1 };
    assert!(!GameObject::Block(Block { color: RED, pos: bad }).valid());
    assert!(!GameObject::Palka(Palka { pos: bad }).valid());
    assert!(!GameObject::NewBallBonus(NewBallBonus { pos: bad }).valid());
    assert!(!GameObject::GrowBonus(GrowBonus { pos: bad }).valid());
    let mut ball = Ball::new(0, 0, 1, 1);
    ball.direction = -1;
    assert!(!GameObject::Ball(ball).valid());
}

#[test]
fn make_blocks_lays_out_the_grid_row_by_row() {
    let blocks = make_blocks(Rect::new(10, 10, 990, 390), Point::new(15, 10), Point::new(50, 20));
    assert_eq!(blocks.len(), 150);
    assert_eq!(
        blocks[0],
        GameObject::Block(Block {
            color: Color { r: 0, g: 0, b: 0 },
            pos: Rect { x: 10, y: 10, w: 50, h: 20 },
        })
    );
    assert_eq!(
        blocks[1],
        GameObject::Block(Block {
            color: Color { r: 255, g: 0, b: 0 },
            pos: Rect { x: 76, y: 10, w: 50, h: 20 },
        })
    );
    assert_eq!(
        blocks[15],
        GameObject::Block(Block {
            color: Color { r: 0, g: 255, b: 0 },
            pos: Rect { x: 10, y: 49, w: 50, h: 20 },
        })
    );
    assert_eq!(
        blocks[149],
        GameObject::Block(Block {
            color: Color { r: 0, g: 255, b: 0 },
            pos: Rect { x: 934, y: 361, w: 50, h: 20 },
        })
    );
    for (k, object) in blocks.iter().enumerate() {
        let (x, y) = ((k % 15) as i32, (k / 15) as i32);
        let block = object.is_block().unwrap();
        assert_eq!(block.pos, Rect { x: 10 + x * 990 / 15, y: 10 + y * 390 / 10, w: 50, h: 20 });
        assert_eq!(block.color, Color { r: (x % 2 * 255) as u8, g: (y % 2 * 255) as u8, b: 0 });
    }
}

#[test]
fn make_blocks_rounds_the_offsets_down() {
    let blocks = make_blocks(Rect::new(-5, 0, 10, 7), Point::new(3, 2), Point::new(3, 3));
    let origins: Vec<(i32, i32)> =
        blocks.iter().map(|o| (o.to_rect().x, o.to_rect().y)).collect();
    assert_eq!(origins, vec![(-5, 0), (-2, 0), (1, 0), (-5, 3), (-2, 3), (1, 3)]);
}

#[test]
fn make_blocks_makes_nothing_of_an_empty_grid() {
    let area = Rect::new(10, 10, 990, 390);
    assert!(make_blocks(area, Point::new(0, 10), Point::new(50, 20)).is_empty());
    assert!(make_blocks(area, Point::new(15, 0), Point::new(50, 20)).is_empty());
    assert!(make_blocks(area, Point::new(-1, 10), Point::new(50, 20)).is_empty());
    assert!(make_blocks(area, Point::new(15, -1), Point::new(50, 20)).is_empty());
}
