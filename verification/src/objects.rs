//! The things on the field: blocks, the paddle, balls, falling bonuses and
//! the watcher that ends a paddle's growth.

use vstd::prelude::*;
use crate::ball::{Ball, Kind};
use crate::geometry::{div_trunc, split};
use crate::rect::{clamp_spec, Point, Rect, MAX_POSITION, MAX_SIZE, MIN_POSITION};

verus! {

/// How far the paddle moves in one tick while a key is held, in pixels.
pub const PADDLE_STEP: i32 = 8;

/// How much wider a grow bonus makes the paddle, in pixels.
pub const GROWTH: u32 = 40;

/// How much narrower the paddle gets when a watcher runs out, in pixels.
pub const SHRINKAGE: u32 = 43;

/// How long a watcher waits, in milliseconds.
pub const WATCH: u64 = 10_000;

/// A color: red, green and blue.
#[derive(Clone, Copy, Debug, PartialEq, Eq, Structural)]
pub struct Color {
    pub r: u8,
    pub g: u8,
    pub b: u8,
}

/// A block: destroyed by the first ball that touches it.
#[derive(Clone, Copy, Debug, PartialEq, Eq, Structural)]
pub struct Block {
    pub color: Color,
    pub pos: Rect,
}

/// The paddle.
#[derive(Clone, Copy, Debug, PartialEq, Eq, Structural)]
pub struct Palka {
    pub pos: Rect,
}

/// Times the end of a paddle's growth.
#[derive(Clone, Copy, Debug, PartialEq, Eq, Structural)]
pub struct Watcher {
    /// When the watch began, in milliseconds.
    pub start: u64,
    /// Set once the watch has run out and the paddle has shrunk.
    pub destroy: bool,
}

/// A falling bonus that puts another ball in play.
#[derive(Clone, Copy, Debug, PartialEq, Eq, Structural)]
pub struct NewBallBonus {
    pub pos: Rect,
}

/// A falling bonus that makes the paddle wider for a while.
#[derive(Clone, Copy, Debug, PartialEq, Eq, Structural)]
pub struct GrowBonus {
    pub pos: Rect,
}

/// Which bonus a falling bonus is.
#[derive(Clone, Copy, Debug, PartialEq, Eq, Structural)]
pub enum Bonus {
    NewBall,
    Grow,
}

/// Anything on the field.
#[derive(Clone, Copy, Debug, PartialEq, Eq, Structural)]
pub enum GameObject {
    Block(Block),
    Ball(Ball),
    Palka(Palka),
    NewBallBonus(NewBallBonus),
    GrowBonus(GrowBonus),
    Watcher(Watcher),
}

/// The rectangle one row further down, unless it is at the grid's last row.
pub open spec fn fallen(pos: Rect) -> Rect {
    Rect { y: if pos.y < MAX_POSITION { (pos.y + 1) as i32 } else { pos.y }, ..pos }
}

pub(crate) fn fall(pos: Rect) -> (r: Rect)
    ensures
        r == fallen(pos),
        pos.wf() ==> r.wf(),
{
    Rect { x: pos.x, y: if pos.y < MAX_POSITION { pos.y + 1 } else { pos.y }, w: pos.w, h: pos.h }
}

impl Block {
    /// A block at `pos` of the size whose width is `size.x` and whose
    /// height is `size.y`. A negative extent counts as one beyond the
    /// grid's limit.
    pub fn new(col: Color, pos: Point, size: Point) -> (block: Block)
        ensures
            block.color == col,
            block.pos.wf(),
            block.pos.x == clamp_spec(pos.x as int, MIN_POSITION as int, MAX_POSITION as int),
            block.pos.y == clamp_spec(pos.y as int, MIN_POSITION as int, MAX_POSITION as int),
            block.pos.w == if size.x < 0 { MAX_SIZE as int } else { clamp_spec(size.x as int, 0, MAX_SIZE as int) },
            block.pos.h == if size.y < 0 { MAX_SIZE as int } else { clamp_spec(size.y as int, 0, MAX_SIZE as int) },
    {
        let w: u32 = if size.x < 0 { MAX_SIZE } else { size.x as u32 };
        let h: u32 = if size.y < 0 { MAX_SIZE } else { size.y as u32 };
        Block { color: col, pos: Rect::new(pos.x, pos.y, w, h) }
    }
}

impl Palka {
    /// A paddle at `(x, y)`, `w` wide and `h` high.
    pub fn new(x: i32, y: i32, w: u32, h: u32) -> (palka: Palka)
        ensures
            palka.pos.wf(),
            palka.pos.x == clamp_spec(x as int, MIN_POSITION as int, MAX_POSITION as int),
            palka.pos.y == clamp_spec(y as int, MIN_POSITION as int, MAX_POSITION as int),
            palka.pos.w == clamp_spec(w as int, 0, MAX_SIZE as int),
            palka.pos.h == clamp_spec(h as int, 0, MAX_SIZE as int),
    {
        Palka { pos: Rect::new(x, y, w, h) }
    }

    /// Where the keys take the paddle in a field `width` pixels wide: a
    /// step to the left, but not past the left wall; then a step to the
    /// right, but not with the right end past the right wall.
    pub open spec fn moved(self, left: bool, right: bool, width: i32) -> Palka {
        let x1 = if left {
            if self.pos.x - PADDLE_STEP > 0 { self.pos.x - PADDLE_STEP } else { 0 }
        } else {
            self.pos.x as int
        };
        let x2 = if right {
            if x1 + PADDLE_STEP < width - self.pos.w { x1 + PADDLE_STEP } else { width - self.pos.w }
        } else {
            x1
        };
        Palka {
            pos: Rect {
                x: clamp_spec(x2, MIN_POSITION as int, MAX_POSITION as int) as i32,
                ..self.pos
            },
        }
    }

    /// Moves the paddle as the keys say.
    pub fn slide(&mut self, left: bool, right: bool, width: i32)
        requires
            old(self).pos.wf(),
        ensures
            *final(self) == old(self).moved(left, right, width),
            final(self).pos.wf(),
    {
        let mut x: i64 = self.pos.x as i64;
        if left {
            x = if x - PADDLE_STEP as i64 > 0 { x - PADDLE_STEP as i64 } else { 0 };
        }
        if right {
            let limit: i64 = width as i64 - self.pos.w as i64;
            x = if x + (PADDLE_STEP as i64) < limit { x + PADDLE_STEP as i64 } else { limit };
        }
        self.pos.x = if x < MIN_POSITION as i64 {
            MIN_POSITION
        } else if x > MAX_POSITION as i64 {
            MAX_POSITION
        } else {
            x as i32
        };
    }

    /// The paddle made wider by [`GROWTH`], up to the grid's limit.
    pub open spec fn grown(self) -> Palka {
        Palka {
            pos: Rect {
                w: if self.pos.w + GROWTH <= MAX_SIZE { (self.pos.w + GROWTH) as u32 } else { MAX_SIZE },
                ..self.pos
            },
        }
    }

    /// The paddle made narrower by [`SHRINKAGE`], down to nothing.
    pub open spec fn shrunk(self) -> Palka {
        Palka {
            pos: Rect {
                w: if self.pos.w >= SHRINKAGE { (self.pos.w - SHRINKAGE) as u32 } else { 0 },
                ..self.pos
            },
        }
    }

    /// Makes the paddle wider by [`GROWTH`].
    pub fn grow(&mut self)
        requires
            old(self).pos.wf(),
        ensures
            *final(self) == old(self).grown(),
            final(self).pos.wf(),
    {
        self.pos.w = if self.pos.w <= MAX_SIZE - GROWTH { self.pos.w + GROWTH } else { MAX_SIZE };
    }

    /// Makes the paddle narrower by [`SHRINKAGE`].
    pub fn shrink(&mut self)
        requires
            old(self).pos.wf(),
        ensures
            *final(self) == old(self).shrunk(),
            final(self).pos.wf(),
    {
        self.pos.w = if self.pos.w >= SHRINKAGE { self.pos.w - SHRINKAGE } else { 0 };
    }
}

impl NewBallBonus {
    /// A new-ball bonus at `pos`.
    pub fn new(pos: Rect) -> (bonus: NewBallBonus)
        ensures
            bonus.pos == pos,
    {
        NewBallBonus { pos }
    }
}

impl GrowBonus {
    /// A grow bonus at `pos`.
    pub fn new(pos: Rect) -> (bonus: GrowBonus)
        ensures
            bonus.pos == pos,
    {
        GrowBonus { pos }
    }
}

impl Watcher {
    /// A watcher whose watch begins at `now`.
    pub fn new(now: u64) -> (watcher: Watcher)
        ensures
            watcher.start == now,
            !watcher.destroy,
    {
        Watcher { start: now, destroy: false }
    }

    /// Whether more than [`WATCH`] has gone by since the watch began.
    pub open spec fn spec_expired(self, now: u64) -> bool {
        now - self.start > WATCH
    }

    /// Whether more than [`WATCH`] has gone by since the watch began.
    pub fn expired(&self, now: u64) -> (over: bool)
        ensures
            over == self.spec_expired(now),
    {
        now > self.start && now - self.start > WATCH
    }

    /// Whether the watcher is still needed: until its watch has run out.
    pub fn in_play(&self) -> (alive: bool)
        ensures
            alive == !self.destroy,
    {
        !self.destroy
    }
}

impl GameObject {
    /// Every rectangle and ball in it is well-formed.
    pub open spec fn wf(self) -> bool {
        match self {
            GameObject::Block(block) => block.pos.wf(),
            GameObject::Ball(ball) => ball.wf(),
            GameObject::Palka(palka) => palka.pos.wf(),
            GameObject::NewBallBonus(bonus) => bonus.pos.wf(),
            GameObject::GrowBonus(bonus) => bonus.pos.wf(),
            GameObject::Watcher(_) => true,
        }
    }

    /// Whether the object is well-formed.
    pub fn valid(&self) -> (ok: bool)
        ensures
            ok == self.wf(),
    {
        match self {
            GameObject::Block(block) => block.pos.valid(),
            GameObject::Ball(ball) => ball.valid(),
            GameObject::Palka(palka) => palka.pos.valid(),
            GameObject::NewBallBonus(bonus) => bonus.pos.valid(),
            GameObject::GrowBonus(bonus) => bonus.pos.valid(),
            GameObject::Watcher(_) => true,
        }
    }

    /// What [`GameObject::to_rect`] returns.
    pub open spec fn spec_to_rect(self) -> Rect {
        match self {
            GameObject::Block(block) => block.pos,
            GameObject::Ball(ball) => ball.circle.spec_to_rect(),
            GameObject::Palka(palka) => palka.pos,
            GameObject::NewBallBonus(bonus) => bonus.pos,
            GameObject::GrowBonus(bonus) => bonus.pos,
            GameObject::Watcher(_) => Rect { x: 0, y: 0, w: 0, h: 0 },
        }
    }

    /// The space the object takes up on the grid: none for a watcher.
    pub fn to_rect(&self) -> (r: Rect)
        requires
            self.wf(),
        ensures
            r == self.spec_to_rect(),
            r.wf(),
    {
        match self {
            GameObject::Block(block) => block.pos,
            GameObject::Ball(ball) => ball.to_rect(),
            GameObject::Palka(palka) => palka.pos,
            GameObject::NewBallBonus(bonus) => bonus.pos,
            GameObject::GrowBonus(bonus) => bonus.pos,
            GameObject::Watcher(_) => Rect { x: 0, y: 0, w: 0, h: 0 },
        }
    }

    /// What kind of obstacle the object is to a ball, if it is one.
    pub open spec fn spec_kind(self) -> Option<Kind> {
        match self {
            GameObject::Block(_) => Some(Kind::Block),
            GameObject::Ball(_) => Some(Kind::Ball),
            GameObject::Palka(_) => Some(Kind::Paddle),
            _ => None,
        }
    }

    /// What kind of obstacle the object is to a ball, if it is one: a
    /// block, the paddle or another ball. Bonuses and watchers are not in
    /// the way.
    pub fn kind(&self) -> (k: Option<Kind>)
        ensures
            k == self.spec_kind(),
    {
        match self {
            GameObject::Block(_) => Some(Kind::Block),
            GameObject::Ball(_) => Some(Kind::Ball),
            GameObject::Palka(_) => Some(Kind::Paddle),
            _ => None,
        }
    }

    /// The block, if the object is one.
    pub fn is_block(&self) -> (found: Option<Block>)
        ensures
            found == match *self {
                GameObject::Block(block) => Some(block),
                _ => None,
            },
    {
        match self {
            GameObject::Block(block) => Some(*block),
            _ => None,
        }
    }

    /// The ball, if the object is one.
    pub fn is_ball(&self) -> (found: Option<Ball>)
        ensures
            found == match *self {
                GameObject::Ball(ball) => Some(ball),
                _ => None,
            },
    {
        match self {
            GameObject::Ball(ball) => Some(*ball),
            _ => None,
        }
    }

    /// The paddle, if the object is one.
    pub fn is_palka(&self) -> (found: Option<Palka>)
        ensures
            found == match *self {
                GameObject::Palka(palka) => Some(palka),
                _ => None,
            },
    {
        match self {
            GameObject::Palka(palka) => Some(*palka),
            _ => None,
        }
    }

    /// What [`GameObject::is_bonus`] returns.
    pub open spec fn spec_is_bonus(self) -> Option<Bonus> {
        match self {
            GameObject::NewBallBonus(_) => Some(Bonus::NewBall),
            GameObject::GrowBonus(_) => Some(Bonus::Grow),
            _ => None,
        }
    }

    /// Which bonus the object is, if it is one.
    pub fn is_bonus(&self) -> (found: Option<Bonus>)
        ensures
            found == self.spec_is_bonus(),
    {
        match self {
            GameObject::NewBallBonus(_) => Some(Bonus::NewBall),
            GameObject::GrowBonus(_) => Some(Bonus::Grow),
            _ => None,
        }
    }
}

/// The block in column `x` and row `y` of the grid that [`make_blocks`]
/// lays out. Columns alternate between no red and full red, rows between
/// no green and full green.
pub open spec fn block_at(pos: Rect, count: Point, size: Point, x: int, y: int) -> Block {
    Block {
        color: Color { r: (x % 2 * 255) as u8, g: (y % 2 * 255) as u8, b: 0 },
        pos: Rect {
            x: clamp_spec(
                pos.x + div_trunc(x * pos.w, count.x as int),
                MIN_POSITION as int,
                MAX_POSITION as int,
            ) as i32,
            y: clamp_spec(
                pos.y + div_trunc(y * pos.h, count.y as int),
                MIN_POSITION as int,
                MAX_POSITION as int,
            ) as i32,
            w: (if size.x < 0 {
                MAX_SIZE as int
            } else {
                clamp_spec(size.x as int, 0, MAX_SIZE as int)
            }) as u32,
            h: (if size.y < 0 {
                MAX_SIZE as int
            } else {
                clamp_spec(size.y as int, 0, MAX_SIZE as int)
            }) as u32,
        },
    }
}

proof fn lemma_share(index: int, length: int, count: int)
    by (nonlinear_arith)
    requires
        0 <= index < count,
        0 <= length,
    ensures
        0 <= index * length,
        0 <= (index * length) / count <= length,
{
}

proof fn lemma_cell(x: int, y: int, columns: int)
    by (nonlinear_arith)
    requires
        0 <= x < columns,
        0 <= y,
    ensures
        (y * columns + x) % columns == x,
        (y * columns + x) / columns == y,
        (y + 1) * columns == y * columns + columns,
{
}

/// Lays out a grid of blocks over the area `pos`: `count.x` columns and
/// `count.y` rows of blocks of the given size, row by row, the columns
/// spread evenly over the area's width and the rows over its height.
pub fn make_blocks(pos: Rect, count: Point, size: Point) -> (blocks: Vec<GameObject>)
    requires
        pos.wf(),
    ensures
        count.x <= 0 || count.y <= 0 ==> blocks.len() == 0,
        count.x > 0 && count.y > 0 ==> blocks.len() == count.x * count.y,
        forall|k: int|
            0 <= k < blocks.len() ==> #[trigger] blocks[k] == GameObject::Block(
                block_at(pos, count, size, k % (count.x as int), k / (count.x as int)),
            ),
        forall|k: int| 0 <= k < blocks.len() ==> (#[trigger] blocks[k]).wf(),
{
    let mut blocks: Vec<GameObject> = Vec::new();
    if count.x <= 0 {
        return blocks;
    }
    let mut y: i32 = 0;
    while y < count.y
        invariant
            pos.wf(),
            count.x > 0,
            0 <= y,
            y <= count.y || y == 0,
            blocks.len() == y * count.x,
            forall|k: int|
                0 <= k < blocks.len() ==> #[trigger] blocks[k] == GameObject::Block(
                    block_at(pos, count, size, k % (count.x as int), k / (count.x as int)),
                ),
            forall|k: int| 0 <= k < blocks.len() ==> (#[trigger] blocks[k]).wf(),
        decreases count.y - y,
    {
        let mut x: i32 = 0;
        while x < count.x
            invariant
                pos.wf(),
                0 <= x <= count.x,
                0 <= y < count.y,
                blocks.len() == y * count.x + x,
                forall|k: int|
                    0 <= k < blocks.len() ==> #[trigger] blocks[k] == GameObject::Block(
                        block_at(pos, count, size, k % (count.x as int), k / (count.x as int)),
                    ),
                forall|k: int| 0 <= k < blocks.len() ==> (#[trigger] blocks[k]).wf(),
            decreases count.x - x,
        {
            proof {
                lemma_share(x as int, pos.w as int, count.x as int);
                lemma_share(y as int, pos.h as int, count.y as int);
                lemma_cell(x as int, y as int, count.x as int);
            }
            let dst = Point::new(
                pos.x + split(pos.w as i32, count.x, x),
                pos.y + split(pos.h as i32, count.y, y),
            );
            let color = Color { r: (x % 2 * 255) as u8, g: (y % 2 * 255) as u8, b: 0 };
            blocks.push(GameObject::Block(Block::new(color, dst, size)));
            x += 1;
        }
        proof {
            lemma_cell(0, y as int, count.x as int);
        }
        y += 1;
    }
    assert(blocks.len() == if count.y > 0 { count.x * count.y } else { 0 }) by (nonlinear_arith)
        requires
            blocks.len() == y * count.x,
            y == if count.y > 0 { count.y } else { 0 },
    ;
    blocks
}

} // verus!
