//! The ball and its motion: one tick advances the ball by its speed in unit
//! steps, each followed by the wall rule and a scan of the obstacles.

use vstd::prelude::*;
use crate::circle::{Circle, Contact, LIMIT};
use crate::geometry::{
    horizontal_bounce, horizontal_bounce_spec, to_cartesian, to_cartesian_spec, to_rad,
    vertical_bounce, vertical_bounce_spec, HALF_PI, ONE, PI, TWO_PI,
};
use crate::fixed::lemma_cos_sin_bounded;
use crate::rect::{clamp_spec, Rect};
use crate::reflection::{paddle_bounce, paddle_bounce_spec, reflect, reflect_spec, Cone};

verus! {

/// What an obstacle is, which decides what a contact with it does.
#[derive(Clone, Copy, Debug, PartialEq, Eq, Structural)]
pub enum Kind {
    /// Destroyed by the first contact, which also ends the scan.
    Block,
    /// Bounces the ball and steers it.
    Paddle,
    /// Another ball's bounding square: bounces the ball.
    Ball,
}

/// A rectangle in the ball's way. One that is not live is passed over.
#[derive(Clone, Copy, Debug, PartialEq, Eq, Structural)]
pub struct Obstacle {
    pub rect: Rect,
    pub kind: Kind,
    pub live: bool,
}

/// A contact the ball made: with which obstacle, of what kind, and where.
#[derive(Clone, Copy, Debug, PartialEq, Eq, Structural)]
pub struct Hit {
    pub index: usize,
    pub kind: Kind,
    pub contact: Contact,
}

/// A ball: its circle, its direction of travel and its speed in unit steps
/// per tick.
#[derive(Clone, Copy, Debug, PartialEq, Eq, Structural)]
pub struct Ball {
    pub circle: Circle,
    pub direction: i64,
    pub speed: i32,
}

/// The state that a ball's motion threads through: the ball, the obstacles
/// with their live flags, and the contacts made so far.
pub struct Motion {
    pub ball: Ball,
    pub obstacles: Seq<Obstacle>,
    pub hits: Seq<Hit>,
    /// Set once a block has been hit: the rest of the scan is passed over.
    pub stopped: bool,
}

/// The circle one unit step further along `direction`. A center that would
/// leave the limits of a well-formed circle stays at the limit.
pub open spec fn advance_spec(circle: Circle, direction: int) -> Circle {
    let step = to_cartesian_spec(ONE as int, direction);
    Circle {
        x: clamp_spec(circle.x + step.0, -LIMIT as int, LIMIT as int) as i64,
        y: clamp_spec(circle.y + step.1, -LIMIT as int, LIMIT as int) as i64,
        radius: circle.radius,
    }
}

/// The direction after the wall rule, for a field `width` pixels wide whose
/// left wall is at zero and whose top wall is at zero. A ball past the right
/// or left wall and heading outward takes a horizontal bounce; a ball past
/// the top wall and heading upward takes a vertical bounce. There is no
/// bottom wall.
pub open spec fn wall_bounce_spec(circle: Circle, direction: int, width: int) -> int {
    let d1 = if circle.x > width * ONE - circle.radius && (direction < HALF_PI || direction > PI
        + HALF_PI) {
        horizontal_bounce_spec(direction)
    } else {
        direction
    };
    let d2 = if circle.x < circle.radius && HALF_PI < d1 < PI + HALF_PI {
        horizontal_bounce_spec(d1)
    } else {
        d1
    };
    if circle.y < circle.radius && PI < d2 < TWO_PI {
        vertical_bounce_spec(d2)
    } else {
        d2
    }
}

/// The effect of testing the ball against obstacle `i`. A live obstacle in
/// contact is recorded as a hit and turns the ball: a block by reflection,
/// after which it is no longer live and the scan is over; the paddle by
/// reflection and steering; another ball by reflection.
pub open spec fn scan_one(cone: Cone, m: Motion, i: int) -> Motion {
    let ob = m.obstacles[i];
    if m.stopped || !ob.live {
        m
    } else {
        match m.ball.circle.spec_contact(ob.rect) {
            None => m,
            Some(contact) => {
                let hits = m.hits.push(Hit { index: i as usize, kind: ob.kind, contact });
                let reflected = reflect_spec(
                    m.ball.direction as int,
                    contact,
                    m.ball.circle.spec_center(),
                );
                match ob.kind {
                    Kind::Block => Motion {
                        ball: Ball { direction: reflected as i64, ..m.ball },
                        obstacles: m.obstacles.update(i, Obstacle { live: false, ..ob }),
                        hits,
                        stopped: true,
                    },
                    Kind::Paddle => Motion {
                        ball: Ball {
                            direction: paddle_bounce_spec(
                                m.ball.direction as int,
                                m.ball.circle,
                                contact,
                                ob.rect,
                                cone,
                            ) as i64,
                            ..m.ball
                        },
                        hits,
                        ..m
                    },
                    Kind::Ball => Motion {
                        ball: Ball { direction: reflected as i64, ..m.ball },
                        hits,
                        ..m
                    },
                }
            },
        }
    }
}

/// The effect of testing the ball against the first `n` obstacles in order.
pub open spec fn scan_upto(cone: Cone, m: Motion, n: nat) -> Motion
    decreases n,
{
    if n == 0 {
        m
    } else {
        scan_one(cone, scan_upto(cone, m, (n - 1) as nat), n - 1)
    }
}

/// One unit step: advance, apply the wall rule, scan every obstacle.
pub open spec fn step_spec(width: int, cone: Cone, m: Motion) -> Motion {
    let circle = advance_spec(m.ball.circle, m.ball.direction as int);
    let direction = wall_bounce_spec(circle, m.ball.direction as int, width);
    let moved = Motion {
        ball: Ball { circle, direction: direction as i64, speed: m.ball.speed },
        stopped: false,
        ..m
    };
    Motion { stopped: false, ..scan_upto(cone, moved, m.obstacles.len()) }
}

/// `n` unit steps in a row.
pub open spec fn run_spec(width: int, cone: Cone, m: Motion, n: nat) -> Motion
    decreases n,
{
    if n == 0 {
        m
    } else {
        step_spec(width, cone, run_spec(width, cone, m, (n - 1) as nat))
    }
}

/// Every obstacle's rectangle is well-formed.
pub open spec fn obstacles_wf(obstacles: Seq<Obstacle>) -> bool {
    forall|i: int| 0 <= i < obstacles.len() ==> (#[trigger] obstacles[i]).rect.wf()
}

impl Motion {
    /// A well-formed ball among well-formed obstacles, and every hit with
    /// one of the obstacles, of that obstacle's kind.
    pub open spec fn wf(self) -> bool {
        &&& self.ball.wf()
        &&& obstacles_wf(self.obstacles)
        &&& self.obstacles.len() <= usize::MAX
        &&& (forall|k: int|
            0 <= k < self.hits.len() ==> {
                &&& (#[trigger] self.hits[k]).index < self.obstacles.len()
                &&& self.hits[k].kind == self.obstacles[self.hits[k].index as int].kind
            })
    }

    /// Whether `self` can come after `before` in a ball's motion: the same
    /// obstacles but for live flags that went out, the same circle size and
    /// speed, and the earlier hits first.
    pub open spec fn follows(self, before: Motion) -> bool {
        &&& self.ball.speed == before.ball.speed
        &&& self.ball.circle.radius == before.ball.circle.radius
        &&& self.obstacles.len() == before.obstacles.len()
        &&& (forall|i: int|
            0 <= i < self.obstacles.len() ==> {
                &&& (#[trigger] self.obstacles[i]).rect == before.obstacles[i].rect
                &&& self.obstacles[i].kind == before.obstacles[i].kind
                &&& self.obstacles[i].live ==> before.obstacles[i].live
            })
        &&& before.hits.len() <= self.hits.len()
        &&& (forall|j: int| 0 <= j < before.hits.len() ==> self.hits[j] == before.hits[j])
    }

    /// Whether every hit made since `before` was with an obstacle that was
    /// live, and left it out if it was a block.
    #[verifier::opaque]
    pub open spec fn hits_were_live(self, before: Motion) -> bool {
        forall|k: int|
            before.hits.len() <= k < self.hits.len() ==> {
                &&& before.obstacles[(#[trigger] self.hits[k]).index as int].live
                &&& self.hits[k].kind is Block ==> !self.obstacles[self.hits[k].index as int].live
            }
    }

    /// Whether every obstacle that went out since `before` was hit since,
    /// as a block.
    #[verifier::opaque]
    pub open spec fn outs_were_hit(self, before: Motion) -> bool {
        forall|i: int|
            0 <= i < self.obstacles.len() && before.obstacles[i].live && !(
            #[trigger] self.obstacles[i]).live ==> exists|k: int|
                before.hits.len() <= k < self.hits.len() && (#[trigger] self.hits[k]).index == i
                    && self.hits[k].kind is Block
    }

    /// Whether the hits made since `before` account for the obstacles that
    /// went out since: the blocks that were hit, and nothing else.
    pub open spec fn accounts_for(self, before: Motion) -> bool {
        self.hits_were_live(before) && self.outs_were_hit(before)
    }

    /// Whether no hit made since `before` was with a block, but perhaps the
    /// last.
    #[verifier::opaque]
    pub open spec fn hit_one_block_at_most(self, before: Motion) -> bool {
        forall|k: int|
            before.hits.len() <= k < self.hits.len() && (#[trigger] self.hits[k]).kind is Block
                ==> k == self.hits.len() - 1
    }

    /// Whether no hit made since `before` was with a block.
    #[verifier::opaque]
    pub open spec fn hit_no_block(self, before: Motion) -> bool {
        forall|k: int|
            before.hits.len() <= k < self.hits.len() ==> !((#[trigger] self.hits[k]).kind is Block)
    }
}

/// The number of unit steps in a tick at the given speed: none for a speed
/// that is not positive.
pub open spec fn steps(speed: i32) -> nat {
    if speed > 0 {
        speed as nat
    } else {
        0
    }
}

proof fn lemma_scan_one(cone: Cone, m: Motion, i: int)
    requires
        m.wf(),
        cone.wf(),
        0 <= i < m.obstacles.len(),
    ensures
        scan_one(cone, m, i).wf(),
        scan_one(cone, m, i).follows(m),
{
    let after = scan_one(cone, m, i);
    assert forall|k: int| 0 <= k < after.hits.len() implies {
        &&& (#[trigger] after.hits[k]).index < after.obstacles.len()
        &&& after.hits[k].kind == after.obstacles[after.hits[k].index as int].kind
    } by {
        if k < m.hits.len() {
            assert(after.hits[k] == m.hits[k]);
        }
    }
}

proof fn lemma_scan_upto(cone: Cone, m: Motion, n: nat)
    requires
        m.wf(),
        cone.wf(),
        n <= m.obstacles.len(),
    ensures
        scan_upto(cone, m, n).wf(),
        scan_upto(cone, m, n).follows(m),
    decreases n,
{
    if n > 0 {
        lemma_scan_upto(cone, m, (n - 1) as nat);
        lemma_scan_one(cone, scan_upto(cone, m, (n - 1) as nat), n - 1);
    }
}

proof fn lemma_scan_stopped(cone: Cone, m: Motion, i: nat, n: nat)
    requires
        i <= n,
        scan_upto(cone, m, i).stopped,
    ensures
        scan_upto(cone, m, n) == scan_upto(cone, m, i),
    decreases n - i,
{
    if n > i {
        lemma_scan_stopped(cone, m, i, (n - 1) as nat);
    }
}

proof fn lemma_step(width: int, cone: Cone, m: Motion)
    requires
        m.wf(),
        cone.wf(),
    ensures
        step_spec(width, cone, m).wf(),
        step_spec(width, cone, m).follows(m),
        !step_spec(width, cone, m).stopped,
{
    let circle = advance_spec(m.ball.circle, m.ball.direction as int);
    let direction = wall_bounce_spec(circle, m.ball.direction as int, width);
    let moved = Motion {
        ball: Ball { circle, direction: direction as i64, speed: m.ball.speed },
        stopped: false,
        ..m
    };
    lemma_cos_sin_bounded(m.ball.direction as int);
    assert(moved.wf());
    lemma_scan_upto(cone, moved, m.obstacles.len());
}

proof fn lemma_hits_were_live_chain(a: Motion, b: Motion, c: Motion)
    requires
        c.wf(),
        b.follows(a),
        c.follows(b),
        b.hits_were_live(a),
        c.hits_were_live(b),
    ensures
        c.hits_were_live(a),
{
    reveal(Motion::hits_were_live);
    assert forall|k: int| a.hits.len() <= k < c.hits.len() implies {
        &&& a.obstacles[(#[trigger] c.hits[k]).index as int].live
        &&& c.hits[k].kind is Block ==> !c.obstacles[c.hits[k].index as int].live
    } by {
        let i = c.hits[k].index as int;
        assert(c.obstacles[i].live ==> b.obstacles[i].live);
        assert(b.obstacles[i].live ==> a.obstacles[i].live);
        if k < b.hits.len() {
            assert(c.hits[k] == b.hits[k]);
        }
    }
}

proof fn lemma_outs_were_hit_chain(a: Motion, b: Motion, c: Motion)
    requires
        b.follows(a),
        c.follows(b),
        b.outs_were_hit(a),
        c.outs_were_hit(b),
    ensures
        c.outs_were_hit(a),
{
    reveal(Motion::outs_were_hit);
    assert forall|i: int|
        0 <= i < c.obstacles.len() && a.obstacles[i].live && !(#[trigger] c.obstacles[i]).live implies exists|
        k: int,
    |
        a.hits.len() <= k < c.hits.len() && (#[trigger] c.hits[k]).index == i && c.hits[k].kind is Block by {
        if !b.obstacles[i].live {
            let k = choose|k: int|
                a.hits.len() <= k < b.hits.len() && (#[trigger] b.hits[k]).index == i
                    && b.hits[k].kind is Block;
            assert(c.hits[k] == b.hits[k]);
        } else {
            let k = choose|k: int|
                b.hits.len() <= k < c.hits.len() && (#[trigger] c.hits[k]).index == i
                    && c.hits[k].kind is Block;
            assert(a.hits.len() <= k);
        }
    }
}

proof fn lemma_scan_one_accounts(cone: Cone, m: Motion, i: int)
    requires
        m.wf(),
        cone.wf(),
        !m.stopped,
        0 <= i < m.obstacles.len(),
    ensures
        scan_one(cone, m, i).accounts_for(m),
        scan_one(cone, m, i).stopped ==> scan_one(cone, m, i).hits.len() > m.hits.len()
            && scan_one(cone, m, i).hits.last().kind is Block,
        !scan_one(cone, m, i).stopped ==> scan_one(cone, m, i).hit_no_block(m),
{
    reveal(Motion::hits_were_live);
    reveal(Motion::outs_were_hit);
    reveal(Motion::hit_no_block);
    let after = scan_one(cone, m, i);
    if after.hits.len() > m.hits.len() {
        assert(after.hits[m.hits.len() as int].index == i);
    }
}

proof fn lemma_scan_stopped_accounts(cone: Cone, m: Motion, i: int)
    requires
        m.stopped,
    ensures
        scan_one(cone, m, i) == m,
        m.accounts_for(m),
        m.hit_no_block(m),
{
    reveal(Motion::hits_were_live);
    reveal(Motion::outs_were_hit);
    reveal(Motion::hit_no_block);
}

proof fn lemma_hit_blocks_chain(a: Motion, b: Motion, c: Motion)
    requires
        b.follows(a),
        c.follows(b),
        b.hit_no_block(a),
        c.hit_no_block(b) || (c.hits.len() > b.hits.len() && c.hits.last().kind is Block
            && c.hits.len() == b.hits.len() + 1),
    ensures
        c.hit_one_block_at_most(a),
        c.hit_no_block(b) ==> c.hit_no_block(a),
{
    reveal(Motion::hit_no_block);
    reveal(Motion::hit_one_block_at_most);
    assert forall|k: int|
        a.hits.len() <= k < c.hits.len() && (#[trigger] c.hits[k]).kind is Block implies k
        == c.hits.len() - 1 by {
        if k < b.hits.len() {
            assert(c.hits[k] == b.hits[k]);
        }
    }
    if c.hit_no_block(b) {
        assert forall|k: int| a.hits.len() <= k < c.hits.len() implies !((#[trigger] c.hits[k]).kind is Block) by {
            if k < b.hits.len() {
                assert(c.hits[k] == b.hits[k]);
            }
        }
    }
}

proof fn lemma_scan_upto_accounts(cone: Cone, m: Motion, n: nat)
    requires
        m.wf(),
        cone.wf(),
        !m.stopped,
        n <= m.obstacles.len(),
    ensures
        scan_upto(cone, m, n).accounts_for(m),
        scan_upto(cone, m, n).hit_one_block_at_most(m),
        !scan_upto(cone, m, n).stopped ==> scan_upto(cone, m, n).hit_no_block(m),
    decreases n,
{
    if n == 0 {
        reveal(Motion::hits_were_live);
        reveal(Motion::outs_were_hit);
        reveal(Motion::hit_no_block);
        reveal(Motion::hit_one_block_at_most);
    } else {
        let before = scan_upto(cone, m, (n - 1) as nat);
        let after = scan_upto(cone, m, n);
        lemma_scan_upto_accounts(cone, m, (n - 1) as nat);
        lemma_scan_upto(cone, m, (n - 1) as nat);
        lemma_scan_upto(cone, m, n);
        lemma_scan_one(cone, before, n - 1);
        if before.stopped {
            lemma_scan_stopped_accounts(cone, before, n - 1);
        } else {
            lemma_scan_one_accounts(cone, before, n - 1);
            lemma_hits_were_live_chain(m, before, after);
            lemma_outs_were_hit_chain(m, before, after);
            lemma_hit_blocks_chain(m, before, after);
        }
    }
}

proof fn lemma_accounts_alike(x: Motion, y: Motion, before: Motion, ahead: Motion)
    requires
        x.hits == y.hits,
        x.obstacles == y.obstacles,
        before.hits == ahead.hits,
        before.obstacles == ahead.obstacles,
    ensures
        x.accounts_for(before) == y.accounts_for(ahead),
        x.hit_one_block_at_most(before) == y.hit_one_block_at_most(ahead),
{
    reveal(Motion::hits_were_live);
    reveal(Motion::outs_were_hit);
    reveal(Motion::hit_one_block_at_most);
}

/// A unit step hits one block at most, in its last hit, and its hits
/// account for the obstacles that went out in it.
pub proof fn lemma_step_accounts(width: int, cone: Cone, m: Motion)
    requires
        m.wf(),
        cone.wf(),
    ensures
        step_spec(width, cone, m).accounts_for(m),
        step_spec(width, cone, m).hit_one_block_at_most(m),
{
    let circle = advance_spec(m.ball.circle, m.ball.direction as int);
    let direction = wall_bounce_spec(circle, m.ball.direction as int, width);
    let moved = Motion {
        ball: Ball { circle, direction: direction as i64, speed: m.ball.speed },
        stopped: false,
        ..m
    };
    lemma_cos_sin_bounded(m.ball.direction as int);
    assert(moved.wf());
    lemma_scan_upto_accounts(cone, moved, m.obstacles.len());
    lemma_accounts_alike(
        step_spec(width, cone, m),
        scan_upto(cone, moved, m.obstacles.len()),
        m,
        moved,
    );
}

/// The hits of a ball's motion account for the obstacles that went out
/// in it: the blocks that were hit, and nothing else.
pub proof fn lemma_run_accounts(width: int, cone: Cone, m: Motion, n: nat)
    requires
        m.wf(),
        cone.wf(),
    ensures
        run_spec(width, cone, m, n).accounts_for(m),
    decreases n,
{
    if n == 0 {
        reveal(Motion::hits_were_live);
        reveal(Motion::outs_were_hit);
    } else {
        let before = run_spec(width, cone, m, (n - 1) as nat);
        lemma_run_accounts(width, cone, m, (n - 1) as nat);
        lemma_run(width, cone, m, (n - 1) as nat);
        lemma_run(width, cone, m, n);
        lemma_step(width, cone, before);
        lemma_step_accounts(width, cone, before);
        lemma_hits_were_live_chain(m, before, run_spec(width, cone, m, n));
        lemma_outs_were_hit_chain(m, before, run_spec(width, cone, m, n));
    }
}

/// A ball's motion keeps the ball and the obstacles well-formed, changes of
/// the obstacles nothing but live flags, which only go out, and only adds
/// to the hits.
pub proof fn lemma_run(width: int, cone: Cone, m: Motion, n: nat)
    requires
        m.wf(),
        cone.wf(),
    ensures
        run_spec(width, cone, m, n).wf(),
        run_spec(width, cone, m, n).follows(m),
    decreases n,
{
    if n > 0 {
        lemma_run(width, cone, m, (n - 1) as nat);
        lemma_step(width, cone, run_spec(width, cone, m, (n - 1) as nat));
    }
}

impl Ball {
    /// A well-formed circle and a normalized direction.
    pub open spec fn wf(self) -> bool {
        self.circle.wf() && 0 <= self.direction < TWO_PI
    }

    /// Whether the ball is well-formed.
    pub fn valid(&self) -> (ok: bool)
        ensures
            ok == self.wf(),
    {
        self.circle.valid() && 0 <= self.direction && self.direction < TWO_PI
    }

    /// A ball at the grid point `(x, y)`, heading straight down.
    pub fn new(x: i32, y: i32, radius: i32, speed: i32) -> (ball: Ball)
        requires
            -0x2000_0000 <= x <= 0x2000_0000,
            -0x2000_0000 <= y <= 0x2000_0000,
            0 < radius < 0x2000_0000,
        ensures
            ball.wf(),
            ball.circle.x == x * ONE,
            ball.circle.y == y * ONE,
            ball.circle.radius == radius * ONE,
            ball.direction == HALF_PI,
            ball.speed == speed,
    {
        Ball {
            circle: Circle { x: x as i64 * ONE, y: y as i64 * ONE, radius: radius as i64 * ONE },
            direction: to_rad(90),
            speed,
        }
    }

    /// The ball's bounding square on the grid.
    pub fn to_rect(&self) -> (r: Rect)
        requires
            self.wf(),
        ensures
            r == self.circle.spec_to_rect(),
            r.wf(),
    {
        self.circle.to_rect()
    }

    /// Whether the ball is still in a field `height` pixels high: it is
    /// lost once its bounding square reaches below the last row.
    pub fn in_play(&self, height: i32) -> (alive: bool)
        requires
            self.wf(),
        ensures
            alive == (self.circle.spec_to_rect().spec_bottom() <= height - 1),
    {
        self.to_rect().bottom() as i64 <= height as i64 - 1
    }

    fn advance(&mut self)
        requires
            old(self).wf(),
        ensures
            final(self).circle == advance_spec(old(self).circle, old(self).direction as int),
            final(self).direction == old(self).direction,
            final(self).speed == old(self).speed,
            final(self).wf(),
    {
        let (dx, dy): (i64, i64) = to_cartesian(ONE, self.direction);
        let x: i64 = self.circle.x + dx;
        let y: i64 = self.circle.y + dy;
        self.circle.x = if x < -LIMIT { -LIMIT } else if x > LIMIT { LIMIT } else { x };
        self.circle.y = if y < -LIMIT { -LIMIT } else if y > LIMIT { LIMIT } else { y };
    }

    fn wall_bounce(&mut self, width: i32)
        requires
            old(self).wf(),
        ensures
            final(self).direction == wall_bounce_spec(
                old(self).circle,
                old(self).direction as int,
                width as int,
            ),
            final(self).circle == old(self).circle,
            final(self).speed == old(self).speed,
            final(self).wf(),
    {
        let right_wall: i64 = width as i64 * ONE - self.circle.radius;
        if self.circle.x > right_wall && (self.direction < HALF_PI || self.direction > PI + HALF_PI) {
            self.direction = horizontal_bounce(self.direction);
        }
        if self.circle.x < self.circle.radius && self.direction > HALF_PI && self.direction < PI
            + HALF_PI {
            self.direction = horizontal_bounce(self.direction);
        }
        if self.circle.y < self.circle.radius && self.direction > PI && self.direction < TWO_PI {
            self.direction = vertical_bounce(self.direction);
        }
    }

    fn scan(&mut self, cone: Cone, obstacles: &mut Vec<Obstacle>, hits: &mut Vec<Hit>)
        requires
            cone.wf(),
            (Motion {
                ball: *old(self),
                obstacles: old(obstacles)@,
                hits: old(hits)@,
                stopped: false,
            }).wf(),
        ensures
            ({
                let start = Motion {
                    ball: *old(self),
                    obstacles: old(obstacles)@,
                    hits: old(hits)@,
                    stopped: false,
                };
                let end = scan_upto(cone, start, old(obstacles)@.len());
                &&& *final(self) == end.ball
                &&& final(obstacles)@ == end.obstacles
                &&& final(hits)@ == end.hits
            }),
    {
        let ghost start = Motion { ball: *self, obstacles: obstacles@, hits: hits@, stopped: false };
        let n: usize = obstacles.len();
        let mut i: usize = 0;
        let mut stopped: bool = false;
        while i < n && !stopped
            invariant
                i <= n,
                n == start.obstacles.len(),
                cone.wf(),
                start.wf(),
                (Motion { ball: *self, obstacles: obstacles@, hits: hits@, stopped }) == scan_upto(
                    cone,
                    start,
                    i as nat,
                ),
            decreases n - i,
        {
            proof {
                lemma_scan_upto(cone, start, i as nat);
            }
            let ob: Obstacle = obstacles[i];
            if ob.live {
                match self.circle.contact(ob.rect) {
                    None => {},
                    Some(contact) => {
                        hits.push(Hit { index: i, kind: ob.kind, contact });
                        match ob.kind {
                            Kind::Block => {
                                self.direction = reflect(self.direction, contact, self.circle.center());
                                obstacles.set(i, Obstacle { rect: ob.rect, kind: ob.kind, live: false });
                                stopped = true;
                            },
                            Kind::Paddle => {
                                self.direction = paddle_bounce(
                                    self.direction,
                                    &self.circle,
                                    contact,
                                    ob.rect,
                                    cone,
                                );
                            },
                            Kind::Ball => {
                                self.direction = reflect(self.direction, contact, self.circle.center());
                            },
                        }
                    },
                }
            }
            i += 1;
        }
        proof {
            if i < n {
                lemma_scan_stopped(cone, start, i as nat, n as nat);
            }
        }
    }

    fn step(&mut self, width: i32, cone: Cone, obstacles: &mut Vec<Obstacle>, hits: &mut Vec<Hit>)
        requires
            cone.wf(),
            (Motion {
                ball: *old(self),
                obstacles: old(obstacles)@,
                hits: old(hits)@,
                stopped: false,
            }).wf(),
        ensures
            ({
                let start = Motion {
                    ball: *old(self),
                    obstacles: old(obstacles)@,
                    hits: old(hits)@,
                    stopped: false,
                };
                let end = step_spec(width as int, cone, start);
                &&& *final(self) == end.ball
                &&& final(obstacles)@ == end.obstacles
                &&& final(hits)@ == end.hits
            }),
    {
        self.advance();
        self.wall_bounce(width);
        self.scan(cone, obstacles, hits);
    }

    /// One tick of motion in a field `width` pixels wide: as many unit steps
    /// as the speed says, each followed by the wall rule and a scan of the
    /// live obstacles in order. Returns the contacts made, in order; the
    /// blocks that were hit are no longer live afterwards, and nothing else
    /// about the obstacles has changed.
    pub fn update(&mut self, width: i32, cone: Cone, obstacles: &mut Vec<Obstacle>) -> (hits: Vec<Hit>)
        requires
            old(self).wf(),
            cone.wf(),
            obstacles_wf(old(obstacles)@),
        ensures
            ({
                let start = Motion {
                    ball: *old(self),
                    obstacles: old(obstacles)@,
                    hits: Seq::empty(),
                    stopped: false,
                };
                let end = run_spec(width as int, cone, start, steps(old(self).speed));
                &&& *final(self) == end.ball
                &&& final(obstacles)@ == end.obstacles
                &&& hits@ == end.hits
                &&& end.wf()
                &&& end.follows(start)
                &&& end.accounts_for(start)
            }),
    {
        let ghost start = Motion {
            ball: *self,
            obstacles: obstacles@,
            hits: Seq::empty(),
            stopped: false,
        };
        assert(obstacles@.len() == obstacles.len());
        let mut hits: Vec<Hit> = Vec::new();
        let mut done: i32 = 0;
        while done < self.speed
            invariant
                0 <= done,
                done <= steps(self.speed),
                self.speed == start.ball.speed,
                cone.wf(),
                start.wf(),
                (Motion { ball: *self, obstacles: obstacles@, hits: hits@, stopped: false })
                    == run_spec(width as int, cone, start, done as nat),
            decreases self.speed - done,
        {
            proof {
                lemma_run(width as int, cone, start, done as nat);
                lemma_step(width as int, cone, run_spec(width as int, cone, start, done as nat));
            }
            self.step(width, cone, obstacles, &mut hits);
            done += 1;
        }
        proof {
            lemma_run(width as int, cone, start, steps(start.ball.speed));
            lemma_run_accounts(width as int, cone, start, steps(start.ball.speed));
        }
        hits
    }
}

} // verus!
