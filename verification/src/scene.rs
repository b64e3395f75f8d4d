//! The scene: every object on the field, and the tick that updates them.
//!
//! A tick gives each object that was on the field at its start one turn, in
//! order. Nothing is taken off or put on the field while the turns last: an
//! object that is destroyed or lost is marked as gone and passed over from
//! then on, and what is to come onto the field is kept pending. When every
//! object has had its turn the gone ones leave and the pending ones arrive.

use vstd::prelude::*;
use crate::ball::{lemma_run, obstacles_wf, run_spec, steps, Ball, Hit, Kind, Motion, Obstacle};
use crate::circle::Circle;
use crate::geometry::{HALF_PI, ONE};
use crate::objects::{fall, fallen, Bonus, GameObject, GrowBonus, NewBallBonus, Palka, Watcher};
use crate::rect::Rect;
use crate::reflection::Cone;

verus! {

/// The greatest width or height of a well-formed scene: 2^29 pixels.
pub const MAX_FIELD: i32 = 0x2000_0000;

/// The scene: the size of the field, the objects on it and the cone into
/// which the paddle steers.
pub struct Scene {
    pub width: i32,
    pub height: i32,
    pub objects: Vec<GameObject>,
    pub cone: Cone,
}

/// What stays the same throughout a tick: the field, the keys held and the
/// time.
#[derive(Clone, Copy, Debug, PartialEq, Eq, Structural)]
pub struct Frame {
    pub width: i32,
    pub height: i32,
    pub cone: Cone,
    /// Whether the key that moves the paddle to the left is held.
    pub left: bool,
    /// Whether the key that moves the paddle to the right is held.
    pub right: bool,
    /// The time, in milliseconds.
    pub now: u64,
}

/// Something that comes onto the field at the end of a tick.
#[derive(Clone, Copy, Debug, PartialEq, Eq, Structural)]
pub enum Pending {
    /// This object.
    Spawn(GameObject),
    /// Perhaps a bonus, where a block stood: chance decides.
    Drop(Rect),
}

/// The state of a tick while the turns last.
pub struct Pass {
    pub objects: Seq<GameObject>,
    pub gone: Seq<bool>,
    pub pending: Seq<Pending>,
}

/// The random source of the bonus drops: `rand::StdRng`, a generator that
/// can be seeded.
#[verifier::external_type_specification]
#[verifier::external_body]
pub struct ExStdRng(rand::StdRng);

/// The size of the range of a roll's fraction: 2^23.
pub const FRACTIONS: u32 = 0x80_0000;

/// The low 23 bits of a roll, read as a fraction of [`FRACTIONS`].
pub open spec fn fraction(roll: u32) -> int {
    (roll % FRACTIONS) as int
}

/// Whether a roll wins a drop: its fraction is under a fifth.
pub open spec fn wins(roll: u32) -> bool {
    fraction(roll) * 5 < FRACTIONS
}

/// What [`bonus_drop`] returns.
pub open spec fn bonus_drop_spec(rect: Rect, first: u32, second: u32) -> Option<GameObject> {
    if !wins(first) {
        None
    } else if fraction(second) * 2 < FRACTIONS {
        Some(GameObject::NewBallBonus(NewBallBonus { pos: rect }))
    } else {
        Some(GameObject::GrowBonus(GrowBonus { pos: rect }))
    }
}

/// What comes onto the field for something pending, given the two rolls
/// that decide a drop.
pub open spec fn arrival(item: Pending, rolls: (u32, u32)) -> Option<GameObject> {
    match item {
        Pending::Spawn(object) => Some(object),
        Pending::Drop(rect) => bonus_drop_spec(rect, rolls.0, rolls.1),
    }
}

/// What comes onto the field for the first `n` of the pending, in order.
pub open spec fn arrivals_upto(pending: Seq<Pending>, rolls: Seq<(u32, u32)>, n: nat) -> Seq<
    GameObject,
>
    decreases n,
{
    if n == 0 {
        Seq::empty()
    } else {
        let before = arrivals_upto(pending, rolls, (n - 1) as nat);
        match arrival(pending[n - 1], rolls[n - 1]) {
            Some(object) => before.push(object),
            None => before,
        }
    }
}

/// What comes onto the field for all that is pending.
pub open spec fn arrivals(pending: Seq<Pending>, rolls: Seq<(u32, u32)>) -> Seq<GameObject> {
    arrivals_upto(pending, rolls, pending.len())
}

impl Frame {
    /// A field within the limits, a well-formed cone.
    pub open spec fn wf(self) -> bool {
        &&& 0 <= self.width <= MAX_FIELD
        &&& 0 <= self.height <= MAX_FIELD
        &&& self.cone.wf()
    }

    /// The ball that a new-ball bonus puts in play: in the middle of the
    /// field, heading straight down.
    pub open spec fn new_ball(self) -> Ball {
        Ball {
            circle: Circle {
                x: ((self.width / 2) * ONE) as i64,
                y: ((self.height / 2) * ONE) as i64,
                radius: (10 * ONE) as i64,
            },
            direction: HALF_PI,
            speed: 7,
        }
    }
}

impl Pending {
    /// A well-formed object to spawn, or a well-formed rectangle for a drop.
    pub open spec fn wf(self) -> bool {
        match self {
            Pending::Spawn(object) => object.wf(),
            Pending::Drop(rect) => rect.wf(),
        }
    }
}

impl Pass {
    /// One mark for each object; every object and everything pending
    /// well-formed.
    pub open spec fn wf(self) -> bool {
        &&& self.objects.len() == self.gone.len()
        &&& (forall|i: int| 0 <= i < self.objects.len() ==> (#[trigger] self.objects[i]).wf())
        &&& (forall|k: int| 0 <= k < self.pending.len() ==> (#[trigger] self.pending[k]).wf())
    }

    /// Nothing pending is a block.
    pub open spec fn spawns_no_block(self) -> bool {
        forall|k: int|
            0 <= k < self.pending.len() ==> !((#[trigger] self.pending[k]) matches Pending::Spawn(
                object,
            ) && object is Block)
    }

    /// Whether `self` has its blocks where `before` has them, and still
    /// nothing pending that is a block if `before` had nothing.
    pub open spec fn keeps_blocks(self, before: Pass) -> bool {
        &&& self.objects.len() == before.objects.len()
        &&& (forall|i: int|
            0 <= i < self.objects.len() ==> ((#[trigger] self.objects[i]) is Block
                <==> before.objects[i] is Block))
        &&& (before.spawns_no_block() ==> self.spawns_no_block())
    }

    /// Whether object `j` is a paddle on the field.
    pub open spec fn is_paddle(self, j: int) -> bool {
        !self.gone[j] && self.objects[j] is Palka
    }

    /// The first paddle on the field at or after `j`.
    pub open spec fn first_paddle_from(self, j: int) -> Option<int>
        decreases self.objects.len() - j,
    {
        if j >= self.objects.len() {
            None
        } else if self.is_paddle(j) {
            Some(j)
        } else {
            self.first_paddle_from(j + 1)
        }
    }

    /// The first paddle on the field.
    pub open spec fn first_paddle(self) -> Option<int> {
        self.first_paddle_from(0)
    }

    /// The pass with paddle `j` replaced.
    pub open spec fn with_paddle(self, j: int, palka: Palka) -> Pass {
        Pass { objects: self.objects.update(j, GameObject::Palka(palka)), ..self }
    }

    /// The pass after the first paddle on the field has grown, with a
    /// watcher pending; unchanged if there is no paddle.
    pub open spec fn grow(self, now: u64) -> Pass {
        match self.first_paddle() {
            Some(j) => match self.objects[j] {
                GameObject::Palka(palka) => Pass {
                    pending: self.pending.push(
                        Pending::Spawn(GameObject::Watcher(Watcher { start: now, destroy: false })),
                    ),
                    ..self.with_paddle(j, palka.grown())
                },
                _ => self,
            },
            None => self,
        }
    }

    /// The pass after the turn of watcher `i`. Once its watch has run out,
    /// the first paddle on the field shrinks and the watcher is gone; with
    /// no paddle on the field the watcher waits on.
    pub open spec fn watcher_turn(self, frame: Frame, i: int, watcher: Watcher) -> Pass {
        if !watcher.spec_expired(frame.now) {
            self
        } else {
            match self.first_paddle() {
                Some(j) => match self.objects[j] {
                    GameObject::Palka(palka) => Pass {
                        objects: self.objects.update(j, GameObject::Palka(palka.shrunk())).update(
                            i,
                            GameObject::Watcher(Watcher { destroy: true, ..watcher }),
                        ),
                        gone: self.gone.update(i, true),
                        ..self
                    },
                    _ => self,
                },
                None => self,
            }
        }
    }

    /// The pass after the turn of a bonus at `i`: it falls by one row.
    pub open spec fn bonus_turn(self, i: int) -> Pass {
        match self.objects[i] {
            GameObject::NewBallBonus(bonus) => Pass {
                objects: self.objects.update(
                    i,
                    GameObject::NewBallBonus(NewBallBonus { pos: fallen(bonus.pos) }),
                ),
                ..self
            },
            GameObject::GrowBonus(bonus) => Pass {
                objects: self.objects.update(i, GameObject::GrowBonus(GrowBonus { pos: fallen(bonus.pos) })),
                ..self
            },
            _ => self,
        }
    }

    /// Whether a paddle at `paddle` picks up object `j`: a bonus on the
    /// field that the paddle overlaps.
    pub open spec fn collects(self, paddle: Rect, j: int) -> bool {
        &&& !self.gone[j]
        &&& self.objects[j].spec_is_bonus() is Some
        &&& paddle.intersects(self.objects[j].spec_to_rect())
    }

    /// The pass after a bonus has taken effect. A new-ball bonus leaves a
    /// ball pending. A grow bonus makes the first paddle on the field grow
    /// and leaves a watcher pending.
    pub open spec fn activate(self, frame: Frame, bonus: Bonus) -> Pass {
        match bonus {
            Bonus::NewBall => Pass {
                pending: self.pending.push(Pending::Spawn(GameObject::Ball(frame.new_ball()))),
                ..self
            },
            Bonus::Grow => self.grow(frame.now),
        }
    }

    /// The pass after a paddle at `paddle` has tried object `j`: a bonus it
    /// picks up is gone and takes effect.
    pub open spec fn collect_one(self, frame: Frame, paddle: Rect, j: int) -> Pass {
        if self.collects(paddle, j) {
            match self.objects[j].spec_is_bonus() {
                Some(bonus) => Pass { gone: self.gone.update(j, true), ..self }.activate(frame, bonus),
                None => self,
            }
        } else {
            self
        }
    }

    /// The pass after a paddle at `paddle` has tried the first `n` objects
    /// in order.
    pub open spec fn collect_upto(self, frame: Frame, paddle: Rect, n: nat) -> Pass
        decreases n,
    {
        if n == 0 {
            self
        } else {
            self.collect_upto(frame, paddle, (n - 1) as nat).collect_one(frame, paddle, n - 1)
        }
    }

    /// The pass after the turn of paddle `i`: it moves as the keys say,
    /// then picks up every bonus that it overlaps where it now stands.
    pub open spec fn paddle_turn(self, frame: Frame, i: int, palka: Palka) -> Pass {
        let moved = palka.moved(frame.left, frame.right, frame.width);
        self.with_paddle(i, moved).collect_upto(frame, moved.pos, self.objects.len())
    }

    /// Object `j` as an obstacle to ball `i`. Blocks, paddles and other
    /// balls on the field are live obstacles; everything else, and the ball
    /// itself, is not.
    pub open spec fn obstacle(self, i: int, j: int) -> Obstacle {
        let object = self.objects[j];
        Obstacle {
            rect: object.spec_to_rect(),
            kind: match object.spec_kind() {
                Some(kind) => kind,
                None => Kind::Block,
            },
            live: j != i && !self.gone[j] && object.spec_kind() is Some,
        }
    }

    /// The obstacles to ball `i`: one for each object, in order.
    pub open spec fn obstacles(self, i: int) -> Seq<Obstacle> {
        Seq::new(self.objects.len(), |j: int| self.obstacle(i, j))
    }

    /// The pass after a hit has been noted: a block that was hit is gone,
    /// and a drop is pending where it stood.
    pub open spec fn note_one(self, hit: Hit) -> Pass {
        if hit.kind is Block {
            Pass {
                gone: self.gone.update(hit.index as int, true),
                pending: self.pending.push(
                    Pending::Drop(self.objects[hit.index as int].spec_to_rect()),
                ),
                ..self
            }
        } else {
            self
        }
    }

    /// The pass after the first `n` of the hits have been noted in order.
    pub open spec fn note_upto(self, hits: Seq<Hit>, n: nat) -> Pass
        decreases n,
    {
        if n == 0 {
            self
        } else {
            self.note_upto(hits, (n - 1) as nat).note_one(hits[n - 1])
        }
    }

    /// The pass after the turn of ball `i`: it moves for one tick among the
    /// other objects, its hits are noted, and it is gone if it has left
    /// the field through the bottom.
    pub open spec fn ball_turn(self, frame: Frame, i: int, ball: Ball) -> Pass {
        let start = Motion { ball, obstacles: self.obstacles(i), hits: Seq::empty(), stopped: false };
        let end = run_spec(frame.width as int, frame.cone, start, steps(ball.speed));
        let noted = self.note_upto(end.hits, end.hits.len());
        Pass {
            objects: noted.objects.update(i, GameObject::Ball(end.ball)),
            gone: noted.gone.update(
                i,
                end.ball.circle.spec_to_rect().spec_bottom() > frame.height - 1,
            ),
            ..noted
        }
    }

    /// The pass after the turn of object `i`. An object that is gone has
    /// no turn, and a block's turn changes nothing.
    pub open spec fn turn(self, frame: Frame, i: int) -> Pass {
        if self.gone[i] {
            self
        } else {
            match self.objects[i] {
                GameObject::Block(_) => self,
                GameObject::Ball(ball) => self.ball_turn(frame, i, ball),
                GameObject::Palka(palka) => self.paddle_turn(frame, i, palka),
                GameObject::NewBallBonus(_) => self.bonus_turn(i),
                GameObject::GrowBonus(_) => self.bonus_turn(i),
                GameObject::Watcher(watcher) => self.watcher_turn(frame, i, watcher),
            }
        }
    }

    /// The pass after the turns of the first `n` objects in order.
    pub open spec fn turns_upto(self, frame: Frame, n: nat) -> Pass
        decreases n,
    {
        if n == 0 {
            self
        } else {
            self.turns_upto(frame, (n - 1) as nat).turn(frame, n - 1)
        }
    }

    /// Those of the first `n` objects that are not gone, in order.
    pub open spec fn survivors_upto(self, n: nat) -> Seq<GameObject>
        decreases n,
    {
        if n == 0 {
            Seq::empty()
        } else if self.gone[n - 1] {
            self.survivors_upto((n - 1) as nat)
        } else {
            self.survivors_upto((n - 1) as nat).push(self.objects[n - 1])
        }
    }

    /// The objects that are not gone, in order.
    pub open spec fn survivors(self) -> Seq<GameObject> {
        self.survivors_upto(self.objects.len())
    }
}

impl Pass {
    proof fn lemma_set(self, j: int, object: GameObject)
        requires
            self.wf(),
            object.wf(),
            0 <= j < self.objects.len(),
        ensures
            (Pass { objects: self.objects.update(j, object), ..self }).wf(),
    {
        let after = Pass { objects: self.objects.update(j, object), ..self };
        assert forall|i: int| 0 <= i < after.objects.len() implies (#[trigger] after.objects[i]).wf() by {
            if i != j {
                assert(self.objects[i].wf());
            }
        }
        assert forall|k: int| 0 <= k < after.pending.len() implies (#[trigger] after.pending[k]).wf() by {
            assert(self.pending[k].wf());
        }
    }

    proof fn lemma_mark(self, j: int, gone: bool)
        requires
            self.wf(),
            0 <= j < self.objects.len(),
        ensures
            (Pass { gone: self.gone.update(j, gone), ..self }).wf(),
    {
        let after = Pass { gone: self.gone.update(j, gone), ..self };
        assert forall|i: int| 0 <= i < after.objects.len() implies (#[trigger] after.objects[i]).wf() by {
            assert(self.objects[i].wf());
        }
        assert forall|k: int| 0 <= k < after.pending.len() implies (#[trigger] after.pending[k]).wf() by {
            assert(self.pending[k].wf());
        }
    }

    proof fn lemma_push(self, item: Pending)
        requires
            self.wf(),
            item.wf(),
        ensures
            (Pass { pending: self.pending.push(item), ..self }).wf(),
    {
        let after = Pass { pending: self.pending.push(item), ..self };
        assert forall|i: int| 0 <= i < after.objects.len() implies (#[trigger] after.objects[i]).wf() by {
            assert(self.objects[i].wf());
        }
        assert forall|k: int| 0 <= k < after.pending.len() implies (#[trigger] after.pending[k]).wf() by {
            if k < self.pending.len() {
                assert(self.pending[k].wf());
            }
        }
    }

    proof fn lemma_grow(self, now: u64)
        requires
            self.wf(),
        ensures
            self.grow(now).wf(),
            self.grow(now).objects.len() == self.objects.len(),
    {
        lemma_first_paddle(self, 0);
        match self.first_paddle() {
            Some(j) => match self.objects[j] {
                GameObject::Palka(palka) => {
                    assert(self.objects[j].wf());
                    self.lemma_set(j, GameObject::Palka(palka.grown()));
                    self.with_paddle(j, palka.grown()).lemma_push(
                        Pending::Spawn(GameObject::Watcher(Watcher { start: now, destroy: false })),
                    );
                },
                _ => {},
            },
            None => {},
        }
    }

    proof fn lemma_watcher_turn(self, frame: Frame, i: int, watcher: Watcher)
        requires
            self.wf(),
            0 <= i < self.objects.len(),
        ensures
            self.watcher_turn(frame, i, watcher).wf(),
            self.watcher_turn(frame, i, watcher).objects.len() == self.objects.len(),
    {
        lemma_first_paddle(self, 0);
        if watcher.spec_expired(frame.now) {
            match self.first_paddle() {
                Some(j) => match self.objects[j] {
                    GameObject::Palka(palka) => {
                        assert(self.objects[j].wf());
                        self.lemma_set(j, GameObject::Palka(palka.shrunk()));
                        let shrunk = self.with_paddle(j, palka.shrunk());
                        shrunk.lemma_set(i, GameObject::Watcher(Watcher { destroy: true, ..watcher }));
                        (Pass {
                            objects: shrunk.objects.update(
                                i,
                                GameObject::Watcher(Watcher { destroy: true, ..watcher }),
                            ),
                            ..shrunk
                        }).lemma_mark(i, true);
                    },
                    _ => {},
                },
                None => {},
            }
        }
    }

    proof fn lemma_activate(self, frame: Frame, bonus: Bonus)
        requires
            self.wf(),
            frame.wf(),
        ensures
            self.activate(frame, bonus).wf(),
            self.activate(frame, bonus).objects.len() == self.objects.len(),
    {
        match bonus {
            Bonus::NewBall => {
                self.lemma_push(Pending::Spawn(GameObject::Ball(frame.new_ball())));
            },
            Bonus::Grow => {
                self.lemma_grow(frame.now);
            },
        }
    }

    proof fn lemma_collect_one(self, frame: Frame, paddle: Rect, j: int)
        requires
            self.wf(),
            frame.wf(),
            0 <= j < self.objects.len(),
        ensures
            self.collect_one(frame, paddle, j).wf(),
            self.collect_one(frame, paddle, j).objects.len() == self.objects.len(),
    {
        if self.collects(paddle, j) {
            match self.objects[j].spec_is_bonus() {
                Some(bonus) => {
                    self.lemma_mark(j, true);
                    (Pass { gone: self.gone.update(j, true), ..self }).lemma_activate(frame, bonus);
                },
                None => {},
            }
        }
    }

    proof fn lemma_collect_upto(self, frame: Frame, paddle: Rect, n: nat)
        requires
            self.wf(),
            frame.wf(),
            n <= self.objects.len(),
        ensures
            self.collect_upto(frame, paddle, n).wf(),
            self.collect_upto(frame, paddle, n).objects.len() == self.objects.len(),
        decreases n,
    {
        if n > 0 {
            self.lemma_collect_upto(frame, paddle, (n - 1) as nat);
            self.collect_upto(frame, paddle, (n - 1) as nat).lemma_collect_one(frame, paddle, n - 1);
        }
    }

    proof fn lemma_note_one(self, hit: Hit)
        requires
            self.wf(),
            hit.index < self.objects.len(),
        ensures
            self.note_one(hit).wf(),
            self.note_one(hit).objects == self.objects,
    {
        if hit.kind is Block {
            assert(self.objects[hit.index as int].wf());
            self.lemma_mark(hit.index as int, true);
            (Pass { gone: self.gone.update(hit.index as int, true), ..self }).lemma_push(
                Pending::Drop(self.objects[hit.index as int].spec_to_rect()),
            );
        }
    }

    proof fn lemma_note_upto(self, hits: Seq<Hit>, n: nat)
        requires
            self.wf(),
            n <= hits.len(),
            forall|k: int| 0 <= k < hits.len() ==> (#[trigger] hits[k]).index < self.objects.len(),
        ensures
            self.note_upto(hits, n).wf(),
            self.note_upto(hits, n).objects == self.objects,
        decreases n,
    {
        if n > 0 {
            self.lemma_note_upto(hits, (n - 1) as nat);
            self.note_upto(hits, (n - 1) as nat).lemma_note_one(hits[n - 1]);
        }
    }

    proof fn lemma_obstacles(self, i: int)
        requires
            self.wf(),
        ensures
            obstacles_wf(self.obstacles(i)),
            self.obstacles(i).len() == self.objects.len(),
    {
        assert forall|j: int| 0 <= j < self.obstacles(i).len() implies (#[trigger] self.obstacles(
            i,
        )[j]).rect.wf() by {
            assert(self.objects[j].wf());
        }
    }

    proof fn lemma_ball_turn(self, frame: Frame, i: int, ball: Ball)
        requires
            self.wf(),
            frame.wf(),
            0 <= i < self.objects.len(),
            self.objects.len() <= usize::MAX,
            ball.wf(),
        ensures
            self.ball_turn(frame, i, ball).wf(),
            self.ball_turn(frame, i, ball).objects.len() == self.objects.len(),
    {
        let start = Motion { ball, obstacles: self.obstacles(i), hits: Seq::empty(), stopped: false };
        self.lemma_obstacles(i);
        lemma_run(frame.width as int, frame.cone, start, steps(ball.speed));
        let end = run_spec(frame.width as int, frame.cone, start, steps(ball.speed));
        self.lemma_note_upto(end.hits, end.hits.len());
        let noted = self.note_upto(end.hits, end.hits.len());
        noted.lemma_set(i, GameObject::Ball(end.ball));
        (Pass { objects: noted.objects.update(i, GameObject::Ball(end.ball)), ..noted }).lemma_mark(
            i,
            end.ball.circle.spec_to_rect().spec_bottom() > frame.height - 1,
        );
    }

    proof fn lemma_paddle_turn(self, frame: Frame, i: int, palka: Palka)
        requires
            self.wf(),
            frame.wf(),
            0 <= i < self.objects.len(),
            palka.pos.wf(),
        ensures
            self.paddle_turn(frame, i, palka).wf(),
            self.paddle_turn(frame, i, palka).objects.len() == self.objects.len(),
    {
        let moved = palka.moved(frame.left, frame.right, frame.width);
        self.lemma_set(i, GameObject::Palka(moved));
        self.with_paddle(i, moved).lemma_collect_upto(frame, moved.pos, self.objects.len());
    }

    proof fn lemma_turn(self, frame: Frame, i: int)
        requires
            self.wf(),
            frame.wf(),
            0 <= i < self.objects.len(),
            self.objects.len() <= usize::MAX,
        ensures
            self.turn(frame, i).wf(),
            self.turn(frame, i).objects.len() == self.objects.len(),
    {
        assert(self.objects[i].wf());
        if !self.gone[i] {
            match self.objects[i] {
                GameObject::Block(_) => {},
                GameObject::Ball(ball) => {
                    self.lemma_ball_turn(frame, i, ball);
                },
                GameObject::Palka(palka) => {
                    self.lemma_paddle_turn(frame, i, palka);
                },
                GameObject::NewBallBonus(_) => {
                    self.lemma_bonus_turn(i);
                },
                GameObject::GrowBonus(_) => {
                    self.lemma_bonus_turn(i);
                },
                GameObject::Watcher(watcher) => {
                    self.lemma_watcher_turn(frame, i, watcher);
                },
            }
        }
    }

    /// The turns keep the pass well-formed and neither add nor remove
    /// objects.
    pub proof fn lemma_turns_upto(self, frame: Frame, n: nat)
        requires
            self.wf(),
            frame.wf(),
            n <= self.objects.len(),
            self.objects.len() <= usize::MAX,
        ensures
            self.turns_upto(frame, n).wf(),
            self.turns_upto(frame, n).objects.len() == self.objects.len(),
        decreases n,
    {
        if n > 0 {
            self.lemma_turns_upto(frame, (n - 1) as nat);
            self.turns_upto(frame, (n - 1) as nat).lemma_turn(frame, n - 1);
        }
    }

    /// Every survivor is a well-formed object.
    pub proof fn lemma_survivors(self, n: nat)
        requires
            self.wf(),
            n <= self.objects.len(),
        ensures
            forall|k: int|
                0 <= k < self.survivors_upto(n).len() ==> (#[trigger] self.survivors_upto(n)[k]).wf(),
            self.survivors_upto(n).len() <= n,
        decreases n,
    {
        if n > 0 {
            self.lemma_survivors((n - 1) as nat);
            assert(self.objects[n - 1].wf());
        }
    }

    proof fn lemma_bonus_turn(self, i: int)
        requires
            self.wf(),
            0 <= i < self.objects.len(),
        ensures
            self.bonus_turn(i).wf(),
            self.bonus_turn(i).objects.len() == self.objects.len(),
    {
        assert(self.objects[i].wf());
        match self.objects[i] {
            GameObject::NewBallBonus(bonus) => {
                self.lemma_set(i, GameObject::NewBallBonus(NewBallBonus { pos: fallen(bonus.pos) }));
            },
            GameObject::GrowBonus(bonus) => {
                self.lemma_set(i, GameObject::GrowBonus(GrowBonus { pos: fallen(bonus.pos) }));
            },
            _ => {},
        }
    }
}

impl Pass {
    proof fn lemma_grow_keeps_blocks(self, now: u64)
        requires
            self.wf(),
        ensures
            self.grow(now).keeps_blocks(self),
    {
        lemma_first_paddle(self, 0);
    }

    proof fn lemma_activate_keeps_blocks(self, frame: Frame, bonus: Bonus)
        requires
            self.wf(),
        ensures
            self.activate(frame, bonus).keeps_blocks(self),
    {
        self.lemma_grow_keeps_blocks(frame.now);
    }

    proof fn lemma_collect_keeps_blocks(self, frame: Frame, paddle: Rect, n: nat)
        requires
            self.wf(),
            frame.wf(),
            n <= self.objects.len(),
        ensures
            self.collect_upto(frame, paddle, n).keeps_blocks(self),
        decreases n,
    {
        if n > 0 {
            let before = self.collect_upto(frame, paddle, (n - 1) as nat);
            self.lemma_collect_keeps_blocks(frame, paddle, (n - 1) as nat);
            self.lemma_collect_upto(frame, paddle, (n - 1) as nat);
            if before.collects(paddle, n - 1) {
                match before.objects[n - 1].spec_is_bonus() {
                    Some(bonus) => {
                        let marked = Pass { gone: before.gone.update(n - 1, true), ..before };
                        before.lemma_mark(n - 1, true);
                        marked.lemma_activate_keeps_blocks(frame, bonus);
                        assert(marked.keeps_blocks(before));
                    },
                    None => {},
                }
            }
        }
    }

    proof fn lemma_note_keeps_blocks(self, hits: Seq<Hit>, n: nat)
        requires
            n <= hits.len(),
        ensures
            self.note_upto(hits, n).keeps_blocks(self),
            self.note_upto(hits, n).objects == self.objects,
        decreases n,
    {
        if n > 0 {
            self.lemma_note_keeps_blocks(hits, (n - 1) as nat);
        }
    }

    proof fn lemma_turn_keeps_blocks(self, frame: Frame, i: int)
        requires
            self.wf(),
            frame.wf(),
            0 <= i < self.objects.len(),
        ensures
            self.turn(frame, i).keeps_blocks(self),
    {
        if !self.gone[i] {
            match self.objects[i] {
                GameObject::Block(_) => {},
                GameObject::Ball(ball) => {
                    let start = Motion {
                        ball,
                        obstacles: self.obstacles(i),
                        hits: Seq::empty(),
                        stopped: false,
                    };
                    let end = run_spec(frame.width as int, frame.cone, start, steps(ball.speed));
                    self.lemma_note_keeps_blocks(end.hits, end.hits.len());
                },
                GameObject::Palka(palka) => {
                    let moved = palka.moved(frame.left, frame.right, frame.width);
                    assert(self.objects[i].wf());
                    self.lemma_set(i, GameObject::Palka(moved));
                    self.with_paddle(i, moved).lemma_collect_keeps_blocks(
                        frame,
                        moved.pos,
                        self.objects.len(),
                    );
                    assert(self.with_paddle(i, moved).keeps_blocks(self));
                },
                GameObject::NewBallBonus(_) => {},
                GameObject::GrowBonus(_) => {},
                GameObject::Watcher(watcher) => {
                    lemma_first_paddle(self, 0);
                },
            }
        }
    }

    /// The turns leave every block a block and make nothing else one, and
    /// nothing that they leave pending is a block.
    pub proof fn lemma_turns_keep_blocks(self, frame: Frame, n: nat)
        requires
            self.wf(),
            frame.wf(),
            n <= self.objects.len(),
            self.objects.len() <= usize::MAX,
        ensures
            self.turns_upto(frame, n).keeps_blocks(self),
        decreases n,
    {
        if n > 0 {
            self.lemma_turns_keep_blocks(frame, (n - 1) as nat);
            self.lemma_turns_upto(frame, (n - 1) as nat);
            self.turns_upto(frame, (n - 1) as nat).lemma_turn_keeps_blocks(frame, n - 1);
        }
    }
}

/// The pass at the start of a tick: the scene's objects, none gone, nothing
/// pending.
pub open spec fn opening(objects: Seq<GameObject>) -> Pass {
    Pass { objects, gone: Seq::new(objects.len(), |i: int| false), pending: Seq::empty() }
}

/// The pass at the end of a tick's turns.
pub open spec fn closing(objects: Seq<GameObject>, frame: Frame) -> Pass {
    opening(objects).turns_upto(frame, objects.len())
}

/// The state of a tick while the turns last, as the machine holds it.
struct Work {
    objects: Vec<GameObject>,
    gone: Vec<bool>,
    pending: Vec<Pending>,
}

impl View for Work {
    type V = Pass;

    closed spec fn view(&self) -> Pass {
        Pass { objects: self.objects@, gone: self.gone@, pending: self.pending@ }
    }
}

proof fn lemma_first_paddle(pass: Pass, j: int)
    requires
        0 <= j,
    ensures
        match pass.first_paddle_from(j) {
            Some(k) => j <= k < pass.objects.len() && pass.is_paddle(k),
            None => true,
        },
    decreases pass.objects.len() - j,
{
    if j < pass.objects.len() && !pass.is_paddle(j) {
        lemma_first_paddle(pass, j + 1);
    }
}

fn first_paddle(work: &Work) -> (found: Option<usize>)
    requires
        work@.wf(),
    ensures
        match found {
            Some(j) => work@.first_paddle() == Some(j as int) && j < work.objects.len()
                && work@.is_paddle(j as int),
            None => work@.first_paddle() is None,
        },
{
    let n: usize = work.objects.len();
    let mut j: usize = 0;
    while j < n
        invariant
            j <= n,
            n == work.objects.len(),
            work@.wf(),
            work@.first_paddle() == work@.first_paddle_from(j as int),
        decreases n - j,
    {
        if !work.gone[j] {
            if let GameObject::Palka(_) = work.objects[j] {
                return Some(j);
            }
        }
        j += 1;
    }
    None
}

fn grow(work: &mut Work, now: u64)
    requires
        old(work)@.wf(),
    ensures
        final(work)@ == old(work)@.grow(now),
        final(work)@.wf(),
        final(work).objects.len() == old(work).objects.len(),
{
    proof {
        work@.lemma_grow(now);
    }
    if let Some(j) = first_paddle(work) {
        if let GameObject::Palka(mut palka) = work.objects[j] {
            palka.grow();
            work.objects.set(j, GameObject::Palka(palka));
            work.pending.push(Pending::Spawn(GameObject::Watcher(Watcher::new(now))));
        }
    }
}

fn watcher_turn(work: &mut Work, frame: &Frame, i: usize, watcher: Watcher)
    requires
        old(work)@.wf(),
        i < old(work).objects.len(),
    ensures
        final(work)@ == old(work)@.watcher_turn(*frame, i as int, watcher),
        final(work)@.wf(),
        final(work).objects.len() == old(work).objects.len(),
{
    proof {
        work@.lemma_watcher_turn(*frame, i as int, watcher);
    }
    if watcher.expired(frame.now) {
        if let Some(j) = first_paddle(work) {
            if let GameObject::Palka(mut palka) = work.objects[j] {
                palka.shrink();
                work.objects.set(j, GameObject::Palka(palka));
                work.objects.set(i, GameObject::Watcher(Watcher { start: watcher.start, destroy: true }));
                work.gone.set(i, true);
            }
        }
    }
}

fn bonus_turn(work: &mut Work, i: usize)
    requires
        old(work)@.wf(),
        i < old(work).objects.len(),
    ensures
        final(work)@ == old(work)@.bonus_turn(i as int),
        final(work)@.wf(),
        final(work).objects.len() == old(work).objects.len(),
{
    proof {
        work@.lemma_bonus_turn(i as int);
    }
    match work.objects[i] {
        GameObject::NewBallBonus(bonus) => {
            work.objects.set(i, GameObject::NewBallBonus(NewBallBonus::new(fall(bonus.pos))));
        },
        GameObject::GrowBonus(bonus) => {
            work.objects.set(i, GameObject::GrowBonus(GrowBonus::new(fall(bonus.pos))));
        },
        _ => {},
    }
}

fn activate(work: &mut Work, frame: &Frame, bonus: Bonus)
    requires
        old(work)@.wf(),
        frame.wf(),
    ensures
        final(work)@ == old(work)@.activate(*frame, bonus),
        final(work)@.wf(),
        final(work).objects.len() == old(work).objects.len(),
{
    proof {
        work@.lemma_activate(*frame, bonus);
    }
    match bonus {
        Bonus::NewBall => {
            let ball: Ball = Ball::new(frame.width / 2, frame.height / 2, 10, 7);
            work.pending.push(Pending::Spawn(GameObject::Ball(ball)));
        },
        Bonus::Grow => {
            grow(work, frame.now);
        },
    }
}

fn collect(work: &mut Work, frame: &Frame, paddle: Rect)
    requires
        old(work)@.wf(),
        frame.wf(),
    ensures
        final(work)@ == old(work)@.collect_upto(*frame, paddle, old(work).objects.len() as nat),
        final(work)@.wf(),
        final(work).objects.len() == old(work).objects.len(),
{
    let ghost start = work@;
    let n: usize = work.objects.len();
    let mut j: usize = 0;
    while j < n
        invariant
            j <= n,
            n == work.objects.len(),
            n == start.objects.len(),
            frame.wf(),
            work@.wf(),
            work@ == start.collect_upto(*frame, paddle, j as nat),
        decreases n - j,
    {
        proof {
            work@.lemma_collect_one(*frame, paddle, j as int);
        }
        if !work.gone[j] {
            let object: GameObject = work.objects[j];
            assert(object.wf());
            if let Some(bonus) = object.is_bonus() {
                if paddle.has_intersection(object.to_rect()) {
                    proof {
                        work@.lemma_mark(j as int, true);
                    }
                    work.gone.set(j, true);
                    activate(work, frame, bonus);
                }
            }
        }
        j += 1;
    }
}

fn paddle_turn(work: &mut Work, frame: &Frame, i: usize, palka: Palka)
    requires
        old(work)@.wf(),
        frame.wf(),
        i < old(work).objects.len(),
        palka.pos.wf(),
    ensures
        final(work)@ == old(work)@.paddle_turn(*frame, i as int, palka),
        final(work)@.wf(),
        final(work).objects.len() == old(work).objects.len(),
{
    let mut palka: Palka = palka;
    palka.slide(frame.left, frame.right, frame.width);
    proof {
        work@.lemma_set(i as int, GameObject::Palka(palka));
    }
    work.objects.set(i, GameObject::Palka(palka));
    collect(work, frame, palka.pos);
}

fn obstacles(work: &Work, i: usize) -> (found: Vec<Obstacle>)
    requires
        work@.wf(),
    ensures
        found@ == work@.obstacles(i as int),
        obstacles_wf(found@),
{
    let n: usize = work.objects.len();
    let mut found: Vec<Obstacle> = Vec::new();
    let mut j: usize = 0;
    while j < n
        invariant
            j <= n,
            n == work.objects.len(),
            work@.wf(),
            found@.len() == j,
            forall|k: int| 0 <= k < j ==> found@[k] == work@.obstacle(i as int, k),
        decreases n - j,
    {
        let object: GameObject = work.objects[j];
        assert(object.wf());
        let kind: Option<Kind> = object.kind();
        found.push(
            Obstacle {
                rect: object.to_rect(),
                kind: match kind {
                    Some(kind) => kind,
                    None => Kind::Block,
                },
                live: j != i && !work.gone[j] && kind.is_some(),
            },
        );
        j += 1;
    }
    proof {
        work@.lemma_obstacles(i as int);
        assert(found@ =~= work@.obstacles(i as int));
    }
    found
}

fn note(work: &mut Work, hits: &Vec<Hit>)
    requires
        old(work)@.wf(),
        forall|k: int| 0 <= k < hits.len() ==> (#[trigger] hits[k]).index < old(work).objects.len(),
    ensures
        final(work)@ == old(work)@.note_upto(hits@, hits.len() as nat),
        final(work)@.wf(),
        final(work).objects@ == old(work).objects@,
{
    let ghost start = work@;
    let n: usize = hits.len();
    let mut k: usize = 0;
    while k < n
        invariant
            k <= n,
            n == hits.len(),
            work.objects@ == start.objects,
            start.wf(),
            forall|k: int| 0 <= k < hits.len() ==> (#[trigger] hits[k]).index < start.objects.len(),
            work@.wf(),
            work@ == start.note_upto(hits@, k as nat),
        decreases n - k,
    {
        let hit: Hit = hits[k];
        proof {
            work@.lemma_note_one(hit);
        }
        if let Kind::Block = hit.kind {
            let object: GameObject = work.objects[hit.index];
            assert(object.wf());
            proof {
                work@.lemma_mark(hit.index as int, true);
            }
            work.gone.set(hit.index, true);
            work.pending.push(Pending::Drop(object.to_rect()));
        }
        k += 1;
    }
}

fn ball_turn(work: &mut Work, frame: &Frame, i: usize, ball: Ball)
    requires
        old(work)@.wf(),
        frame.wf(),
        i < old(work).objects.len(),
        ball.wf(),
    ensures
        final(work)@ == old(work)@.ball_turn(*frame, i as int, ball),
        final(work)@.wf(),
        final(work).objects.len() == old(work).objects.len(),
{
    proof {
        work@.lemma_ball_turn(*frame, i as int, ball);
        work@.lemma_obstacles(i as int);
    }
    let mut ball: Ball = ball;
    let mut around: Vec<Obstacle> = obstacles(work, i);
    let hits: Vec<Hit> = ball.update(frame.width, frame.cone, &mut around);
    note(work, &hits);
    let alive: bool = ball.in_play(frame.height);
    proof {
        work@.lemma_set(i as int, GameObject::Ball(ball));
    }
    work.objects.set(i, GameObject::Ball(ball));
    work.gone.set(i, !alive);
}

fn turn(work: &mut Work, frame: &Frame, i: usize)
    requires
        old(work)@.wf(),
        frame.wf(),
        i < old(work).objects.len(),
    ensures
        final(work)@ == old(work)@.turn(*frame, i as int),
        final(work)@.wf(),
        final(work).objects.len() == old(work).objects.len(),
{
    if work.gone[i] {
        return ;
    }
    let object: GameObject = work.objects[i];
    assert(object.wf());
    match object {
        GameObject::Block(_) => {},
        GameObject::Ball(ball) => {
            ball_turn(work, frame, i, ball);
        },
        GameObject::Palka(palka) => {
            paddle_turn(work, frame, i, palka);
        },
        GameObject::NewBallBonus(_) => {
            bonus_turn(work, i);
        },
        GameObject::GrowBonus(_) => {
            bonus_turn(work, i);
        },
        GameObject::Watcher(watcher) => {
            watcher_turn(work, frame, i, watcher);
        },
    }
}

fn survivors(work: &Work) -> (kept: Vec<GameObject>)
    requires
        work@.wf(),
    ensures
        kept@ == work@.survivors(),
{
    let n: usize = work.objects.len();
    let mut kept: Vec<GameObject> = Vec::new();
    let mut j: usize = 0;
    while j < n
        invariant
            j <= n,
            n == work.objects.len(),
            work@.wf(),
            kept@ == work@.survivors_upto(j as nat),
        decreases n - j,
    {
        if !work.gone[j] {
            kept.push(work.objects[j]);
        }
        j += 1;
    }
    kept
}

fn open_work(objects: Vec<GameObject>) -> (work: Work)
    requires
        forall|i: int| 0 <= i < objects.len() ==> (#[trigger] objects[i]).wf(),
    ensures
        work@ == opening(objects@),
        work@.wf(),
        work.objects.len() == objects.len(),
{
    let n: usize = objects.len();
    let mut gone: Vec<bool> = Vec::new();
    let mut j: usize = 0;
    while j < n
        invariant
            j <= n,
            gone@.len() == j,
            forall|k: int| 0 <= k < j ==> !gone@[k],
        decreases n - j,
    {
        gone.push(false);
        j += 1;
    }
    assert(gone@ =~= Seq::new(objects@.len(), |i: int| false));
    Work { objects, gone, pending: Vec::new() }
}

impl Scene {
    /// What stays the same throughout a tick of this scene.
    pub open spec fn frame(self, left: bool, right: bool, now: u64) -> Frame {
        Frame { width: self.width, height: self.height, cone: self.cone, left, right, now }
    }

    /// A field within the limits, a well-formed cone, every object
    /// well-formed.
    pub open spec fn wf(self) -> bool {
        &&& self.frame(false, false, 0).wf()
        &&& (forall|i: int| 0 <= i < self.objects.len() ==> (#[trigger] self.objects[i]).wf())
    }

    /// The scene with the given field, objects and cone, if it is
    /// well-formed.
    pub fn new(width: i32, height: i32, objects: Vec<GameObject>, cone: Cone) -> (scene: Option<Scene>)
        ensures
            scene is Some <==> (Scene { width, height, objects, cone }).wf(),
            scene matches Some(s) ==> s == (Scene { width, height, objects, cone }),
    {
        let scene = Scene { width, height, objects, cone };
        if scene.valid() {
            Some(scene)
        } else {
            None
        }
    }

    /// Whether the scene is well-formed.
    pub fn valid(&self) -> (ok: bool)
        ensures
            ok == self.wf(),
    {
        if !(0 <= self.width && self.width <= MAX_FIELD && 0 <= self.height && self.height
            <= MAX_FIELD && self.cone.valid()) {
            return false;
        }
        let n: usize = self.objects.len();
        let mut i: usize = 0;
        while i < n
            invariant
                i <= n,
                n == self.objects.len(),
                forall|k: int| 0 <= k < i ==> (#[trigger] self.objects[k]).wf(),
            decreases n - i,
        {
            if !self.objects[i].valid() {
                return false;
            }
            i += 1;
        }
        true
    }

    /// Gives every object its turn, takes the gone ones off the field and
    /// returns what is pending.
    pub fn advance(&mut self, left: bool, right: bool, now: u64) -> (pending: Vec<Pending>)
        requires
            old(self).wf(),
        ensures
            final(self).width == old(self).width,
            final(self).height == old(self).height,
            final(self).cone == old(self).cone,
            final(self).objects@ == closing(
                old(self).objects@,
                old(self).frame(left, right, now),
            ).survivors(),
            pending@ == closing(old(self).objects@, old(self).frame(left, right, now)).pending,
            final(self).wf(),
            forall|k: int| 0 <= k < pending.len() ==> (#[trigger] pending[k]).wf(),
    {
        let frame = Frame {
            width: self.width,
            height: self.height,
            cone: self.cone,
            left,
            right,
            now,
        };
        let mut objects: Vec<GameObject> = Vec::new();
        std::mem::swap(&mut self.objects, &mut objects);
        let n: usize = objects.len();
        let ghost start = opening(objects@);
        let mut work: Work = open_work(objects);
        let mut i: usize = 0;
        while i < n
            invariant
                i <= n,
                n == work.objects.len(),
                n == start.objects.len(),
                frame.wf(),
                start.wf(),
                work@.wf(),
                work@ == start.turns_upto(frame, i as nat),
            decreases n - i,
        {
            turn(&mut work, &frame, i);
            i += 1;
        }
        proof {
            work@.lemma_survivors(n as nat);
        }
        self.objects = survivors(&work);
        work.pending
    }

    /// Puts on the field what comes of the pending, in order: every spawn,
    /// and for every drop the bonus that its two rolls win, if any.
    pub fn settle(&mut self, pending: &Vec<Pending>, rolls: &Vec<(u32, u32)>)
        requires
            old(self).wf(),
            rolls.len() == pending.len(),
            forall|k: int| 0 <= k < pending.len() ==> (#[trigger] pending[k]).wf(),
        ensures
            final(self).width == old(self).width,
            final(self).height == old(self).height,
            final(self).cone == old(self).cone,
            final(self).objects@ == old(self).objects@ + arrivals(pending@, rolls@),
            final(self).wf(),
    {
        let ghost start = self.objects@;
        let n: usize = pending.len();
        let mut k: usize = 0;
        while k < n
            invariant
                k <= n,
                n == pending.len(),
                n == rolls.len(),
                forall|k: int| 0 <= k < pending.len() ==> (#[trigger] pending[k]).wf(),
                self.width == old(self).width,
                self.height == old(self).height,
                self.cone == old(self).cone,
                self.wf(),
                self.objects@ == start + arrivals_upto(pending@, rolls@, k as nat),
            decreases n - k,
        {
            let item: Pending = pending[k];
            assert(item.wf());
            let ghost before = arrivals_upto(pending@, rolls@, k as nat);
            let arrived: Option<GameObject> = match item {
                Pending::Spawn(object) => Some(object),
                Pending::Drop(rect) => bonus_drop(rect, rolls[k].0, rolls[k].1),
            };
            if let Some(object) = arrived {
                self.objects.push(object);
                assert(self.objects@ =~= start + before.push(object));
            }
            k += 1;
        }
    }

    /// One tick: every object has its turn, the gone ones leave the field,
    /// and what is pending arrives, the random source deciding each drop.
    /// Whatever the source gives, the outcome is that of
    /// [`Scene::advance`] followed by [`Scene::settle`] with some rolls.
    pub fn update(&mut self, left: bool, right: bool, now: u64, rng: &mut rand::StdRng)
        requires
            old(self).wf(),
        ensures
            final(self).width == old(self).width,
            final(self).height == old(self).height,
            final(self).cone == old(self).cone,
            final(self).wf(),
            ({
                let end = closing(old(self).objects@, old(self).frame(left, right, now));
                exists|rolls: Seq<(u32, u32)>|
                    rolls.len() == end.pending.len() && final(self).objects@ == end.survivors()
                        + #[trigger] arrivals(end.pending, rolls)
            }),
    {
        let pending: Vec<Pending> = self.advance(left, right, now);
        let n: usize = pending.len();
        let mut rolls: Vec<(u32, u32)> = Vec::new();
        let mut k: usize = 0;
        while k < n
            invariant
                k <= n,
                n == pending.len(),
                rolls.len() == k,
            decreases n - k,
        {
            rolls.push(draw(&pending[k], rng));
            k += 1;
        }
        self.settle(&pending, &rolls);
    }
}

/// Whether a roll wins a drop.
fn roll_wins(roll: u32) -> (won: bool)
    ensures
        won == wins(roll),
{
    (roll % FRACTIONS) as u64 * 5 < FRACTIONS as u64
}

/// The bonus that falls where a block stood at `rect`, given two rolls of
/// 32 random bits each: none unless the first roll wins, a chance of one in
/// five; then a new-ball bonus or a grow bonus, as the second roll's
/// fraction is under a half or not.
pub fn bonus_drop(rect: Rect, first: u32, second: u32) -> (bonus: Option<GameObject>)
    ensures
        bonus == bonus_drop_spec(rect, first, second),
        rect.wf() ==> (bonus matches Some(object) ==> object.wf()),
{
    if !roll_wins(first) {
        None
    } else if (second % FRACTIONS) as u64 * 2 < FRACTIONS as u64 {
        Some(GameObject::NewBallBonus(NewBallBonus::new(rect)))
    } else {
        Some(GameObject::GrowBonus(GrowBonus::new(rect)))
    }
}

/// The rolls for one pending item: none are drawn for a spawn, one for a
/// drop, and a second one if the first wins. A roll that is not drawn
/// stands as zero; of a roll that is drawn nothing is known.
fn draw(item: &Pending, rng: &mut rand::StdRng) -> (rolls: (u32, u32))
    ensures
        *item is Spawn ==> rolls == (0u32, 0u32),
        *item is Drop && !wins(rolls.0) ==> rolls.1 == 0,
{
    match item {
        Pending::Spawn(_) => (0, 0),
        Pending::Drop(_) => {
            let first: u32 = next_roll(rng);
            if roll_wins(first) {
                (first, next_roll(rng))
            } else {
                (first, 0)
            }
        },
    }
}

/// `rand::Rng::next_u32` on a `rand::StdRng`: the next 32 bits of the
/// generator's stream. Nothing is claimed of them.
#[verifier::external_body]
fn next_roll(rng: &mut rand::StdRng) -> (roll: u32) {
    rand::Rng::next_u32(rng)
}

} // verus!
