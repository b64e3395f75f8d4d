//! The game: a scene, the score, and the rules that end it.

use vstd::prelude::*;
use crate::objects::GameObject;
use crate::scene::{arrival, arrivals, arrivals_upto, closing, opening, Frame, Pass, Pending, Scene};

verus! {

/// A game in progress. A point is scored for every block that leaves the
/// field.
pub struct Game {
    pub scene: Scene,
    pub score: u64,
}

/// The number of blocks among the first `n` objects.
pub open spec fn blocks_upto(objects: Seq<GameObject>, n: nat) -> nat
    decreases n,
{
    if n == 0 {
        0
    } else {
        blocks_upto(objects, (n - 1) as nat) + if objects[n - 1] is Block {
            1nat
        } else {
            0nat
        }
    }
}

/// The number of blocks among the objects.
pub open spec fn block_count(objects: Seq<GameObject>) -> nat {
    blocks_upto(objects, objects.len())
}

/// Whether none of the objects is a ball.
pub open spec fn no_ball(objects: Seq<GameObject>) -> bool {
    forall|i: int| 0 <= i < objects.len() ==> !((#[trigger] objects[i]) is Ball)
}

/// Whether none of the objects is a block.
pub open spec fn no_block(objects: Seq<GameObject>) -> bool {
    forall|i: int| 0 <= i < objects.len() ==> !((#[trigger] objects[i]) is Block)
}

/// The score after `gained` more points: it stops at the greatest number
/// it can hold.
pub open spec fn raised(score: u64, gained: int) -> u64 {
    if score + gained > u64::MAX {
        u64::MAX
    } else {
        (score + gained) as u64
    }
}

proof fn lemma_blocks_alike(a: Seq<GameObject>, b: Seq<GameObject>, n: nat)
    requires
        n <= a.len(),
        n <= b.len(),
        forall|i: int| 0 <= i < n ==> ((#[trigger] a[i]) is Block <==> b[i] is Block),
    ensures
        blocks_upto(a, n) == blocks_upto(b, n),
    decreases n,
{
    if n > 0 {
        lemma_blocks_alike(a, b, (n - 1) as nat);
        assert(a[n - 1] is Block <==> b[n - 1] is Block);
    }
}

proof fn lemma_blocks_pushed(objects: Seq<GameObject>, object: GameObject)
    ensures
        block_count(objects.push(object)) == block_count(objects) + if object is Block {
            1nat
        } else {
            0nat
        },
{
    lemma_blocks_alike(objects.push(object), objects, objects.len());
}

proof fn lemma_blocks_joined(a: Seq<GameObject>, b: Seq<GameObject>, n: nat)
    requires
        n <= b.len(),
    ensures
        blocks_upto(a + b, a.len() + n) == block_count(a) + blocks_upto(b, n),
    decreases n,
{
    if n == 0 {
        lemma_blocks_alike(a + b, a, a.len());
    } else {
        lemma_blocks_joined(a, b, (n - 1) as nat);
        assert((a + b)[a.len() + n - 1] == b[n - 1]);
    }
}

proof fn lemma_survivors_blocks(pass: Pass, n: nat)
    requires
        n <= pass.objects.len(),
    ensures
        block_count(pass.survivors_upto(n)) <= blocks_upto(pass.objects, n),
    decreases n,
{
    if n > 0 {
        lemma_survivors_blocks(pass, (n - 1) as nat);
        if !pass.gone[n - 1] {
            lemma_blocks_pushed(pass.survivors_upto((n - 1) as nat), pass.objects[n - 1]);
        }
    }
}

proof fn lemma_arrivals_blocks(pending: Seq<Pending>, rolls: Seq<(u32, u32)>, n: nat)
    requires
        n <= pending.len(),
        forall|k: int|
            0 <= k < pending.len() ==> !((#[trigger] pending[k]) matches Pending::Spawn(object)
                && object is Block),
    ensures
        block_count(arrivals_upto(pending, rolls, n)) == 0,
    decreases n,
{
    if n > 0 {
        lemma_arrivals_blocks(pending, rolls, (n - 1) as nat);
        let before = arrivals_upto(pending, rolls, (n - 1) as nat);
        assert(!(pending[n - 1] matches Pending::Spawn(object) && object is Block));
        match arrival(pending[n - 1], rolls[n - 1]) {
            Some(object) => {
                lemma_blocks_pushed(before, object);
            },
            None => {},
        }
    }
}

/// A tick puts no block on the field, whatever the rolls: there are never
/// more blocks after it than before.
pub proof fn lemma_tick_adds_no_block(objects: Seq<GameObject>, frame: Frame, rolls: Seq<(u32, u32)>)
    requires
        frame.wf(),
        objects.len() <= usize::MAX,
        forall|i: int| 0 <= i < objects.len() ==> (#[trigger] objects[i]).wf(),
    ensures
        block_count(closing(objects, frame).survivors() + arrivals(closing(objects, frame).pending, rolls))
            <= block_count(objects),
{
    let start = opening(objects);
    let end = closing(objects, frame);
    start.lemma_turns_keep_blocks(frame, objects.len());
    assert(start.spawns_no_block());
    lemma_blocks_alike(end.objects, objects, objects.len());
    lemma_survivors_blocks(end, objects.len());
    lemma_arrivals_blocks(end.pending, rolls, end.pending.len());
    lemma_blocks_joined(end.survivors(), arrivals(end.pending, rolls), arrivals(end.pending, rolls).len());
}

/// No block is left exactly when the count of blocks is zero.
pub proof fn lemma_no_block_iff_none_counted(objects: Seq<GameObject>)
    ensures
        no_block(objects) <==> block_count(objects) == 0,
{
    lemma_none_counted(objects, objects.len());
}

proof fn lemma_none_counted(objects: Seq<GameObject>, n: nat)
    requires
        n <= objects.len(),
    ensures
        blocks_upto(objects, n) == 0 <==> forall|i: int|
            0 <= i < n ==> !((#[trigger] objects[i]) is Block),
    decreases n,
{
    if n > 0 {
        lemma_none_counted(objects, (n - 1) as nat);
        if blocks_upto(objects, n) == 0 {
            assert forall|i: int| 0 <= i < n implies !((#[trigger] objects[i]) is Block) by {
                if i < n - 1 {
                } else {
                    assert(!(objects[n - 1] is Block));
                }
            }
        }
    }
}

impl Scene {
    /// The number of blocks on the field.
    pub fn blocks(&self) -> (count: usize)
        ensures
            count == block_count(self.objects@),
    {
        let n: usize = self.objects.len();
        let mut count: usize = 0;
        let mut i: usize = 0;
        while i < n
            invariant
                i <= n,
                n == self.objects.len(),
                count == blocks_upto(self.objects@, i as nat),
                count <= i,
            decreases n - i,
        {
            if let GameObject::Block(_) = self.objects[i] {
                count += 1;
            }
            i += 1;
        }
        count
    }

    /// Whether no ball is left on the field.
    pub fn lose(&self) -> (lost: bool)
        ensures
            lost == no_ball(self.objects@),
    {
        let n: usize = self.objects.len();
        let mut i: usize = 0;
        while i < n
            invariant
                i <= n,
                n == self.objects.len(),
                forall|k: int| 0 <= k < i ==> !((#[trigger] self.objects[k]) is Ball),
            decreases n - i,
        {
            if let GameObject::Ball(_) = self.objects[i] {
                return false;
            }
            i += 1;
        }
        true
    }

    /// Whether no block is left on the field.
    pub fn win(&self) -> (won: bool)
        ensures
            won == no_block(self.objects@),
            won == (block_count(self.objects@) == 0),
    {
        proof {
            lemma_no_block_iff_none_counted(self.objects@);
        }
        self.blocks() == 0
    }

    /// Whether the game is over: lost or won.
    pub fn end(&self) -> (over: bool)
        ensures
            over == (no_ball(self.objects@) || no_block(self.objects@)),
    {
        self.lose() || self.win()
    }
}

impl Game {
    /// A game on the given scene, with nothing scored yet.
    pub fn new(scene: Scene) -> (game: Game)
        ensures
            game.scene == scene,
            game.score == 0,
    {
        Game { scene, score: 0 }
    }

    /// One tick of the scene, and a point for every block that left the
    /// field in it.
    pub fn update(&mut self, left: bool, right: bool, now: u64, rng: &mut rand::StdRng)
        requires
            old(self).scene.wf(),
        ensures
            final(self).scene.width == old(self).scene.width,
            final(self).scene.height == old(self).scene.height,
            final(self).scene.cone == old(self).scene.cone,
            final(self).scene.wf(),
            ({
                let end = closing(old(self).scene.objects@, old(self).scene.frame(left, right, now));
                exists|rolls: Seq<(u32, u32)>|
                    rolls.len() == end.pending.len() && final(self).scene.objects@ == end.survivors()
                        + #[trigger] arrivals(end.pending, rolls)
            }),
            block_count(final(self).scene.objects@) <= block_count(old(self).scene.objects@),
            final(self).score == raised(
                old(self).score,
                block_count(old(self).scene.objects@) - block_count(final(self).scene.objects@),
            ),
    {
        let ghost objects = self.scene.objects@;
        let ghost frame = self.scene.frame(left, right, now);
        assert(objects.len() == self.scene.objects.len());
        let before: usize = self.scene.blocks();
        self.scene.update(left, right, now, rng);
        proof {
            let end = closing(objects, frame);
            let rolls = choose|rolls: Seq<(u32, u32)>|
                rolls.len() == end.pending.len() && self.scene.objects@ == end.survivors()
                    + #[trigger] arrivals(end.pending, rolls);
            lemma_tick_adds_no_block(objects, frame, rolls);
        }
        let gained: u64 = (before - self.scene.blocks()) as u64;
        self.score = if self.score > u64::MAX - gained {
            u64::MAX
        } else {
            self.score + gained
        };
    }

    /// Whether the game is lost: no ball is left.
    pub fn lose(&self) -> (lost: bool)
        ensures
            lost == no_ball(self.scene.objects@),
    {
        self.scene.lose()
    }

    /// Whether the game is won: no block is left.
    pub fn win(&self) -> (won: bool)
        ensures
            won == no_block(self.scene.objects@),
    {
        self.scene.win()
    }

    /// Whether the game is over.
    pub fn end(&self) -> (over: bool)
        ensures
            over == (no_ball(self.scene.objects@) || no_block(self.scene.objects@)),
    {
        self.scene.end()
    }
}

} // verus!
