//! How seeds are consumed: a seed that a cell touches is removed. Contact is
//! found either by comparing the boxes of cells and seeds, or by a collision
//! engine that reports the identifiers of the entities that began to touch.
//! In both cases only seeds are removed; cells leave the world by walking
//! off the board, never by a collision.
//!
//! The comparison of boxes looks at every cell where its step of this frame
//! took it, also at a cell that stepped off the board and is being removed.

use crate::entities::{Cell, Departure, Seed, CELL_SIZE, SEED_SIZE};
use crate::events::CollisionEvent;
use crate::geometry::Point;
use crate::world::{World, WorldView};
use vstd::math::abs;
use vstd::prelude::*;

verus! {

/// The box around a cell at `(x, y)` and the box around a seed at `seed` have
/// a point in common: on each axis the centres lie no further apart than half
/// the side of the one box plus half the side of the other.
pub open spec fn spec_boxes_overlap_at(x: int, y: int, seed: Point) -> bool {
    &&& 2 * abs(x - seed.x) <= CELL_SIZE + SEED_SIZE
    &&& 2 * abs(y - seed.y) <= CELL_SIZE + SEED_SIZE
}

/// The box around a cell at `cell` and the box around a seed at `seed` have a point in common.
pub open spec fn spec_boxes_overlap(cell: Point, seed: Point) -> bool {
    spec_boxes_overlap_at(cell.x as int, cell.y as int, seed)
}

/// The box of some cell meets the box of a seed at `seed`: of a cell on the
/// board, or of one that has just stepped off it, where it stepped to.
pub open spec fn touched(cells: Seq<Cell>, departed: Seq<Departure>, seed: Point) -> bool {
    ||| exists|i: int|
        0 <= i < cells.len() && spec_boxes_overlap((#[trigger] cells[i]).position, seed)
    ||| exists|i: int|
        0 <= i < departed.len() && spec_boxes_overlap_at(
            (#[trigger] departed[i]).x as int,
            departed[i].y as int,
            seed,
        )
}

/// Holds of the seeds that no cell touches.
pub open spec fn untouched(cells: Seq<Cell>, departed: Seq<Departure>) -> spec_fn(Seed) -> bool {
    |s: Seed| !touched(cells, departed, s.position)
}

/// Maps a seed that some cell touches to its identifier, any other seed to nothing.
pub open spec fn eaten(cells: Seq<Cell>, departed: Seq<Departure>) -> spec_fn(Seed) -> Option<
    u64,
> {
    |s: Seed|
        if touched(cells, departed, s.position) {
            Some(s.id)
        } else {
            None
        }
}

/// `event` reports that the entity `id` began to touch another.
pub open spec fn names(event: CollisionEvent, id: u64) -> bool {
    match event {
        CollisionEvent::Started(a, b) => a == id || b == id,
        CollisionEvent::Stopped(_, _) => false,
    }
}

/// Some event reports that the entity `id` began to touch another.
pub open spec fn hit(events: Seq<CollisionEvent>, id: u64) -> bool {
    exists|i: int| 0 <= i < events.len() && names(#[trigger] events[i], id)
}

/// Holds of the seeds that no event names.
pub open spec fn spared(events: Seq<CollisionEvent>) -> spec_fn(Seed) -> bool {
    |s: Seed| !hit(events, s.id)
}

/// Maps a seed that some event names to its identifier, any other seed to nothing.
pub open spec fn struck(events: Seq<CollisionEvent>) -> spec_fn(Seed) -> Option<u64> {
    |s: Seed|
        if hit(events, s.id) {
            Some(s.id)
        } else {
            None
        }
}

impl WorldView {
    /// The world after every seed was consumed that a cell touches: one of
    /// the cells on the board, or one of `departed`, the cells that stepped
    /// off the board in this frame.
    pub open spec fn consumed(self, departed: Seq<Departure>) -> WorldView {
        WorldView { seeds: self.seeds.filter(untouched(self.cells, departed)), ..self }
    }

    /// The identifiers of the seeds that some cell touches, oldest first.
    pub open spec fn consumed_ids(self, departed: Seq<Departure>) -> Seq<u64> {
        self.seeds.filter_map(eaten(self.cells, departed))
    }

    /// The world after the reported collisions were resolved: every seed that
    /// an event names as having begun to touch something is gone.
    pub open spec fn collided(self, events: Seq<CollisionEvent>) -> WorldView {
        WorldView { seeds: self.seeds.filter(spared(events)), ..self }
    }

    /// The identifiers of the seeds that `events` remove, oldest first.
    pub open spec fn collided_ids(self, events: Seq<CollisionEvent>) -> Seq<u64> {
        self.seeds.filter_map(struck(events))
    }
}

/// A sequence whose every item passes a filter comes through it unchanged.
proof fn lemma_filter_keeps_all<A>(s: Seq<A>, pred: spec_fn(A) -> bool)
    requires
        forall|i: int| 0 <= i < s.len() ==> pred(#[trigger] s[i]),
    ensures
        s.filter(pred) == s,
    decreases s.len(),
{
    reveal(Seq::filter);
    if s.len() > 0 {
        lemma_filter_keeps_all(s.drop_last(), pred);
        assert(s.drop_last().push(s.last()) =~= s);
    }
}

/// Events that name no live seed change nothing: reports about cells, about
/// entities the world does not know, or about seeds already gone are ignored.
pub proof fn lemma_events_about_others_change_nothing(w: WorldView, events: Seq<CollisionEvent>)
    requires
        forall|i: int| 0 <= i < w.seeds.len() ==> !hit(events, (#[trigger] w.seeds[i]).id),
    ensures
        w.collided(events) == w,
{
    lemma_filter_keeps_all(w.seeds, spared(events));
}

/// Resolving the same events a second time removes nothing more.
pub proof fn lemma_collisions_resolve_once(w: WorldView, events: Seq<CollisionEvent>)
    ensures
        w.collided(events).collided(events) == w.collided(events),
{
    let left = w.seeds.filter(spared(events));
    assert forall|i: int| 0 <= i < left.len() implies spared(events)(#[trigger] left[i]) by {
        w.seeds.lemma_filter_pred(spared(events), i);
    }
    lemma_filter_keeps_all(left, spared(events));
}

/// After the touched seeds were consumed no cell touches a seed, so
/// consuming again removes nothing more.
pub proof fn lemma_consuming_leaves_no_touched_seed(w: WorldView, departed: Seq<Departure>)
    ensures
        forall|i: int|
            0 <= i < w.consumed(departed).seeds.len() ==> !touched(
                w.consumed(departed).cells,
                departed,
                (#[trigger] w.consumed(departed).seeds[i]).position,
            ),
        w.consumed(departed).consumed(departed) == w.consumed(departed),
{
    let left = w.seeds.filter(untouched(w.cells, departed));
    assert forall|i: int| 0 <= i < left.len() implies untouched(w.cells, departed)(
        #[trigger] left[i],
    ) by {
        w.seeds.lemma_filter_pred(untouched(w.cells, departed), i);
    }
    lemma_filter_keeps_all(left, untouched(w.cells, departed));
}

/// Whether the box around a cell at `(x, y)` meets the box around a seed at `seed`.
pub fn boxes_overlap_at(x: i64, y: i64, seed: Point) -> (r: bool)
    ensures
        r == spec_boxes_overlap_at(x as int, y as int, seed),
{
    let dx: i128 = x as i128 - seed.x as i128;
    let dy: i128 = y as i128 - seed.y as i128;
    let reach: i128 = CELL_SIZE as i128 + SEED_SIZE as i128;
    -reach <= 2 * dx && 2 * dx <= reach && -reach <= 2 * dy && 2 * dy <= reach
}

/// Whether the box around a cell at `cell` meets the box around a seed at `seed`.
pub fn boxes_overlap(cell: Point, seed: Point) -> (r: bool)
    ensures
        r == spec_boxes_overlap(cell, seed),
{
    boxes_overlap_at(cell.x as i64, cell.y as i64, seed)
}

/// Whether some of `cells`, or some of `departed` where it stepped to, touches a seed at `seed`.
pub fn is_touched(cells: &[Cell], departed: &[Departure], seed: Point) -> (r: bool)
    ensures
        r == touched(cells@, departed@, seed),
{
    let mut i: usize = 0;
    while i < cells.len()
        invariant
            0 <= i <= cells.len(),
            forall|k: int| 0 <= k < i ==> !spec_boxes_overlap((#[trigger] cells@[k]).position, seed),
        decreases cells.len() - i,
    {
        if boxes_overlap(cells[i].position, seed) {
            return true;
        }
        i += 1;
    }
    let mut j: usize = 0;
    while j < departed.len()
        invariant
            0 <= j <= departed.len(),
            forall|k: int|
                0 <= k < cells@.len() ==> !spec_boxes_overlap((#[trigger] cells@[k]).position, seed),
            forall|k: int|
                0 <= k < j ==> !spec_boxes_overlap_at(
                    (#[trigger] departed@[k]).x as int,
                    departed@[k].y as int,
                    seed,
                ),
        decreases departed.len() - j,
    {
        if boxes_overlap_at(departed[j].x, departed[j].y, seed) {
            return true;
        }
        j += 1;
    }
    false
}

/// Whether some of `events` reports that the entity `id` began to touch another.
pub fn is_hit(events: &[CollisionEvent], id: u64) -> (r: bool)
    ensures
        r == hit(events@, id),
{
    let mut i: usize = 0;
    while i < events.len()
        invariant
            0 <= i <= events.len(),
            forall|k: int| 0 <= k < i ==> !names(#[trigger] events@[k], id),
        decreases events.len() - i,
    {
        let named = match events[i] {
            CollisionEvent::Started(a, b) => a == id || b == id,
            CollisionEvent::Stopped(_, _) => false,
        };
        if named {
            return true;
        }
        i += 1;
    }
    false
}

impl World {
    /// Removes every seed whose box meets the box of some cell, on the board
    /// or among `departed`, and returns the identifiers of the removed seeds.
    pub fn consume_touched_seeds(&mut self, departed: &[Departure]) -> (consumed: Vec<u64>)
        requires
            old(self)@.wf(),
        ensures
            final(self)@.wf(),
            final(self)@ == old(self)@.consumed(departed@),
            final(self)@.cells == old(self)@.cells,
            consumed@ == old(self)@.consumed_ids(departed@),
    {
        let mut kept: Vec<Seed> = Vec::new();
        let mut consumed: Vec<u64> = Vec::new();
        let ghost cells = self.cells@;
        let ghost seeds = self.seeds@;
        let ghost next_id = self.next_id;
        let mut i: usize = 0;
        while i < self.seeds.len()
            invariant
                0 <= i <= self.seeds.len(),
                self.cells@ == cells,
                self.seeds@ == seeds,
                old(self)@.wf(),
                old(self)@.cells == cells,
                old(self)@.seeds == seeds,
                old(self)@.next_id == next_id,
                kept@ == seeds.take(i as int).filter(untouched(cells, departed@)),
                consumed@ == seeds.take(i as int).filter_map(eaten(cells, departed@)),
                forall|k: int| 0 <= k < kept@.len() ==> (#[trigger] kept@[k]).id < next_id,
                forall|k: int, m: int|
                    0 <= k < kept@.len() && i <= m < seeds.len() ==> (#[trigger] kept@[k]).id < (
                    #[trigger] seeds[m]).id,
                forall|a: int, b: int|
                    0 <= a < b < kept@.len() ==> (#[trigger] kept@[a]).id < (#[trigger] kept@[b]).id,
                forall|k: int, j: int|
                    0 <= k < kept@.len() && 0 <= j < cells.len() ==> (#[trigger] kept@[k]).id != (
                    #[trigger] cells[j]).id,
            decreases self.seeds.len() - i,
        {
            let seed = self.seeds[i];
            proof {
                assert(seeds.take(i + 1) =~= seeds.take(i as int).push(seed));
                seeds.take(i as int).lemma_filter_push(seed, untouched(cells, departed@));
                seeds.lemma_filter_map_take_succ(eaten(cells, departed@), i as int);
            }
            if is_touched(self.cells.as_slice(), departed, seed.position) {
                consumed.push(seed.id);
            } else {
                kept.push(seed);
            }
            i += 1;
        }
        proof {
            assert(seeds.take(seeds.len() as int) =~= seeds);
        }
        self.seeds = kept;
        consumed
    }

    /// Resolves the collisions that an engine reported: every live seed that
    /// an event names as having begun to touch something is removed. Cells
    /// stay, as do identifiers that name nothing alive. Returns the
    /// identifiers of the removed seeds.
    pub fn resolve_collisions(&mut self, events: &[CollisionEvent]) -> (destroyed: Vec<u64>)
        requires
            old(self)@.wf(),
        ensures
            final(self)@.wf(),
            final(self)@ == old(self)@.collided(events@),
            final(self)@.cells == old(self)@.cells,
            destroyed@ == old(self)@.collided_ids(events@),
    {
        let mut kept: Vec<Seed> = Vec::new();
        let mut destroyed: Vec<u64> = Vec::new();
        let ghost cells = self.cells@;
        let ghost seeds = self.seeds@;
        let ghost next_id = self.next_id;
        let mut i: usize = 0;
        while i < self.seeds.len()
            invariant
                0 <= i <= self.seeds.len(),
                self.cells@ == cells,
                self.seeds@ == seeds,
                old(self)@.wf(),
                old(self)@.cells == cells,
                old(self)@.seeds == seeds,
                old(self)@.next_id == next_id,
                kept@ == seeds.take(i as int).filter(spared(events@)),
                destroyed@ == seeds.take(i as int).filter_map(struck(events@)),
                forall|k: int| 0 <= k < kept@.len() ==> (#[trigger] kept@[k]).id < next_id,
                forall|k: int, m: int|
                    0 <= k < kept@.len() && i <= m < seeds.len() ==> (#[trigger] kept@[k]).id < (
                    #[trigger] seeds[m]).id,
                forall|a: int, b: int|
                    0 <= a < b < kept@.len() ==> (#[trigger] kept@[a]).id < (#[trigger] kept@[b]).id,
                forall|k: int, j: int|
                    0 <= k < kept@.len() && 0 <= j < cells.len() ==> (#[trigger] kept@[k]).id != (
                    #[trigger] cells[j]).id,
            decreases self.seeds.len() - i,
        {
            let seed = self.seeds[i];
            proof {
                assert(seeds.take(i + 1) =~= seeds.take(i as int).push(seed));
                seeds.take(i as int).lemma_filter_push(seed, spared(events@));
                seeds.lemma_filter_map_take_succ(struck(events@), i as int);
            }
            if is_hit(events, seed.id) {
                destroyed.push(seed.id);
            } else {
                kept.push(seed);
            }
            i += 1;
        }
        proof {
            assert(seeds.take(seeds.len() as int) =~= seeds);
        }
        self.seeds = kept;
        destroyed
    }
}

} // verus!
