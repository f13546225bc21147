//! One frame of the world, its stages in their fixed order: pointer input,
//! movement and culling, collisions, and the sampling of the counts.

use crate::entities::Departure;
use crate::events::{CollisionEvent, CollisionPolicy, PointerEvent};
use crate::metrics::WorldMetrics;
use crate::ring_buffer::pushed;
use crate::world::{World, WorldView};
use vstd::prelude::*;

verus! {

/// What a frame did to the population, by identifier.
pub struct FrameReport {
    /// The cells that pointer presses spawned.
    pub spawned: Vec<u64>,
    /// The cells that walked off the board and were removed, each with the
    /// place it stepped to.
    pub culled: Vec<Departure>,
    /// The seeds that were consumed.
    pub consumed: Vec<u64>,
}

impl WorldView {
    /// The world after the collision stage. Under [`CollisionPolicy::BoxOverlap`]
    /// the seeds are gone that a cell touches, one on the board or one of
    /// `departed`, and `events` are ignored. Under
    /// [`CollisionPolicy::ContactEvents`] the seeds that `events` name are gone.
    pub open spec fn resolved(
        self,
        departed: Seq<Departure>,
        events: Seq<CollisionEvent>,
    ) -> WorldView {
        match self.policy {
            CollisionPolicy::BoxOverlap => self.consumed(departed),
            CollisionPolicy::ContactEvents => self.collided(events),
        }
    }

    /// The identifiers of the seeds that the collision stage removes, oldest first.
    pub open spec fn resolved_ids(
        self,
        departed: Seq<Departure>,
        events: Seq<CollisionEvent>,
    ) -> Seq<u64> {
        match self.policy {
            CollisionPolicy::BoxOverlap => self.consumed_ids(departed),
            CollisionPolicy::ContactEvents => self.collided_ids(events),
        }
    }

    /// The world after a whole frame: the pointer events spawn cells, every
    /// cell takes its step, the collision stage sees every cell where its
    /// step took it, and the cells that stepped off the board are gone.
    pub open spec fn ticked(
        self,
        pointer_events: Seq<PointerEvent>,
        collision_events: Seq<CollisionEvent>,
    ) -> WorldView {
        let entered = self.with_pointers(pointer_events);
        entered.moved().resolved(entered.departed(), collision_events)
    }
}

impl World {
    /// Runs the collision stage under the policy of this world and returns
    /// the identifiers of the seeds that were consumed. `departed` are the
    /// cells that the movement step of this frame has removed.
    pub fn resolve(
        &mut self,
        departed: &[Departure],
        events: &[CollisionEvent],
    ) -> (consumed: Vec<u64>)
        requires
            old(self)@.wf(),
        ensures
            final(self)@.wf(),
            final(self)@ == old(self)@.resolved(departed@, events@),
            consumed@ == old(self)@.resolved_ids(departed@, events@),
    {
        match self.policy {
            CollisionPolicy::BoxOverlap => self.consume_touched_seeds(departed),
            CollisionPolicy::ContactEvents => self.resolve_collisions(events),
        }
    }

    /// Stores the current number of cells and of seeds as the newest samples of `metrics`.
    pub fn sample(&self, metrics: &mut WorldMetrics)
        ensures
            final(metrics).cells_count@ == pushed(
                old(metrics).cells_count@,
                old(metrics).cells_count.spec_capacity(),
                self@.cells.len() as usize,
            ),
            final(metrics).seeds_count@ == pushed(
                old(metrics).seeds_count@,
                old(metrics).seeds_count.spec_capacity(),
                self@.seeds.len() as usize,
            ),
            final(metrics).cells_count.spec_capacity() == old(metrics).cells_count.spec_capacity(),
            final(metrics).seeds_count.spec_capacity() == old(metrics).seeds_count.spec_capacity(),
            old(metrics).wf() ==> final(metrics).wf(),
    {
        metrics.record(self.cell_count(), self.seed_count());
    }

    /// Runs one frame: handles the pointer events, moves the cells and removes
    /// those that leave the board, resolves the collisions, and samples the
    /// counts into `metrics`.
    pub fn tick(
        &mut self,
        pointer_events: &[PointerEvent],
        collision_events: &[CollisionEvent],
        metrics: &mut WorldMetrics,
    ) -> (report: FrameReport)
        requires
            old(self)@.wf(),
        ensures
            final(self)@.wf(),
            final(self)@ == old(self)@.ticked(pointer_events@, collision_events@),
            ({
                let entered = old(self)@.with_pointers(pointer_events@);
                &&& report.spawned@.len() == entered.cells.len() - old(self)@.cells.len()
                &&& forall|k: int|
                    0 <= k < report.spawned@.len() ==> #[trigger] report.spawned@[k]
                        == entered.cells[old(self)@.cells.len() + k].id
                &&& report.culled@ == entered.departed()
                &&& report.consumed@ == entered.moved().resolved_ids(
                    entered.departed(),
                    collision_events@,
                )
            }),
            final(metrics).cells_count@ == pushed(
                old(metrics).cells_count@,
                old(metrics).cells_count.spec_capacity(),
                final(self)@.cells.len() as usize,
            ),
            final(metrics).seeds_count@ == pushed(
                old(metrics).seeds_count@,
                old(metrics).seeds_count.spec_capacity(),
                final(self)@.seeds.len() as usize,
            ),
            final(metrics).cells_count.spec_capacity() == old(metrics).cells_count.spec_capacity(),
            final(metrics).seeds_count.spec_capacity() == old(metrics).seeds_count.spec_capacity(),
            old(metrics).wf() ==> final(metrics).wf(),
    {
        let spawned = self.spawn_cells(pointer_events);
        let culled = self.move_cells();
        let consumed = self.resolve(culled.as_slice(), collision_events);
        self.sample(metrics);
        FrameReport { spawned, culled, consumed }
    }
}

} // verus!
