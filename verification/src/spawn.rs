//! How particles enter the world: cells where the pointer is pressed on the
//! board, seeds in a jittered grid over the board.

use crate::entities::{Cell, Seed};
use crate::events::{ButtonState, PointerEvent};
use crate::geometry::Point;
use crate::seeds::{seed_field, spec_seed_slots};
use crate::world::{World, WorldView};
use vstd::prelude::*;

verus! {

impl WorldView {
    /// An identifier is left for one more particle.
    pub open spec fn has_free_id(self) -> bool {
        self.next_id < u64::MAX
    }

    /// A cell may be spawned at `position`: it lies on the board and an identifier is left.
    pub open spec fn admits_cell(self, position: Point) -> bool {
        self.rect.spec_contains(position) && self.has_free_id()
    }

    /// The world after an attempt to spawn a cell at `position`.
    pub open spec fn with_cell(self, position: Point) -> WorldView {
        if self.admits_cell(position) {
            WorldView {
                cells: self.cells.push(Cell { id: self.next_id, position }),
                next_id: (self.next_id + 1) as u64,
                ..self
            }
        } else {
            self
        }
    }

    /// The position at which `event` asks for a cell: only a press that maps
    /// onto the board plane asks for one.
    pub open spec fn requested_position(event: PointerEvent) -> Option<Point> {
        match event.state {
            ButtonState::Pressed => event.world_position,
            ButtonState::Released => None,
        }
    }

    /// The world after `event` was handled.
    pub open spec fn with_pointer(self, event: PointerEvent) -> WorldView {
        match Self::requested_position(event) {
            Some(position) => self.with_cell(position),
            None => self,
        }
    }

    /// The world after `events` were handled in order.
    pub open spec fn with_pointers(self, events: Seq<PointerEvent>) -> WorldView
        decreases events.len(),
    {
        if events.len() == 0 {
            self
        } else {
            self.with_pointers(events.drop_last()).with_pointer(events.last())
        }
    }

    /// The world after an attempt to add a seed at `position`.
    pub open spec fn with_seed(self, position: Point) -> WorldView {
        if self.has_free_id() {
            WorldView {
                seeds: self.seeds.push(Seed { id: self.next_id, position }),
                next_id: (self.next_id + 1) as u64,
                ..self
            }
        } else {
            self
        }
    }

    /// The world after attempts to add a seed at each of `positions`, in order.
    pub open spec fn with_seeds(self, positions: Seq<Point>) -> WorldView
        decreases positions.len(),
    {
        if positions.len() == 0 {
            self
        } else {
            self.with_seeds(positions.drop_last()).with_seed(positions.last())
        }
    }
}

impl World {
    /// Spawns a cell at `position` if that lies on the board, and returns its identifier.
    pub fn spawn_cell(&mut self, position: Point) -> (id: Option<u64>)
        requires
            old(self)@.wf(),
        ensures
            final(self)@.wf(),
            final(self)@ == old(self)@.with_cell(position),
            id == if old(self)@.admits_cell(position) {
                Some(old(self)@.next_id)
            } else {
                None
            },
    {
        if self.board.rect().contains(position) && self.next_id < u64::MAX {
            let id = self.next_id;
            self.cells.push(Cell { id, position });
            self.next_id = id + 1;
            Some(id)
        } else {
            None
        }
    }

    /// Handles one pointer event: a press over a board position spawns a cell
    /// there, anything else changes nothing.
    pub fn handle_pointer(&mut self, event: &PointerEvent) -> (id: Option<u64>)
        requires
            old(self)@.wf(),
        ensures
            final(self)@.wf(),
            final(self)@ == old(self)@.with_pointer(*event),
            id == match WorldView::requested_position(*event) {
                Some(position) => if old(self)@.admits_cell(position) {
                    Some(old(self)@.next_id)
                } else {
                    None
                },
                None => None,
            },
            id is Some <==> final(self)@.cells.len() == old(self)@.cells.len() + 1,
    {
        match event.state {
            ButtonState::Pressed => match event.world_position {
                Some(position) => self.spawn_cell(position),
                None => None,
            },
            ButtonState::Released => None,
        }
    }

    /// Handles the pointer events of a frame in order and returns the
    /// identifiers of the cells that were spawned.
    pub fn spawn_cells(&mut self, events: &[PointerEvent]) -> (spawned: Vec<u64>)
        requires
            old(self)@.wf(),
        ensures
            final(self)@.wf(),
            final(self)@ == old(self)@.with_pointers(events@),
            spawned@.len() == final(self)@.cells.len() - old(self)@.cells.len(),
            forall|k: int|
                0 <= k < spawned@.len() ==> #[trigger] spawned@[k] == final(self)@.cells[old(
                    self,
                )@.cells.len() + k].id,
    {
        let mut spawned: Vec<u64> = Vec::new();
        let ghost start = self@;
        let mut i: usize = 0;
        while i < events.len()
            invariant
                0 <= i <= events.len(),
                self@.wf(),
                self@ == start.with_pointers(events@.take(i as int)),
                self@.cells.len() == start.cells.len() + spawned@.len(),
                forall|k: int|
                    0 <= k < spawned@.len() ==> #[trigger] spawned@[k] == self@.cells[start.cells.len()
                        + k].id,
            decreases events.len() - i,
        {
            proof {
                assert(events@.take(i + 1).drop_last() =~= events@.take(i as int));
            }
            let ghost before = self@;
            match self.handle_pointer(&events[i]) {
                Some(id) => {
                    proof {
                        assert(self@.cells == before.cells.push(self@.cells.last()));
                    }
                    spawned.push(id);
                },
                None => {},
            }
            i += 1;
        }
        proof {
            assert(events@.take(events@.len() as int) =~= events@);
        }
        spawned
    }

    /// Adds a seed at `position` and returns its identifier.
    pub fn add_seed(&mut self, position: Point) -> (id: Option<u64>)
        requires
            old(self)@.wf(),
        ensures
            final(self)@.wf(),
            final(self)@ == old(self)@.with_seed(position),
            id == if old(self)@.has_free_id() {
                Some(old(self)@.next_id)
            } else {
                None
            },
    {
        if self.next_id < u64::MAX {
            let id = self.next_id;
            self.seeds.push(Seed { id, position });
            self.next_id = id + 1;
            Some(id)
        } else {
            None
        }
    }

    /// Adds a seed at each of `positions`, in order, and returns the
    /// identifiers of the seeds that were added.
    pub fn add_seeds(&mut self, positions: &[Point]) -> (added: Vec<u64>)
        requires
            old(self)@.wf(),
        ensures
            final(self)@.wf(),
            final(self)@ == old(self)@.with_seeds(positions@),
            added@.len() == final(self)@.seeds.len() - old(self)@.seeds.len(),
            forall|k: int|
                0 <= k < added@.len() ==> #[trigger] added@[k] == final(self)@.seeds[old(
                    self,
                )@.seeds.len() + k].id,
    {
        let mut added: Vec<u64> = Vec::new();
        let ghost start = self@;
        let mut i: usize = 0;
        while i < positions.len()
            invariant
                0 <= i <= positions.len(),
                self@.wf(),
                self@ == start.with_seeds(positions@.take(i as int)),
                self@.seeds.len() == start.seeds.len() + added@.len(),
                forall|k: int|
                    0 <= k < added@.len() ==> #[trigger] added@[k] == self@.seeds[start.seeds.len()
                        + k].id,
            decreases positions.len() - i,
        {
            proof {
                assert(positions@.take(i + 1).drop_last() =~= positions@.take(i as int));
            }
            match self.add_seed(positions[i]) {
                Some(id) => {
                    added.push(id);
                },
                None => {},
            }
            i += 1;
        }
        proof {
            assert(positions@.take(positions@.len() as int) =~= positions@);
        }
        added
    }

    /// Scatters a fresh seed field over the board: one seed at a random place
    /// in every slot of the grid, as far as identifiers are left.
    pub fn spawn_seeds(&mut self) -> (added: Vec<u64>)
        requires
            old(self)@.wf(),
        ensures
            final(self)@.wf(),
            final(self)@.rect == old(self)@.rect,
            final(self)@.policy == old(self)@.policy,
            final(self)@.cells == old(self)@.cells,
            final(self)@.next_id == old(self)@.next_id + added@.len(),
            final(self)@.seeds.len() == old(self)@.seeds.len() + added@.len(),
            final(self)@.seeds.take(old(self)@.seeds.len() as int) == old(self)@.seeds,
            added@.len() == if spec_seed_slots(old(self)@.rect).len() <= u64::MAX - old(
                self,
            )@.next_id {
                spec_seed_slots(old(self)@.rect).len() as int
            } else {
                u64::MAX - old(self)@.next_id
            },
            forall|k: int|
                0 <= k < added@.len() ==> {
                    let seed = #[trigger] final(self)@.seeds[old(self)@.seeds.len() + k];
                    &&& seed.id == old(self)@.next_id + k
                    &&& added@[k] == seed.id
                    &&& spec_seed_slots(old(self)@.rect)[k].spec_contains(seed.position)
                },
    {
        let field = seed_field(self.board.rect());
        let added = self.add_seeds(field.as_slice());
        proof {
            lemma_with_seeds(old(self)@, field@);
        }
        added
    }
}

/// A press over a point off the board spawns nothing. A press over a point
/// on the board spawns exactly one cell, at that point, provided that an
/// identifier is left; the seeds stay as they were.
pub proof fn lemma_press_spawns_on_board_only(w: WorldView, position: Point)
    ensures
        ({
            let press = PointerEvent {
                state: ButtonState::Pressed,
                world_position: Some(position),
            };
            let after = w.with_pointer(press);
            &&& !w.rect.spec_contains(position) ==> after == w
            &&& w.rect.spec_contains(position) && w.has_free_id() ==> {
                &&& after.cells == w.cells.push(Cell { id: w.next_id, position })
                &&& after.seeds == w.seeds
            }
        }),
{
}

/// A release, or a press that maps to no board position, changes nothing.
pub proof fn lemma_idle_pointer_changes_nothing(w: WorldView, event: PointerEvent)
    requires
        event.state == ButtonState::Released || event.world_position is None,
    ensures
        w.with_pointer(event) == w,
{
}

/// Adding seeds appends them to the list of seeds, numbered from the next free
/// identifier on, until the identifiers run out; nothing else changes.
pub proof fn lemma_with_seeds(w: WorldView, positions: Seq<Point>)
    ensures
        ({
            let after = w.with_seeds(positions);
            let n = if positions.len() <= u64::MAX - w.next_id {
                positions.len() as int
            } else {
                u64::MAX - w.next_id
            };
            &&& after.rect == w.rect
            &&& after.policy == w.policy
            &&& after.cells == w.cells
            &&& after.next_id == w.next_id + n
            &&& after.seeds.len() == w.seeds.len() + n
            &&& after.seeds.take(w.seeds.len() as int) == w.seeds
            &&& forall|k: int|
                0 <= k < n ==> #[trigger] after.seeds[w.seeds.len() + k] == (Seed {
                    id: (w.next_id + k) as u64,
                    position: positions[k],
                })
        }),
    decreases positions.len(),
{
    if positions.len() > 0 {
        let before = w.with_seeds(positions.drop_last());
        lemma_with_seeds(w, positions.drop_last());
        let after = w.with_seeds(positions);
        assert(after == before.with_seed(positions.last()));
        assert(after.seeds.take(w.seeds.len() as int) =~= w.seeds);
    } else {
        assert(w.seeds.take(w.seeds.len() as int) =~= w.seeds);
    }
}

} // verus!
