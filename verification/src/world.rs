//! The registry of live seeds and cells.

use crate::entities::{Cell, Seed};
use crate::events::{CollisionPolicy, NO_ENTITY};
use crate::geometry::Rect;
use crate::world_board::WorldBoard;
use vstd::prelude::*;

verus! {

/// The board with everything that lives on it.
pub struct World {
    pub(crate) board: WorldBoard,
    pub(crate) policy: CollisionPolicy,
    pub(crate) seeds: Vec<Seed>,
    pub(crate) cells: Vec<Cell>,
    pub(crate) next_id: u64,
}

/// The state of a [`World`] as contracts see it.
pub struct WorldView {
    /// The rectangle of the board.
    pub rect: Rect,
    /// Who detects contacts between cells and seeds.
    pub policy: CollisionPolicy,
    /// The live seeds, oldest first.
    pub seeds: Seq<Seed>,
    /// The live cells, oldest first.
    pub cells: Seq<Cell>,
    /// The identifier that the next new particle gets.
    pub next_id: u64,
}

impl WorldView {
    /// The board has a width and a height, every cell stands on the board,
    /// and identifiers are handed out in rising order, never twice.
    pub open spec fn wf(self) -> bool {
        &&& self.rect.min.x < self.rect.max.x
        &&& self.rect.min.y < self.rect.max.y
        &&& forall|i: int|
            0 <= i < self.cells.len() ==> self.rect.spec_contains(
                (#[trigger] self.cells[i]).position,
            )
        &&& forall|i: int| 0 <= i < self.seeds.len() ==> (#[trigger] self.seeds[i]).id < self.next_id
        &&& forall|i: int| 0 <= i < self.cells.len() ==> (#[trigger] self.cells[i]).id < self.next_id
        &&& forall|i: int, j: int|
            0 <= i < j < self.seeds.len() ==> (#[trigger] self.seeds[i]).id < (
            #[trigger] self.seeds[j]).id
        &&& forall|i: int, j: int|
            0 <= i < j < self.cells.len() ==> (#[trigger] self.cells[i]).id < (
            #[trigger] self.cells[j]).id
        &&& forall|i: int, j: int|
            0 <= i < self.seeds.len() && 0 <= j < self.cells.len() ==> (
            #[trigger] self.seeds[i]).id != (#[trigger] self.cells[j]).id
    }
}

/// No seed and no cell of a well-formed world has the identifier [`NO_ENTITY`].
pub proof fn lemma_no_entity_names_nothing(w: WorldView)
    requires
        w.wf(),
    ensures
        forall|i: int| 0 <= i < w.seeds.len() ==> (#[trigger] w.seeds[i]).id != NO_ENTITY,
        forall|i: int| 0 <= i < w.cells.len() ==> (#[trigger] w.cells[i]).id != NO_ENTITY,
{
}

impl View for World {
    type V = WorldView;

    open(crate) spec fn view(&self) -> WorldView {
        WorldView {
            rect: self.board.spec_rect(),
            policy: self.policy,
            seeds: self.seeds@,
            cells: self.cells@,
            next_id: self.next_id,
        }
    }
}

impl World {
    /// An empty world on `board`.
    pub fn new(board: WorldBoard, policy: CollisionPolicy) -> (w: World)
        ensures
            w@.wf(),
            w@.rect == board.spec_rect(),
            w@.policy == policy,
            w@.seeds.len() == 0,
            w@.cells.len() == 0,
            w@.next_id == 0,
    {
        proof {
            use_type_invariant(&board);
        }
        World { board, policy, seeds: Vec::new(), cells: Vec::new(), next_id: 0 }
    }

    pub fn board(&self) -> (b: WorldBoard)
        ensures
            b.spec_rect() == self@.rect,
    {
        self.board
    }

    pub fn policy(&self) -> (p: CollisionPolicy)
        ensures
            p == self@.policy,
    {
        self.policy
    }

    /// The live seeds, oldest first.
    pub fn seeds(&self) -> (s: &[Seed])
        ensures
            s@ == self@.seeds,
    {
        self.seeds.as_slice()
    }

    /// The live cells, oldest first.
    pub fn cells(&self) -> (c: &[Cell])
        ensures
            c@ == self@.cells,
    {
        self.cells.as_slice()
    }

    /// The number of live seeds.
    pub fn seed_count(&self) -> (n: usize)
        ensures
            n == self@.seeds.len(),
    {
        self.seeds.len()
    }

    /// The number of live cells.
    pub fn cell_count(&self) -> (n: usize)
        ensures
            n == self@.cells.len(),
    {
        self.cells.len()
    }
}

} // verus!
