//! The movement step of a frame: every cell walks one unit toward the
//! attractor, and a cell that steps off the board is removed. The removed
//! cells are handed on with the places they stepped to, so that the
//! collision stage of the same frame still sees them.

use crate::attractor::{attractor, compute_attractor};
use crate::entities::{Cell, Departure, Seed};
use crate::geometry::{Point, Rect, Vector};
use crate::network::{
    direction, lemma_direction_at_target, lemma_direction_components, CapNetwork,
};
use crate::world::{World, WorldView};
use vstd::prelude::*;

verus! {

/// The positions of the seeds, in the order of the seeds.
pub open spec fn seed_positions(seeds: Seq<Seed>) -> Seq<Point> {
    seeds.map_values(|s: Seed| s.position)
}

/// The point that the cells walk toward: the attractor of the seeds, or the
/// origin when no seed is left.
pub open spec fn target(seeds: Seq<Seed>) -> Point {
    match attractor(seed_positions(seeds)) {
        Some(p) => p,
        None => Point::origin(),
    }
}

/// Where a cell at `position` stands after one step toward `target`; `None`
/// when that step takes it off the board `rect`.
pub open spec fn advanced(position: Point, target: Point, rect: Rect) -> Option<Point> {
    let v = direction(position, target);
    if rect.contains_at(position.x + v.x, position.y + v.y) {
        Some(Point { x: (position.x + v.x) as i32, y: (position.y + v.y) as i32 })
    } else {
        None
    }
}

/// Maps a cell to itself after its step, or to nothing when the step takes it off the board.
pub open spec fn survivor(target: Point, rect: Rect) -> spec_fn(Cell) -> Option<Cell> {
    |c: Cell|
        match advanced(c.position, target, rect) {
            Some(position) => Some(Cell { id: c.id, position }),
            None => None,
        }
}

/// Maps a cell whose step takes it off the board to its departure, any other cell to nothing.
pub open spec fn casualty(target: Point, rect: Rect) -> spec_fn(Cell) -> Option<Departure> {
    |c: Cell|
        match advanced(c.position, target, rect) {
            Some(_) => None,
            None => Some(
                Departure {
                    id: c.id,
                    x: (c.position.x + direction(c.position, target).x) as i64,
                    y: (c.position.y + direction(c.position, target).y) as i64,
                },
            ),
        }
}

impl WorldView {
    /// The world after the movement step: every cell has advanced toward the
    /// target of this frame, and only those still on the board remain.
    pub open spec fn moved(self) -> WorldView {
        WorldView { cells: self.cells.filter_map(survivor(target(self.seeds), self.rect)), ..self }
    }

    /// The cells that the movement step removes, oldest first, each with the
    /// place off the board that it stepped to.
    pub open spec fn departed(self) -> Seq<Departure> {
        self.cells.filter_map(casualty(target(self.seeds), self.rect))
    }
}

/// Without seeds the cells walk toward the origin, so a cell that stands on
/// the origin stays where it is.
pub proof fn lemma_target_without_seeds(seeds: Seq<Seed>)
    requires
        seeds.len() == 0,
    ensures
        target(seeds) == Point::origin(),
        direction(Point::origin(), target(seeds)) == Vector::zero(),
{
    lemma_direction_at_target(Point::origin());
}

/// A cell that stands on the target and on the board stays where it is.
pub proof fn lemma_cell_on_target_rests(position: Point, rect: Rect)
    requires
        rect.spec_contains(position),
    ensures
        advanced(position, position, rect) == Some(position),
{
    lemma_direction_at_target(position);
}

/// After the movement step every cell stands on the board, and every cell
/// that remains was there before, with the same identifier.
pub proof fn lemma_moved_cells_are_on_board(w: WorldView)
    ensures
        forall|i: int|
            0 <= i < w.moved().cells.len() ==> w.rect.spec_contains(
                (#[trigger] w.moved().cells[i]).position,
            ),
        forall|i: int|
            0 <= i < w.moved().cells.len() ==> exists|j: int|
                0 <= j < w.cells.len() && (#[trigger] w.cells[j]).id == (
                #[trigger] w.moved().cells[i]).id,
{
    let f = survivor(target(w.seeds), w.rect);
    let after = w.cells.filter_map(f);
    assert forall|i: int| 0 <= i < after.len() implies w.rect.spec_contains(
        (#[trigger] after[i]).position,
    ) && exists|j: int| 0 <= j < w.cells.len() && (#[trigger] w.cells[j]).id == after[i].id by {
        assert(after.contains(after[i]));
        w.cells.lemma_filter_map_contains(f, after[i]);
        let c = choose|c: Cell| #[trigger] w.cells.contains(c) && f(c) == Some(after[i]);
        let j = choose|j: int| 0 <= j < w.cells.len() && w.cells[j] == c;
        assert(w.cells[j].id == after[i].id);
    }
}

/// Moves `cell` one step toward `target`. When the step would take it off
/// the board `rect`, the cell is left where it was and its departure is returned.
pub fn advance(cell: &mut Cell, target: Point, rect: &Rect) -> (left: Option<Departure>)
    ensures
        left == casualty(target, *rect)(*old(cell)),
        left is None <==> advanced(old(cell).position, target, *rect) is Some,
        left is None ==> Some(*final(cell)) == survivor(target, *rect)(*old(cell)),
        left is Some ==> *final(cell) == *old(cell),
{
    let position = cell.position;
    let v = cell.activate(position, target);
    proof {
        lemma_direction_components(position, target);
    }
    let x: i64 = position.x as i64 + v.x as i64;
    let y: i64 = position.y as i64 + v.y as i64;
    if rect.min.x as i64 <= x && x <= rect.max.x as i64 && rect.min.y as i64 <= y && y
        <= rect.max.y as i64 {
        cell.position = Point { x: x as i32, y: y as i32 };
        None
    } else {
        Some(Departure { id: cell.id, x, y })
    }
}

impl World {
    /// The point that the cells walk toward this frame.
    pub fn target(&self) -> (t: Point)
        ensures
            t == target(self@.seeds),
    {
        let mut positions: Vec<Point> = Vec::new();
        let mut i: usize = 0;
        while i < self.seeds.len()
            invariant
                0 <= i <= self.seeds.len(),
                positions@.len() == i,
                forall|k: int| 0 <= k < i ==> #[trigger] positions@[k] == self.seeds@[k].position,
            decreases self.seeds.len() - i,
        {
            positions.push(self.seeds[i].position);
            i += 1;
        }
        assert(positions@ =~= seed_positions(self@.seeds));
        match compute_attractor(positions.as_slice()) {
            Some(p) => p,
            None => Point::default(),
        }
    }

    /// Runs the movement step and returns the cells that left the board and
    /// were removed, each with the place it stepped to.
    pub fn move_cells(&mut self) -> (culled: Vec<Departure>)
        requires
            old(self)@.wf(),
        ensures
            final(self)@.wf(),
            final(self)@ == old(self)@.moved(),
            culled@ == old(self)@.departed(),
    {
        let target = self.target();
        let rect = self.board.rect();
        let mut kept: Vec<Cell> = Vec::new();
        let mut culled: Vec<Departure> = Vec::new();
        let ghost cells = self.cells@;
        let ghost seeds = self.seeds@;
        let ghost next_id = self.next_id;
        let mut i: usize = 0;
        while i < self.cells.len()
            invariant
                0 <= i <= self.cells.len(),
                self.cells@ == cells,
                self.seeds@ == seeds,
                self.next_id == next_id,
                old(self)@.wf(),
                old(self)@.cells == cells,
                old(self)@.seeds == seeds,
                old(self)@.next_id == next_id,
                old(self)@.rect == rect,
                kept@ == cells.take(i as int).filter_map(survivor(target, rect)),
                culled@ == cells.take(i as int).filter_map(casualty(target, rect)),
                forall|k: int| 0 <= k < kept@.len() ==> rect.spec_contains((#[trigger] kept@[k]).position),
                forall|k: int| 0 <= k < kept@.len() ==> (#[trigger] kept@[k]).id < next_id,
                forall|k: int, m: int|
                    0 <= k < kept@.len() && i <= m < cells.len() ==> (#[trigger] kept@[k]).id < (
                    #[trigger] cells[m]).id,
                forall|a: int, b: int|
                    0 <= a < b < kept@.len() ==> (#[trigger] kept@[a]).id < (#[trigger] kept@[b]).id,
                forall|k: int, j: int|
                    0 <= k < kept@.len() && 0 <= j < seeds.len() ==> (#[trigger] seeds[j]).id != (
                    #[trigger] kept@[k]).id,
            decreases self.cells.len() - i,
        {
            proof {
                cells.lemma_filter_map_take_succ(survivor(target, rect), i as int);
                cells.lemma_filter_map_take_succ(casualty(target, rect), i as int);
            }
            let mut cell = self.cells[i];
            match advance(&mut cell, target, &rect) {
                None => {
                    kept.push(cell);
                },
                Some(departure) => {
                    culled.push(departure);
                },
            }
            i += 1;
        }
        proof {
            assert(cells.take(cells.len() as int) =~= cells);
        }
        self.cells = kept;
        culled
    }
}

} // verus!
