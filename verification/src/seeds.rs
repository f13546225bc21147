//! Where the initial seeds go: the board, inset by a margin, is cut into a
//! grid of slots, and one seed is dropped at random in each slot.

use crate::geometry::{Point, Rect, UNIT};
use rand::Rng;
use vstd::arithmetic::div_mod::{
    lemma_fundamental_div_mod, lemma_fundamental_div_mod_converse, lemma_mod_bound,
};
use vstd::prelude::*;

verus! {

/// The side of a grid slot, in grid steps.
pub const CELLS_STEP: i32 = 32 * UNIT;

/// How far the seeded area stays away from the border of the board, in grid steps.
pub const SEED_MARGIN: i32 = 3 * UNIT;

/// How many slots cover the stretch from `lo` up to `hi`.
pub open spec fn slot_count(lo: int, hi: int) -> int {
    if lo < hi {
        (hi - lo + CELLS_STEP - 1) / (CELLS_STEP as int)
    } else {
        0
    }
}

/// The coordinate at which slot `i` of a stretch starting at `lo` begins.
pub open spec fn slot_start(lo: int, i: int) -> int {
    lo + i * CELLS_STEP
}

/// The coordinate at which slot `i` ends: a full step after its start, or at
/// `hi` where the last slot is cut short.
pub open spec fn slot_end(lo: int, hi: int, i: int) -> int {
    if slot_start(lo, i) + CELLS_STEP < hi {
        slot_start(lo, i) + CELLS_STEP
    } else {
        hi
    }
}

/// The slot in column `i` and row `j` of the grid over `rect`.
pub open spec fn seed_slot(rect: Rect, i: int, j: int) -> Rect {
    let lo_x = rect.min.x + SEED_MARGIN;
    let hi_x = rect.max.x - SEED_MARGIN;
    let lo_y = rect.min.y + SEED_MARGIN;
    let hi_y = rect.max.y - SEED_MARGIN;
    Rect {
        min: Point { x: slot_start(lo_x, i) as i32, y: slot_start(lo_y, j) as i32 },
        max: Point { x: slot_end(lo_x, hi_x, i) as i32, y: slot_end(lo_y, hi_y, j) as i32 },
    }
}

/// The number of columns of the grid over `rect`.
pub open spec fn columns(rect: Rect) -> int {
    slot_count(rect.min.x + SEED_MARGIN, rect.max.x - SEED_MARGIN)
}

/// The number of rows of the grid over `rect`.
pub open spec fn rows(rect: Rect) -> int {
    slot_count(rect.min.y + SEED_MARGIN, rect.max.y - SEED_MARGIN)
}

/// All slots of the grid over `rect`, column by column.
pub open spec fn spec_seed_slots(rect: Rect) -> Seq<Rect> {
    Seq::new(
        (columns(rect) * rows(rect)) as nat,
        |k: int| seed_slot(rect, k / rows(rect), k % rows(rect)),
    )
}

/// `point` keeps the margin from every border of `rect`.
pub open spec fn in_seed_area(rect: Rect, point: Point) -> bool {
    &&& rect.min.x + SEED_MARGIN <= point.x <= rect.max.x - SEED_MARGIN
    &&& rect.min.y + SEED_MARGIN <= point.y <= rect.max.y - SEED_MARGIN
}

/// `field` holds one point in every slot of the grid over `rect`, in slot order.
pub open spec fn is_seed_field(rect: Rect, field: Seq<Point>) -> bool {
    &&& field.len() == spec_seed_slots(rect).len()
    &&& forall|k: int|
        0 <= k < field.len() ==> (#[trigger] spec_seed_slots(rect)[k]).spec_contains(field[k])
}

/// The slots of a stretch that is not empty cover it exactly: the last one
/// begins before `hi`, and one more would begin at `hi` or after it.
pub proof fn lemma_slot_count(lo: int, hi: int)
    requires
        lo < hi,
    ensures
        slot_count(lo, hi) >= 1,
        slot_start(lo, slot_count(lo, hi) - 1) < hi <= slot_start(lo, slot_count(lo, hi)),
{
    let d = hi - lo + CELLS_STEP - 1;
    let s = CELLS_STEP as int;
    lemma_fundamental_div_mod(d, s);
    lemma_mod_bound(d, s);
    let n = slot_count(lo, hi);
    assert(s * n == d - d % s);
    assert((n - 1) * CELLS_STEP == s * n - s) by (nonlinear_arith)
        requires
            s == CELLS_STEP,
    ;
    assert(n * CELLS_STEP == s * n) by (nonlinear_arith)
        requires
            s == CELLS_STEP,
    ;
    if n < 1 {
        assert(s * n <= 0) by (nonlinear_arith)
            requires
                n <= 0,
                s > 0,
        ;
    }
}

/// Slot `i` of a stretch begins inside the stretch and does not end before it begins.
pub proof fn lemma_slot_bounds(lo: int, hi: int, i: int)
    requires
        0 <= i < slot_count(lo, hi),
    ensures
        lo <= slot_start(lo, i) < hi,
        slot_start(lo, i) < slot_end(lo, hi, i) <= hi,
{
    lemma_slot_count(lo, hi);
    let n = slot_count(lo, hi);
    assert(0 <= i * CELLS_STEP <= (n - 1) * CELLS_STEP) by (nonlinear_arith)
        requires
            0 <= i <= n - 1,
            CELLS_STEP > 0,
    ;
}

/// Every slot of the grid over `rect` lies in the seeded area and holds at least one point.
pub proof fn lemma_seed_slot_in_area(rect: Rect, k: int)
    requires
        0 <= k < spec_seed_slots(rect).len(),
    ensures
        spec_seed_slots(rect)[k].is_ordered(),
        forall|p: Point| #[trigger]
            spec_seed_slots(rect)[k].spec_contains(p) ==> in_seed_area(rect, p),
{
    let c = columns(rect);
    let r = rows(rect);
    assert(r > 0 && c > 0) by (nonlinear_arith)
        requires
            0 <= k < c * r,
            c >= 0,
            r >= 0,
    ;
    lemma_fundamental_div_mod(k, r);
    lemma_mod_bound(k, r);
    let i = k / r;
    let j = k % r;
    assert(0 <= i < c) by (nonlinear_arith)
        requires
            k == r * i + j,
            0 <= j < r,
            0 <= k < c * r,
    ;
    lemma_slot_bounds(rect.min.x + SEED_MARGIN, rect.max.x - SEED_MARGIN, i);
    lemma_slot_bounds(rect.min.y + SEED_MARGIN, rect.max.y - SEED_MARGIN, j);
}

/// A seed field has one seed for every slot, and every seed keeps the margin
/// from the border of the board.
pub proof fn lemma_seed_field_in_area(rect: Rect, field: Seq<Point>)
    requires
        is_seed_field(rect, field),
    ensures
        field.len() == columns(rect) * rows(rect),
        forall|k: int| 0 <= k < field.len() ==> in_seed_area(rect, #[trigger] field[k]),
{
    assert forall|k: int| 0 <= k < field.len() implies in_seed_area(rect, #[trigger] field[k]) by {
        lemma_seed_slot_in_area(rect, k);
        assert(spec_seed_slots(rect)[k].spec_contains(field[k]));
    }
    assert(columns(rect) * rows(rect) >= 0) by (nonlinear_arith)
        requires
            columns(rect) >= 0,
            rows(rect) >= 0,
    ;
}

/// The number of slots that cover the stretch from `lo` up to `hi`.
fn count_slots(lo: i64, hi: i64) -> (n: i64)
    requires
        i32::MIN <= lo <= i32::MAX + SEED_MARGIN,
        i32::MIN - SEED_MARGIN <= hi <= i32::MAX,
    ensures
        n == slot_count(lo as int, hi as int),
        0 <= n <= 0x41,
{
    if lo < hi {
        let n = (hi - lo + (CELLS_STEP as i64 - 1)) / (CELLS_STEP as i64);
        proof {
            lemma_slot_count(lo as int, hi as int);
            let d = hi - lo + CELLS_STEP - 1;
            lemma_fundamental_div_mod(d, CELLS_STEP as int);
            lemma_mod_bound(d, CELLS_STEP as int);
        }
        n
    } else {
        0
    }
}

/// The grid of slots over `rect`, column by column.
pub fn seed_slots(rect: Rect) -> (slots: Vec<Rect>)
    ensures
        slots@ == spec_seed_slots(rect),
        forall|k: int| 0 <= k < slots@.len() ==> (#[trigger] slots@[k]).is_ordered(),
{
    let lo_x: i64 = rect.min.x as i64 + SEED_MARGIN as i64;
    let hi_x: i64 = rect.max.x as i64 - SEED_MARGIN as i64;
    let lo_y: i64 = rect.min.y as i64 + SEED_MARGIN as i64;
    let hi_y: i64 = rect.max.y as i64 - SEED_MARGIN as i64;
    let column_count = count_slots(lo_x, hi_x);
    let row_count = count_slots(lo_y, hi_y);
    let step = CELLS_STEP as i64;
    let mut slots: Vec<Rect> = Vec::new();
    let mut i: i64 = 0;
    while i < column_count
        invariant
            0 <= i <= column_count,
            column_count == columns(rect),
            row_count == rows(rect),
            0 <= row_count <= 0x41,
            0 <= column_count <= 0x41,
            lo_x == rect.min.x + SEED_MARGIN,
            hi_x == rect.max.x - SEED_MARGIN,
            lo_y == rect.min.y + SEED_MARGIN,
            hi_y == rect.max.y - SEED_MARGIN,
            step == CELLS_STEP,
            slots@.len() == i * row_count,
            forall|k: int|
                0 <= k < slots@.len() ==> #[trigger] slots@[k] == seed_slot(
                    rect,
                    k / (row_count as int),
                    k % (row_count as int),
                ),
        decreases column_count - i,
    {
        proof {
            lemma_slot_bounds(lo_x as int, hi_x as int, i as int);
        }
        let x: i64 = lo_x + i * step;
        let x_end: i64 = if x + step < hi_x {
            x + step
        } else {
            hi_x
        };
        let mut j: i64 = 0;
        while j < row_count
            invariant
                0 <= j <= row_count,
                0 <= i < column_count,
                row_count == rows(rect),
                0 <= row_count <= 0x41,
                lo_x == rect.min.x + SEED_MARGIN,
                hi_x == rect.max.x - SEED_MARGIN,
                lo_y == rect.min.y + SEED_MARGIN,
                hi_y == rect.max.y - SEED_MARGIN,
                step == CELLS_STEP,
                x == slot_start(lo_x as int, i as int),
                x_end == slot_end(lo_x as int, hi_x as int, i as int),
                lo_x <= x < x_end <= hi_x,
                slots@.len() == i * row_count + j,
                forall|k: int|
                    0 <= k < slots@.len() ==> #[trigger] slots@[k] == seed_slot(
                        rect,
                        k / (row_count as int),
                        k % (row_count as int),
                    ),
            decreases row_count - j,
        {
            proof {
                lemma_slot_bounds(lo_y as int, hi_y as int, j as int);
                lemma_fundamental_div_mod_converse(
                    i * row_count + j,
                    row_count as int,
                    i as int,
                    j as int,
                );
            }
            let y: i64 = lo_y + j * step;
            let y_end: i64 = if y + step < hi_y {
                y + step
            } else {
                hi_y
            };
            slots.push(
                Rect {
                    min: Point { x: x as i32, y: y as i32 },
                    max: Point { x: x_end as i32, y: y_end as i32 },
                },
            );
            j += 1;
        }
        proof {
            assert((i + 1) * row_count == i * row_count + row_count) by (nonlinear_arith);
        }
        i += 1;
    }
    proof {
        assert(slots@ =~= spec_seed_slots(rect));
        assert forall|k: int| 0 <= k < slots@.len() implies (#[trigger] slots@[k]).is_ordered() by {
            lemma_seed_slot_in_area(rect, k);
        }
    }
    slots
}

/// Draws a number with `rand::thread_rng().gen_range(low..=high)`. The crate
/// samples the closed range from `low` to `high`, so the number lies in it;
/// which number comes back is left open. An empty range makes the crate
/// panic and is excluded.
#[verifier::external_body]
fn random_in_range(low: i32, high: i32) -> (r: i32)
    requires
        low <= high,
    ensures
        low <= r <= high,
{
    rand::thread_rng().gen_range(low..=high)
}

/// One point drawn at random inside each of `slots`.
pub fn scatter(slots: &[Rect]) -> (points: Vec<Point>)
    requires
        forall|k: int| 0 <= k < slots@.len() ==> (#[trigger] slots@[k]).is_ordered(),
    ensures
        points@.len() == slots@.len(),
        forall|k: int| 0 <= k < slots@.len() ==> (#[trigger] slots@[k]).spec_contains(points@[k]),
{
    let mut points: Vec<Point> = Vec::new();
    let mut k: usize = 0;
    while k < slots.len()
        invariant
            0 <= k <= slots.len(),
            points@.len() == k,
            forall|n: int| 0 <= n < slots@.len() ==> (#[trigger] slots@[n]).is_ordered(),
            forall|n: int| 0 <= n < k ==> (#[trigger] slots@[n]).spec_contains(points@[n]),
        decreases slots.len() - k,
    {
        let slot = slots[k];
        assert(slots@[k as int].is_ordered());
        let x = random_in_range(slot.min.x, slot.max.x);
        let y = random_in_range(slot.min.y, slot.max.y);
        points.push(Point { x, y });
        k += 1;
    }
    points
}

/// A fresh seed field for a board over `rect`: one seed at a random place in every slot.
pub fn seed_field(rect: Rect) -> (field: Vec<Point>)
    ensures
        is_seed_field(rect, field@),
        field@.len() == columns(rect) * rows(rect),
        forall|k: int| 0 <= k < field@.len() ==> in_seed_area(rect, #[trigger] field@[k]),
{
    let slots = seed_slots(rect);
    let field = scatter(slots.as_slice());
    proof {
        lemma_seed_field_in_area(rect, field@);
    }
    field
}

} // verus!
