//! The point that cells walk toward: the seed nearest to the centroid of all
//! seeds, the older one where two lie equally near. The centroid is the exact
//! arithmetic mean; it is never rounded to the grid.

use crate::geometry::{
    closest_element, closest_index, find_closest_element, is_first_nearest,
    lemma_closest_index_in_range, lemma_first_nearest_unique, Centroid, CentroidView, Point,
};
use vstd::prelude::*;

verus! {

/// The sum of the x coordinates.
pub open spec fn sum_x(points: Seq<Point>) -> int
    decreases points.len(),
{
    if points.len() == 0 {
        0
    } else {
        sum_x(points.drop_last()) + points.last().x
    }
}

/// The sum of the y coordinates.
pub open spec fn sum_y(points: Seq<Point>) -> int
    decreases points.len(),
{
    if points.len() == 0 {
        0
    } else {
        sum_y(points.drop_last()) + points.last().y
    }
}

/// The arithmetic mean of the points, exactly.
pub open spec fn mean(points: Seq<Point>) -> CentroidView {
    CentroidView { sum_x: sum_x(points), sum_y: sum_y(points), count: points.len() as int }
}

/// The seed nearest to the arithmetic mean of all seeds, the earliest one
/// among equals; `None` when there are no seeds.
pub open spec fn attractor(seed_positions: Seq<Point>) -> Option<Point> {
    closest_element(seed_positions, mean(seed_positions))
}

/// The sums of `n` coordinates lie between `n` times the least and `n` times
/// the greatest coordinate.
pub proof fn lemma_sum_bounds(points: Seq<Point>)
    ensures
        points.len() * i32::MIN <= sum_x(points) <= points.len() * i32::MAX,
        points.len() * i32::MIN <= sum_y(points) <= points.len() * i32::MAX,
    decreases points.len(),
{
    if points.len() > 0 {
        lemma_sum_bounds(points.drop_last());
    }
}

/// The arithmetic mean of the points; `None` when there are none.
pub fn centroid(points: &[Point]) -> (r: Option<Centroid>)
    ensures
        r is Some <==> points@.len() > 0,
        r is Some ==> r.unwrap()@ == mean(points@),
{
    let n = points.len();
    if n == 0 {
        return None;
    }
    let mut sx: i128 = 0;
    let mut sy: i128 = 0;
    let mut i: usize = 0;
    while i < n
        invariant
            n == points.len(),
            0 <= i <= n,
            sx == sum_x(points@.take(i as int)),
            sy == sum_y(points@.take(i as int)),
            i * i32::MIN <= sx <= i * i32::MAX,
            i * i32::MIN <= sy <= i * i32::MAX,
        decreases n - i,
    {
        proof {
            assert(points@.take(i + 1).drop_last() =~= points@.take(i as int));
            lemma_sum_bounds(points@.take(i + 1));
        }
        sx = sx + points[i].x as i128;
        sy = sy + points[i].y as i128;
        i += 1;
    }
    proof {
        assert(points@.take(n as int) =~= points@);
    }
    Some(Centroid { sum_x: sx, sum_y: sy, count: n })
}

/// The seed that cells walk toward this frame.
pub fn compute_attractor(seed_positions: &[Point]) -> (r: Option<Point>)
    ensures
        r == attractor(seed_positions@),
        r is Some <==> seed_positions@.len() > 0,
        r is Some ==> seed_positions@.contains(r.unwrap()),
{
    proof {
        if seed_positions@.len() > 0 {
            lemma_attractor_is_a_seed(seed_positions@);
        }
    }
    match centroid(seed_positions) {
        None => None,
        Some(center) => find_closest_element(seed_positions, &center),
    }
}

/// With at least one seed there is an attractor, and it is one of the seeds:
/// the first of those that lie nearest to the mean.
pub proof fn lemma_attractor_is_a_seed(seed_positions: Seq<Point>)
    requires
        seed_positions.len() > 0,
    ensures
        attractor(seed_positions) is Some,
        seed_positions.contains(attractor(seed_positions).unwrap()),
{
    lemma_closest_index_in_range(seed_positions, mean(seed_positions));
}

/// A lone seed is the attractor.
pub proof fn lemma_attractor_of_single_seed(seed_positions: Seq<Point>)
    requires
        seed_positions.len() == 1,
    ensures
        attractor(seed_positions) == Some(seed_positions[0]),
{
    lemma_closest_index_in_range(seed_positions, mean(seed_positions));
}

/// Two seeds lie equally far from their mean, so the older one is the attractor.
pub proof fn lemma_attractor_of_two_seeds(seed_positions: Seq<Point>)
    requires
        seed_positions.len() == 2,
    ensures
        attractor(seed_positions) == Some(seed_positions[0]),
{
    let center = mean(seed_positions);
    let p = seed_positions[0];
    let q = seed_positions[1];
    reveal_with_fuel(sum_x, 3);
    reveal_with_fuel(sum_y, 3);
    assert(seed_positions.drop_last().drop_last().len() == 0);
    assert(seed_positions.drop_last().last() == p);
    assert(center.sum_x == p.x + q.x && center.sum_y == p.y + q.y);
    assert(center.scaled_distance_squared(p) == center.scaled_distance_squared(q))
        by (nonlinear_arith)
        requires
            center.scaled_distance_squared(p) == (2 * p.x - (p.x + q.x)) * (2 * p.x - (p.x + q.x))
                + (2 * p.y - (p.y + q.y)) * (2 * p.y - (p.y + q.y)),
            center.scaled_distance_squared(q) == (2 * q.x - (p.x + q.x)) * (2 * q.x - (p.x + q.x))
                + (2 * q.y - (p.y + q.y)) * (2 * q.y - (p.y + q.y)),
    ;
    assert(is_first_nearest(seed_positions, center, 2, 0));
    lemma_closest_index_in_range(seed_positions, center);
    lemma_first_nearest_unique(
        seed_positions,
        center,
        2,
        0,
        closest_index(seed_positions, center),
    );
}

/// Without seeds there is no attractor.
pub proof fn lemma_attractor_of_no_seeds(seed_positions: Seq<Point>)
    requires
        seed_positions.len() == 0,
    ensures
        attractor(seed_positions) is None,
{
}

} // verus!
