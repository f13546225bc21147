//! Points, displacements and rectangles on the fixed-point grid, and the
//! nearest-point query.
//!
//! Every coordinate counts grid steps; [`UNIT`] grid steps make one world unit.

use crate::arith::{floor_div, lemma_mean_in_range};
use vstd::prelude::*;

verus! {

/// Grid steps per world unit: a coordinate is a fixed-point number with 21
/// binary places, so the grid reaches 1024 world units from the origin and
/// one grid step is less than half a millionth of a unit.
pub const UNIT: i32 = 0x20_0000;

/// The greatest number of whole world units that a coordinate can hold.
pub const MAX_UNITS: i16 = 1023;

/// A position on the grid.
#[derive(Clone, Copy, Debug, PartialEq, Eq, Structural)]
pub struct Point {
    pub x: i32,
    pub y: i32,
}

/// A displacement between two grid positions.
#[derive(Clone, Copy, Debug, PartialEq, Eq, Structural)]
pub struct Vector {
    pub x: i32,
    pub y: i32,
}

impl Point {
    /// The point `(0, 0)`.
    pub open spec fn origin() -> Point {
        Point { x: 0, y: 0 }
    }

    pub fn new(x: i32, y: i32) -> (p: Point)
        ensures
            p == (Point { x, y }),
    {
        Point { x, y }
    }

    /// The point that lies `x` and `y` whole world units from the origin;
    /// `None` when that is off the grid.
    pub fn from_units(x: i16, y: i16) -> (p: Option<Point>)
        ensures
            p is Some <==> -MAX_UNITS - 1 <= x <= MAX_UNITS && -MAX_UNITS - 1 <= y <= MAX_UNITS,
            p is Some ==> p.unwrap().x == x * UNIT && p.unwrap().y == y * UNIT,
    {
        if -MAX_UNITS - 1 <= x && x <= MAX_UNITS && -MAX_UNITS - 1 <= y && y <= MAX_UNITS {
            Some(Point { x: x as i32 * UNIT, y: y as i32 * UNIT })
        } else {
            None
        }
    }
}

impl Default for Point {
    fn default() -> (p: Point)
        ensures
            p == Point::origin(),
    {
        Point { x: 0, y: 0 }
    }
}

/// An axis-aligned rectangle, corners included.
#[derive(Clone, Copy, Debug, PartialEq, Eq, Structural)]
pub struct Rect {
    pub min: Point,
    pub max: Point,
}

impl Rect {
    /// The rectangle covers the grid position `(x, y)`.
    pub open spec fn contains_at(&self, x: int, y: int) -> bool {
        self.min.x <= x <= self.max.x && self.min.y <= y <= self.max.y
    }

    /// The rectangle covers `point`; its border counts as inside.
    pub open spec fn spec_contains(&self, point: Point) -> bool {
        self.contains_at(point.x as int, point.y as int)
    }

    /// The lower corner does not exceed the upper one, so at least one point is inside.
    pub open spec fn is_ordered(&self) -> bool {
        self.min.x <= self.max.x && self.min.y <= self.max.y
    }

    /// The rectangle spanned by two opposite corners, given in any order.
    pub fn new(x0: i32, y0: i32, x1: i32, y1: i32) -> (r: Rect)
        ensures
            r.min.x == if x0 <= x1 { x0 } else { x1 },
            r.max.x == if x0 <= x1 { x1 } else { x0 },
            r.min.y == if y0 <= y1 { y0 } else { y1 },
            r.max.y == if y0 <= y1 { y1 } else { y0 },
            r.is_ordered(),
    {
        let (min_x, max_x) = if x0 <= x1 { (x0, x1) } else { (x1, x0) };
        let (min_y, max_y) = if y0 <= y1 { (y0, y1) } else { (y1, y0) };
        Rect { min: Point { x: min_x, y: min_y }, max: Point { x: max_x, y: max_y } }
    }

    #[verifier::when_used_as_spec(spec_contains)]
    pub fn contains(&self, point: Point) -> (inside: bool)
        ensures
            inside == self.spec_contains(point),
    {
        self.min.x <= point.x && point.x <= self.max.x && self.min.y <= point.y && point.y
            <= self.max.y
    }
}

impl Vector {
    /// The displacement that moves nothing.
    pub open spec fn zero() -> Vector {
        Vector { x: 0, y: 0 }
    }

    /// The squared Euclidean length.
    pub open spec fn length_squared(self) -> int {
        self.x * self.x + self.y * self.y
    }

    /// The dot product with the offset `(a, b)`: positive when the two point the same way.
    pub open spec fn dot(self, a: int, b: int) -> int {
        self.x * a + self.y * b
    }

    /// The cross product with the offset `(a, b)`: zero when the two are parallel.
    pub open spec fn cross(self, a: int, b: int) -> int {
        self.x * b - self.y * a
    }
}

/// The squared Euclidean distance between two points.
pub open spec fn spec_distance_squared(point1: Point, point2: Point) -> int {
    (point1.x - point2.x) * (point1.x - point2.x) + (point1.y - point2.y) * (point1.y - point2.y)
}

/// The square of a coordinate difference cannot exceed `(2^32 - 1)^2`.
proof fn lemma_square_bound(d: int)
    requires
        -0xffff_ffff <= d <= 0xffff_ffff,
    ensures
        0 <= d * d <= 0xffff_fffe_0000_0001,
{
    assert(0 <= d * d <= 0xffff_fffe_0000_0001) by (nonlinear_arith)
        requires
            -0xffff_ffff <= d <= 0xffff_ffff,
    ;
}

pub fn distance_squared(point1: Point, point2: Point) -> (d: u128)
    ensures
        d == spec_distance_squared(point1, point2),
{
    let dx: i128 = point1.x as i128 - point2.x as i128;
    let dy: i128 = point1.y as i128 - point2.y as i128;
    proof {
        lemma_square_bound(dx as int);
        lemma_square_bound(dy as int);
    }
    (dx * dx + dy * dy) as u128
}

/// A centre with exact rational coordinates: the arithmetic mean of `count`
/// points, kept as the sums of their coordinates. Nothing is rounded.
#[derive(Clone, Copy, Debug, PartialEq, Eq, Structural)]
pub struct Centroid {
    pub(crate) sum_x: i128,
    pub(crate) sum_y: i128,
    pub(crate) count: usize,
}

/// A [`Centroid`] as contracts see it: the point `(sum_x / count, sum_y / count)`.
pub struct CentroidView {
    pub sum_x: int,
    pub sum_y: int,
    pub count: int,
}

impl CentroidView {
    /// `count * count` times the squared Euclidean distance from `point` to
    /// the centre. Of two points the one with the smaller value is nearer.
    pub open spec fn scaled_distance_squared(self, point: Point) -> int {
        (self.count * point.x - self.sum_x) * (self.count * point.x - self.sum_x) + (self.count
            * point.y - self.sum_y) * (self.count * point.y - self.sum_y)
    }

    /// The centre that lies on `point`.
    pub open spec fn at(point: Point) -> CentroidView {
        CentroidView { sum_x: point.x as int, sum_y: point.y as int, count: 1 }
    }
}

impl View for Centroid {
    type V = CentroidView;

    open(crate) spec fn view(&self) -> CentroidView {
        CentroidView {
            sum_x: self.sum_x as int,
            sum_y: self.sum_y as int,
            count: self.count as int,
        }
    }
}

impl Centroid {
    /// The mean is taken of at least one point, and the sums are those of
    /// `count` coordinates of the grid.
    #[verifier::type_invariant]
    pub open spec fn wf(&self) -> bool {
        &&& self@.count > 0
        &&& self@.count * i32::MIN <= self@.sum_x <= self@.count * i32::MAX
        &&& self@.count * i32::MIN <= self@.sum_y <= self@.count * i32::MAX
    }

    /// The centre that lies on `point`.
    pub fn at(point: Point) -> (c: Centroid)
        ensures
            c@ == CentroidView::at(point),
    {
        Centroid { sum_x: point.x as i128, sum_y: point.y as i128, count: 1 }
    }

    /// The sum of the x coordinates of the points whose mean this is.
    pub fn sum_x(&self) -> (s: i128)
        ensures
            s == self@.sum_x,
    {
        self.sum_x
    }

    /// The sum of the y coordinates of the points whose mean this is.
    pub fn sum_y(&self) -> (s: i128)
        ensures
            s == self@.sum_y,
    {
        self.sum_y
    }

    /// The number of points whose mean this is.
    pub fn count(&self) -> (n: usize)
        ensures
            n == self@.count,
            n > 0,
    {
        proof {
            use_type_invariant(self);
        }
        self.count
    }

    /// Whether `a` lies strictly nearer to the centre than `b`.
    pub fn is_nearer(&self, a: Point, b: Point) -> (r: bool)
        ensures
            r == (self@.scaled_distance_squared(a) < self@.scaled_distance_squared(b)),
    {
        proof {
            use_type_invariant(self);
            lemma_mean_in_range(self.sum_x as int, self.count as int);
            lemma_mean_in_range(self.sum_y as int, self.count as int);
        }
        let n: i128 = self.count as i128;
        // the centre is `(cx + rx / n, cy + ry / n)`
        let cx: i128 = floor_div(self.sum_x, n);
        let cy: i128 = floor_div(self.sum_y, n);
        assert(-0x1_0000_0000_0000_0000_0000_0000 <= n * cx <= 0x1_0000_0000_0000_0000_0000_0000
            && -0x1_0000_0000_0000_0000_0000_0000 <= n * cy
            <= 0x1_0000_0000_0000_0000_0000_0000) by (nonlinear_arith)
            requires
                0 < n <= 0xffff_ffff_ffff_ffff,
                -0x8000_0000 <= cx <= 0x7fff_ffff,
                -0x8000_0000 <= cy <= 0x7fff_ffff,
        ;
        let rx: i128 = self.sum_x - n * cx;
        let ry: i128 = self.sum_y - n * cy;
        let gax: i128 = a.x as i128 - cx;
        let gay: i128 = a.y as i128 - cy;
        let gbx: i128 = b.x as i128 - cx;
        let gby: i128 = b.y as i128 - cy;
        proof {
            lemma_square_bound(gax as int);
            lemma_square_bound(gay as int);
            lemma_square_bound(gbx as int);
            lemma_square_bound(gby as int);
        }
        let e: i128 = (gax * gax + gay * gay) - (gbx * gbx + gby * gby);
        let dx: i128 = a.x as i128 - b.x as i128;
        let dy: i128 = a.y as i128 - b.y as i128;
        assert(-0xffff_ffff * n <= dx * rx <= 0xffff_ffff * n) by (nonlinear_arith)
            requires
                -0xffff_ffff <= dx <= 0xffff_ffff,
                0 <= rx < n,
        ;
        assert(-0xffff_ffff * n <= dy * ry <= 0xffff_ffff * n) by (nonlinear_arith)
            requires
                -0xffff_ffff <= dy <= 0xffff_ffff,
                0 <= ry < n,
        ;
        let hx: i128 = dx * rx;
        let hy: i128 = dy * ry;
        let f: i128 = 2 * (hx + hy);
        assert(-4 * (0xffff_ffff * n) <= f <= 4 * (0xffff_ffff * n));
        proof {
            lemma_axis_difference(n as int, self.sum_x as int, cx as int, rx as int, a.x as int, b.x as int);
            lemma_axis_difference(n as int, self.sum_y as int, cy as int, ry as int, a.y as int, b.y as int);
            let da = self@.scaled_distance_squared(a);
            let db = self@.scaled_distance_squared(b);
            assert(da - db == n * (n * e - f)) by (nonlinear_arith)
                requires
                    da == (n * a.x - self.sum_x) * (n * a.x - self.sum_x) + (n * a.y - self.sum_y)
                        * (n * a.y - self.sum_y),
                    db == (n * b.x - self.sum_x) * (n * b.x - self.sum_x) + (n * b.y - self.sum_y)
                        * (n * b.y - self.sum_y),
                    (n * a.x - self.sum_x) * (n * a.x - self.sum_x) - (n * b.x - self.sum_x) * (n
                        * b.x - self.sum_x) == n * (n * (gax * gax - gbx * gbx) - 2 * (dx * rx)),
                    (n * a.y - self.sum_y) * (n * a.y - self.sum_y) - (n * b.y - self.sum_y) * (n
                        * b.y - self.sum_y) == n * (n * (gay * gay - gby * gby) - 2 * (dy * ry)),
                    e == (gax * gax + gay * gay) - (gbx * gbx + gby * gby),
                    f == 2 * (dx * rx + dy * ry),
            ;
            assert((da < db) == (n * e < f)) by (nonlinear_arith)
                requires
                    da - db == n * (n * e - f),
                    n > 0,
            ;
        }
        if e >= 0x4_0000_0000 {
            assert(n * e > f) by (nonlinear_arith)
                requires
                    e >= 0x4_0000_0000,
                    n > 0,
                    f <= 4 * (0xffff_ffff * n),
            ;
            false
        } else if e <= -0x4_0000_0000 {
            assert(n * e < f) by (nonlinear_arith)
                requires
                    e <= -0x4_0000_0000,
                    n > 0,
                    f >= -4 * (0xffff_ffff * n),
            ;
            true
        } else {
            assert(-0x4_0000_0000 * 0xffff_ffff_ffff_ffff <= n * e <= 0x4_0000_0000
                * 0xffff_ffff_ffff_ffff) by (nonlinear_arith)
                requires
                    0 < n <= 0xffff_ffff_ffff_ffff,
                    -0x4_0000_0000 < e < 0x4_0000_0000,
            ;
            n * e < f
        }
    }
}

/// On one axis: with the sum `s == n * c + r`, the difference of the scaled
/// squared distances of `pa` and `pb` from the mean `s / n`.
proof fn lemma_axis_difference(n: int, s: int, c: int, r: int, pa: int, pb: int)
    requires
        s == n * c + r,
    ensures
        (n * pa - s) * (n * pa - s) - (n * pb - s) * (n * pb - s) == n * (n * ((pa - c) * (pa - c)
            - (pb - c) * (pb - c)) - 2 * ((pa - pb) * r)),
{
    let ga = pa - c;
    let gb = pb - c;
    let xa = n * pa - s;
    let xb = n * pb - s;
    let d = pa - pb;
    let t = n * (ga + gb) - 2 * r;
    assert(xa == n * ga - r && xb == n * gb - r) by (nonlinear_arith)
        requires
            s == n * c + r,
            xa == n * pa - s,
            xb == n * pb - s,
            ga == pa - c,
            gb == pb - c,
    ;
    assert(xa - xb == n * d && xa + xb == t) by (nonlinear_arith)
        requires
            xa == n * ga - r,
            xb == n * gb - r,
            d == ga - gb,
            t == n * (ga + gb) - 2 * r,
    ;
    assert(xa * xa - xb * xb == (xa - xb) * (xa + xb)) by (nonlinear_arith);
    assert((n * d) * t == n * (d * t)) by (nonlinear_arith);
    assert(d * (ga + gb) == ga * ga - gb * gb) by (nonlinear_arith)
        requires
            d == ga - gb,
    ;
    assert(d * t == n * (d * (ga + gb)) - 2 * (d * r)) by (nonlinear_arith)
        requires
            t == n * (ga + gb) - 2 * r,
    ;
}

/// The squared distance from a point is the scaled squared distance from the
/// centre that lies on it.
pub proof fn lemma_distance_from_point(point: Point, center: Point)
    ensures
        CentroidView::at(center).scaled_distance_squared(point) == spec_distance_squared(
            point,
            center,
        ),
{
    assert(CentroidView::at(center).scaled_distance_squared(point) == spec_distance_squared(
        point,
        center,
    )) by (nonlinear_arith)
        requires
            CentroidView::at(center).scaled_distance_squared(point) == (1 * point.x - center.x) * (
            1 * point.x - center.x) + (1 * point.y - center.y) * (1 * point.y - center.y),
            spec_distance_squared(point, center) == (point.x - center.x) * (point.x - center.x) + (
            point.y - center.y) * (point.y - center.y),
    ;
}

/// `k` indexes, among the first `n` points, the first one that is nearest to `center`.
pub open spec fn is_first_nearest(points: Seq<Point>, center: CentroidView, n: int, k: int) -> bool {
    &&& 0 <= k < n <= points.len()
    &&& forall|j: int|
        0 <= j < n ==> center.scaled_distance_squared(points[k]) <= center.scaled_distance_squared(
            #[trigger] points[j],
        )
    &&& forall|j: int|
        0 <= j < k ==> center.scaled_distance_squared(points[k]) < center.scaled_distance_squared(
            #[trigger] points[j],
        )
}

/// The index of the first point of `points` that is nearest to `center`.
pub open spec fn closest_index(points: Seq<Point>, center: CentroidView) -> int {
    choose|k: int| is_first_nearest(points, center, points.len() as int, k)
}

/// The point of `points` nearest to `center`, the earliest one among equals;
/// `None` when there are no points.
pub open spec fn closest_element(points: Seq<Point>, center: CentroidView) -> Option<Point> {
    if points.len() == 0 {
        None
    } else {
        Some(points[closest_index(points, center)])
    }
}

/// Among the first `n` points only one index is the first nearest.
pub proof fn lemma_first_nearest_unique(
    points: Seq<Point>,
    center: CentroidView,
    n: int,
    k1: int,
    k2: int,
)
    requires
        is_first_nearest(points, center, n, k1),
        is_first_nearest(points, center, n, k2),
    ensures
        k1 == k2,
{
    if k1 < k2 {
        assert(center.scaled_distance_squared(points[k2]) < center.scaled_distance_squared(
            points[k1],
        ));
    } else if k2 < k1 {
        assert(center.scaled_distance_squared(points[k1]) < center.scaled_distance_squared(
            points[k2],
        ));
    }
}

/// Every non-empty sequence has a first nearest point.
pub proof fn lemma_closest_index_in_range(points: Seq<Point>, center: CentroidView)
    requires
        points.len() > 0,
    ensures
        is_first_nearest(points, center, points.len() as int, closest_index(points, center)),
        0 <= closest_index(points, center) < points.len(),
{
    lemma_first_nearest_exists(points, center, points.len() as int);
}

/// Among the first `n` points, `n` at least one, some index is the first nearest.
proof fn lemma_first_nearest_exists(points: Seq<Point>, center: CentroidView, n: int)
    requires
        0 < n <= points.len(),
    ensures
        exists|k: int| is_first_nearest(points, center, n, k),
    decreases n,
{
    if n == 1 {
        assert(is_first_nearest(points, center, n, 0));
    } else {
        let m = n - 1;
        lemma_first_nearest_exists(points, center, m);
        let k = choose|k: int| is_first_nearest(points, center, m, k);
        if center.scaled_distance_squared(points[n - 1]) < center.scaled_distance_squared(
            points[k],
        ) {
            assert(is_first_nearest(points, center, n, n - 1));
        } else {
            assert(is_first_nearest(points, center, n, k));
        }
    }
}

/// The point of `points` nearest to `center`, the earliest one among equals.
pub fn find_closest_element(points: &[Point], center: &Centroid) -> (r: Option<Point>)
    ensures
        r == closest_element(points@, center@),
        points@.len() > 0 ==> is_first_nearest(
            points@,
            center@,
            points@.len() as int,
            closest_index(points@, center@),
        ),
{
    if points.len() == 0 {
        return None;
    }
    let mut best: usize = 0;
    let mut i: usize = 1;
    while i < points.len()
        invariant
            1 <= i <= points.len(),
            best < i,
            is_first_nearest(points@, center@, i as int, best as int),
        decreases points.len() - i,
    {
        if center.is_nearer(points[i], points[best]) {
            best = i;
        }
        i += 1;
    }
    proof {
        let k = closest_index(points@, center@);
        lemma_first_nearest_unique(points@, center@, points@.len() as int, best as int, k);
    }
    Some(points[best])
}

} // verus!
