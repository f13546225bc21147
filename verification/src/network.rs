//! The rule by which a cell picks its displacement for a frame: one world unit
//! straight toward the attractor, each coordinate rounded toward zero to the
//! grid. The rounding costs less than a millionth of a unit, in length and
//! in direction.

use crate::arith::isqrt;
use crate::entities::Cell;
use crate::geometry::{Point, Vector, UNIT};
use vstd::arithmetic::div_mod::{lemma_fundamental_div_mod, lemma_mod_bound};
use vstd::math::abs;
use vstd::prelude::*;

verus! {

/// `c` is the coordinate of the unit displacement along an offset whose
/// coordinate on the same axis is `a` and on the other axis `b`: the exact
/// value `UNIT * a / sqrt(a * a + b * b)`, rounded toward zero.
pub open spec fn is_unit_component(c: int, a: int, b: int) -> bool {
    let m = abs(c);
    let len_sq = a * a + b * b;
    &&& a > 0 ==> c >= 0
    &&& a < 0 ==> c <= 0
    &&& a == 0 ==> c == 0
    &&& a != 0 ==> m * m * len_sq <= UNIT * UNIT * (a * a) < (m + 1) * (m + 1) * len_sq
}

/// The coordinate of the unit displacement along the offset `(a, b)`, on the axis of `a`.
pub open spec fn unit_component(a: int, b: int) -> int {
    choose|c: int| is_unit_component(c, a, b)
}

/// The displacement of one world unit from `from` toward `to`, or no
/// displacement when the two coincide.
pub open spec fn direction(from: Point, to: Point) -> Vector {
    Vector {
        x: unit_component(to.x - from.x, to.y - from.y) as i32,
        y: unit_component(to.y - from.y, to.x - from.x) as i32,
    }
}

/// An offset has only one unit coordinate on each axis.
pub proof fn lemma_unit_component_unique(c1: int, c2: int, a: int, b: int)
    requires
        is_unit_component(c1, a, b),
        is_unit_component(c2, a, b),
    ensures
        c1 == c2,
{
    if a != 0 {
        let m1 = abs(c1);
        let m2 = abs(c2);
        let len_sq = a * a + b * b;
        assert(len_sq > 0) by (nonlinear_arith)
            requires
                a != 0,
                len_sq == a * a + b * b,
        ;
        if m1 < m2 {
            assert((m1 + 1) * (m1 + 1) * len_sq <= m2 * m2 * len_sq) by (nonlinear_arith)
                requires
                    0 <= m1 + 1 <= m2,
                    len_sq > 0,
            ;
        } else if m2 < m1 {
            assert((m2 + 1) * (m2 + 1) * len_sq <= m1 * m1 * len_sq) by (nonlinear_arith)
                requires
                    0 <= m2 + 1 <= m1,
                    len_sq > 0,
            ;
        }
    }
}

/// One coordinate of the unit displacement along the offset `(a, b)`.
fn unit_part(a: i64, b: i64) -> (c: i32)
    requires
        -0xffff_ffff <= a <= 0xffff_ffff,
        -0xffff_ffff <= b <= 0xffff_ffff,
    ensures
        is_unit_component(c as int, a as int, b as int),
        c == unit_component(a as int, b as int),
        -UNIT <= c <= UNIT,
{
    if a == 0 {
        proof {
            assert(is_unit_component(0, a as int, b as int));
            lemma_unit_component_unique(0, unit_component(a as int, b as int), a as int, b as int);
        }
        return 0;
    }
    assert(0 < a * a <= 0xffff_fffe_0000_0001 && 0 <= b * b <= 0xffff_fffe_0000_0001)
        by (nonlinear_arith)
        requires
            a != 0,
            -0xffff_ffff <= a <= 0xffff_ffff,
            -0xffff_ffff <= b <= 0xffff_ffff,
    ;
    let aa: u128 = (a as i128 * a as i128) as u128;
    let bb: u128 = (b as i128 * b as i128) as u128;
    let len_sq: u128 = aa + bb;
    let scale: u128 = (UNIT as u128) * (UNIT as u128);
    assert(scale * aa <= 0x400_0000_0000 * 0xffff_fffe_0000_0001) by (nonlinear_arith)
        requires
            scale == 0x400_0000_0000,
            0 <= aa <= 0xffff_fffe_0000_0001,
    ;
    let num: u128 = scale * aa;
    let q: u128 = num / len_sq;
    proof {
        lemma_fundamental_div_mod(num as int, len_sq as int);
        lemma_mod_bound(num as int, len_sq as int);
        assert(q <= scale) by (nonlinear_arith)
            requires
                num == len_sq * q + num % len_sq,
                0 <= num % len_sq,
                num == scale * aa,
                0 < aa <= len_sq,
                scale >= 0,
        ;
    }
    let m: u64 = isqrt(q as u64);
    proof {
        let mi = m as int;
        let l = len_sq as int;
        let r = num as int % l;
        assert(mi <= UNIT) by (nonlinear_arith)
            requires
                mi * mi <= q,
                q <= 0x20_0000 * 0x20_0000,
                mi >= 0,
                UNIT == 0x20_0000,
        ;
        assert(mi * mi * l <= q * l) by (nonlinear_arith)
            requires
                mi * mi <= q,
                l > 0,
        ;
        assert((q + 1) * l <= (mi + 1) * (mi + 1) * l) by (nonlinear_arith)
            requires
                q + 1 <= (mi + 1) * (mi + 1),
                l > 0,
        ;
        assert(q * l <= num < (q + 1) * l) by (nonlinear_arith)
            requires
                num == l * q + r,
                0 <= r < l,
        ;
        assert(UNIT * UNIT * (a * a) == num);
        assert(l == a * a + b * b);
    }
    let c: i32 = if a < 0 {
        -(m as i32)
    } else {
        m as i32
    };
    proof {
        assert(abs(c as int) == m);
        assert(is_unit_component(c as int, a as int, b as int));
        lemma_unit_component_unique(
            c as int,
            unit_component(a as int, b as int),
            a as int,
            b as int,
        );
    }
    c
}

/// `v` is a step of one world unit along the offset `(a, b)`, to within a
/// millionth: nothing when the offset is nothing; otherwise no longer than
/// one unit and less than a millionth of a unit short of it, pointing the way
/// of the offset, and off its line by less than a millionth.
pub open spec fn is_unit_step(v: Vector, a: int, b: int) -> bool {
    if a == 0 && b == 0 {
        v == Vector::zero()
    } else {
        &&& v.length_squared() <= UNIT * UNIT
        &&& 999_999 * 999_999 * (UNIT * UNIT) < 1_000_000 * 1_000_000 * v.length_squared()
        &&& v.dot(a, b) > 0
        &&& 1_000_000 * 1_000_000 * (v.cross(a, b) * v.cross(a, b)) <= UNIT * UNIT * (a * a + b
            * b)
    }
}

/// The displacement of one world unit from `from` toward `to`.
pub fn step_toward(from: Point, to: Point) -> (v: Vector)
    ensures
        v == direction(from, to),
        is_unit_component(v.x as int, to.x - from.x, to.y - from.y),
        is_unit_component(v.y as int, to.y - from.y, to.x - from.x),
        is_unit_step(v, to.x - from.x, to.y - from.y),
{
    let dx: i64 = to.x as i64 - from.x as i64;
    let dy: i64 = to.y as i64 - from.y as i64;
    proof {
        lemma_direction_is_unit_step(from, to);
    }
    Vector { x: unit_part(dx, dy), y: unit_part(dy, dx) }
}

/// A behaviour that turns a position and a target into the displacement for one frame.
pub trait CapNetwork {
    /// The displacement for one frame; never longer than one world unit.
    fn activate(&mut self, position: Point, center_of_mass: Point) -> (v: Vector)
        ensures
            v.length_squared() <= UNIT * UNIT,
    ;
}

impl CapNetwork for Cell {
    /// One world unit straight toward `center_of_mass`; the cell itself is left as it was.
    fn activate(&mut self, position: Point, center_of_mass: Point) -> (v: Vector)
        ensures
            v == direction(position, center_of_mass),
            is_unit_step(v, center_of_mass.x - position.x, center_of_mass.y - position.y),
            *final(self) == *old(self),
    {
        let v = step_toward(position, center_of_mass);
        proof {
            lemma_direction_length(position, center_of_mass);
        }
        v
    }
}

/// The coordinates of `direction(from, to)` are the unit coordinates of the offset.
pub proof fn lemma_direction_components(from: Point, to: Point)
    ensures
        is_unit_component(direction(from, to).x as int, to.x - from.x, to.y - from.y),
        is_unit_component(direction(from, to).y as int, to.y - from.y, to.x - from.x),
        -UNIT <= unit_component(to.x - from.x, to.y - from.y) <= UNIT,
        -UNIT <= unit_component(to.y - from.y, to.x - from.x) <= UNIT,
{
    let a = to.x - from.x;
    let b = to.y - from.y;
    lemma_unit_component_exists(a, b);
    lemma_unit_component_exists(b, a);
}

/// Every offset has a unit coordinate on each axis, no longer than one world unit.
pub proof fn lemma_unit_component_exists(a: int, b: int)
    ensures
        is_unit_component(unit_component(a, b), a, b),
        -UNIT <= unit_component(a, b) <= UNIT,
{
    if a == 0 {
        assert(is_unit_component(0, a, b));
    } else {
        let len_sq = a * a + b * b;
        let n = UNIT * UNIT * (a * a);
        assert(0 < a * a <= len_sq && 0 <= n <= UNIT * UNIT * len_sq) by (nonlinear_arith)
            requires
                a != 0,
                len_sq == a * a + b * b,
                n == UNIT * UNIT * (a * a),
        ;
        let m = lemma_greatest_magnitude(n, len_sq, UNIT as int);
        let c = if a < 0 {
            -m
        } else {
            m
        };
        assert(abs(c) == m);
        assert(is_unit_component(c, a, b));
    }
    let c = unit_component(a, b);
    if a != 0 {
        let m = abs(c);
        let len_sq = a * a + b * b;
        assert(m <= UNIT) by (nonlinear_arith)
            requires
                m >= 0,
                m * m * len_sq <= UNIT * UNIT * (a * a),
                len_sq == a * a + b * b,
                a != 0,
                UNIT == 0x20_0000,
        ;
    }
}

/// For `0 <= n <= bound * bound * l` some `m` up to `bound` has
/// `m * m * l <= n < (m + 1) * (m + 1) * l`.
proof fn lemma_greatest_magnitude(n: int, l: int, bound: int) -> (m: int)
    requires
        l > 0,
        bound >= 0,
        0 <= n <= bound * bound * l,
    ensures
        0 <= m <= bound,
        m * m * l <= n < (m + 1) * (m + 1) * l,
    decreases bound,
{
    if bound * bound * l <= n {
        assert(n < (bound + 1) * (bound + 1) * l) by (nonlinear_arith)
            requires
                n <= bound * bound * l,
                l > 0,
                bound >= 0,
        ;
        bound
    } else {
        assert(bound > 0) by (nonlinear_arith)
            requires
                bound >= 0,
                n >= 0,
                n < bound * bound * l,
        ;
        if n < (bound - 1) * (bound - 1) * l {
            lemma_greatest_magnitude(n, l, bound - 1)
        } else {
            assert((bound - 1 + 1) * (bound - 1 + 1) * l == bound * bound * l);
            bound - 1
        }
    }
}

/// A cell that stands on its target does not move.
pub proof fn lemma_direction_at_target(p: Point)
    ensures
        direction(p, p) == Vector::zero(),
        direction(p, p).length_squared() == 0,
{
    lemma_direction_components(p, p);
}

/// What the coordinates of a displacement toward a distinct point satisfy,
/// in terms of their magnitudes `u` and `w` and the magnitudes of the offset.
proof fn lemma_direction_magnitudes(from: Point, to: Point) -> (m: (int, int))
    requires
        from != to,
    ensures
        ({
            let (u, w) = m;
            let v = direction(from, to);
            let a = to.x - from.x;
            let b = to.y - from.y;
            let l = a * a + b * b;
            let s = UNIT * UNIT;
            &&& l > 0
            &&& u == abs(v.x as int)
            &&& w == abs(v.y as int)
            &&& v.x == if a < 0 { -u } else { u }
            &&& v.y == if b < 0 { -w } else { w }
            &&& a == 0 ==> u == 0
            &&& b == 0 ==> w == 0
            &&& u * u * l <= s * (a * a) < (u + 1) * (u + 1) * l
            &&& w * w * l <= s * (b * b) < (w + 1) * (w + 1) * l
        }),
{
    lemma_direction_components(from, to);
    let a = to.x - from.x;
    let b = to.y - from.y;
    let v = direction(from, to);
    let u = abs(v.x as int);
    let w = abs(v.y as int);
    let l = a * a + b * b;
    let s: int = UNIT * UNIT;
    assert(l > 0) by (nonlinear_arith)
        requires
            l == a * a + b * b,
            a != 0 || b != 0,
    ;
    assert(u * u * l <= s * (a * a) < (u + 1) * (u + 1) * l) by (nonlinear_arith)
        requires
            l > 0,
            a == 0 ==> u == 0,
            a != 0 ==> u * u * l <= s * (a * a) < (u + 1) * (u + 1) * l,
    ;
    assert(w * w * l <= s * (b * b) < (w + 1) * (w + 1) * l) by (nonlinear_arith)
        requires
            l > 0,
            b == 0 ==> w == 0,
            b != 0 ==> w * w * l <= s * (b * b) < (w + 1) * (w + 1) * l,
    ;
    (u as int, w as int)
}

/// A displacement is either nothing, exactly when the cell stands on its
/// target, or one world unit long: at most `UNIT` grid steps and more than
/// `UNIT - 2`, which is within a millionth of a unit.
pub proof fn lemma_direction_length(from: Point, to: Point)
    ensures
        from == to ==> direction(from, to) == Vector::zero(),
        from != to ==> (UNIT - 2) * (UNIT - 2) < direction(from, to).length_squared(),
        from != to ==> 999_999 * 999_999 * (UNIT * UNIT) < 1_000_000 * 1_000_000 * direction(
            from,
            to,
        ).length_squared(),
        direction(from, to).length_squared() <= UNIT * UNIT,
{
    if from == to {
        lemma_direction_at_target(from);
    } else {
        let (u, w) = lemma_direction_magnitudes(from, to);
        let a = to.x - from.x;
        let b = to.y - from.y;
        let v = direction(from, to);
        let l = a * a + b * b;
        let s: int = UNIT * UNIT;
        assert(v.length_squared() == u * u + w * w) by (nonlinear_arith)
            requires
                v.length_squared() == v.x * v.x + v.y * v.y,
                u == abs(v.x as int),
                w == abs(v.y as int),
        ;
        assert((u * u + w * w) * l <= s * l < ((u + 1) * (u + 1) + (w + 1) * (w + 1)) * l)
            by (nonlinear_arith)
            requires
                u * u * l <= s * (a * a) < (u + 1) * (u + 1) * l,
                w * w * l <= s * (b * b) < (w + 1) * (w + 1) * l,
                l == a * a + b * b,
        ;
        assert(u * u + w * w <= s < (u + 1) * (u + 1) + (w + 1) * (w + 1)) by (nonlinear_arith)
            requires
                (u * u + w * w) * l <= s * l < ((u + 1) * (u + 1) + (w + 1) * (w + 1)) * l,
                l > 0,
        ;
        assert(u + w <= 2965821) by (nonlinear_arith)
            requires
                u >= 0,
                w >= 0,
                u * u + w * w <= 0x20_0000 * 0x20_0000,
        ;
        assert((u + 1) * (u + 1) + (w + 1) * (w + 1) == u * u + w * w + 2 * (u + w) + 2)
            by (nonlinear_arith);
        let n = u * u + w * w;
        assert(s == 4398046511104) by (nonlinear_arith)
            requires
                s == UNIT * UNIT,
                UNIT == 0x20_0000,
        ;
        assert(n > s - 5931644);
        assert(999_999 * 999_999 * s < 1_000_000 * 1_000_000 * n) by (nonlinear_arith)
            requires
                s == 4398046511104,
                n > s - 5931644,
        ;
        assert((UNIT - 2) * (UNIT - 2) == s - 8388604) by (nonlinear_arith)
            requires
                s == 4398046511104,
                UNIT == 0x20_0000,
        ;
    }
}

/// Every displacement is a step of one unit along its offset, to within a millionth.
pub proof fn lemma_direction_is_unit_step(from: Point, to: Point)
    ensures
        is_unit_step(direction(from, to), to.x - from.x, to.y - from.y),
{
    lemma_direction_length(from, to);
    if from != to {
        lemma_direction_along_offset(from, to);
    }
}

/// From `x * x * l <= y * y * l` with `l` positive and `x`, `y` not negative follows `x <= y`.
proof fn lemma_square_order(x: int, y: int, l: int)
    requires
        0 <= x,
        0 <= y,
        0 < l,
        x * x * l <= y * y * l,
    ensures
        x <= y,
{
    if x > y {
        assert(x * x * l > y * y * l) by (nonlinear_arith)
            requires
                0 <= y < x,
                0 < l,
        ;
    }
}

/// A displacement points along the offset toward the target: the two point
/// the same way, and their cross product is no more than the length of the
/// offset times one grid step, which is within a millionth of the offset's
/// length times one unit.
pub proof fn lemma_direction_along_offset(from: Point, to: Point)
    requires
        from != to,
    ensures
        ({
            let v = direction(from, to);
            let a = to.x - from.x;
            let b = to.y - from.y;
            &&& v.dot(a, b) > 0
            &&& v.cross(a, b) * v.cross(a, b) <= a * a + b * b
            &&& 1_000_000 * 1_000_000 * (v.cross(a, b) * v.cross(a, b)) <= UNIT * UNIT * (a * a
                + b * b)
        }),
{
    let (u, w) = lemma_direction_magnitudes(from, to);
    lemma_direction_length(from, to);
    let v = direction(from, to);
    let a = to.x - from.x;
    let b = to.y - from.y;
    let aa = abs(a) as int;
    let bb = abs(b) as int;
    let l = a * a + b * b;
    let s: int = UNIT * UNIT;
    let c = v.cross(a, b);
    let k = u * bb - w * aa;
    assert(a * a == aa * aa && b * b == bb * bb) by (nonlinear_arith)
        requires
            aa == abs(a),
            bb == abs(b),
    ;
    // the cross product and the dot product in terms of the magnitudes
    assert(c == k || c == -k) by (nonlinear_arith)
        requires
            c == v.x * b - v.y * a,
            k == u * bb - w * aa,
            v.x == if a < 0 { -u } else { u },
            v.y == if b < 0 { -w } else { w },
            aa == abs(a),
            bb == abs(b),
    ;
    assert(v.dot(a, b) == u * aa + w * bb) by (nonlinear_arith)
        requires
            v.dot(a, b) == v.x * a + v.y * b,
            v.x == if a < 0 { -u } else { u },
            v.y == if b < 0 { -w } else { w },
            aa == abs(a),
            bb == abs(b),
    ;
    assert(v.length_squared() == u * u + w * w) by (nonlinear_arith)
        requires
            v.length_squared() == v.x * v.x + v.y * v.y,
            u == abs(v.x as int),
            w == abs(v.y as int),
    ;
    assert((UNIT - 2) * (UNIT - 2) >= 0) by (nonlinear_arith);
    assert(u * aa + w * bb > 0) by (nonlinear_arith)
        requires
            u >= 0,
            w >= 0,
            aa >= 0,
            bb >= 0,
            aa == 0 ==> u == 0,
            bb == 0 ==> w == 0,
            u * u + w * w > 0,
    ;
    // u * bb <= (w + 1) * aa
    assert((u * bb) * (u * bb) * l <= ((w + 1) * aa) * ((w + 1) * aa) * l) by (nonlinear_arith)
        requires
            u * u * l <= s * (aa * aa),
            s * (bb * bb) < (w + 1) * (w + 1) * l,
            aa >= 0,
            bb >= 0,
    ;
    lemma_square_order(u * bb, (w + 1) * aa, l);
    // w * aa <= (u + 1) * bb
    assert((w * aa) * (w * aa) * l <= ((u + 1) * bb) * ((u + 1) * bb) * l) by (nonlinear_arith)
        requires
            w * w * l <= s * (bb * bb),
            s * (aa * aa) < (u + 1) * (u + 1) * l,
            aa >= 0,
            bb >= 0,
    ;
    lemma_square_order(w * aa, (u + 1) * bb, l);
    assert(-bb <= k <= aa) by (nonlinear_arith)
        requires
            k == u * bb - w * aa,
            u * bb <= (w + 1) * aa,
            w * aa <= (u + 1) * bb,
    ;
    assert(k * k <= aa * aa + bb * bb) by (nonlinear_arith)
        requires
            -bb <= k <= aa,
            aa >= 0,
            bb >= 0,
    ;
    assert(c * c == k * k) by (nonlinear_arith)
        requires
            c == k || c == -k,
    ;
    assert(0 <= c * c) by (nonlinear_arith);
    assert(c * c <= l);
    assert(s == 4398046511104) by (nonlinear_arith)
        requires
            s == UNIT * UNIT,
            UNIT == 0x20_0000,
    ;
    assert(1_000_000 * 1_000_000 * (c * c) <= s * l) by (nonlinear_arith)
        requires
            0 <= c * c <= l,
            s == 4398046511104,
    ;
}

} // verus!
