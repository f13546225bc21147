use game_cap::entities::Cell;
use game_cap::geometry::{Point, Vector, UNIT};
use game_cap::arith::{floor_div, isqrt};
use game_cap::network::{step_toward, CapNetwork};

fn p(x: i32, y: i32) -> Point {
    Point::new(x, y)
}

fn v(x: i32, y: i32) -> Vector {
    Vector { x, y }
}

fn length_squared(d: Vector) -> i64 {
    d.x as i64 * d.x as i64 + d.y as i64 * d.y as i64
}

#[test]
fn isqrt_rounds_down() {
    assert_eq!(isqrt(0), 0);
    assert_eq!(isqrt(1), 1);
    assert_eq!(isqrt(3), 1);
    assert_eq!(isqrt(4), 2);
    assert_eq!(isqrt(15), 3);
    assert_eq!(isqrt(16), 4);
    assert_eq!(isqrt(17), 4);
    assert_eq!(isqrt(1_048_575), 1023);
    assert_eq!(isqrt(1_048_576), 1024);
    assert_eq!(isqrt(u64::MAX), 4_294_967_295);
}

#[test]
fn floor_div_rounds_toward_negative_infinity() {
    assert_eq!(floor_div(7, 2), 3);
    assert_eq!(floor_div(-7, 2), -4);
    assert_eq!(floor_div(-8, 2), -4);
    assert_eq!(floor_div(-1, 5), -1);
    assert_eq!(floor_div(0, 5), 0);
    assert_eq!(floor_div(4, 5), 0);
    assert_eq!(floor_div(i128::MIN + 1, 1), i128::MIN + 1);
    assert_eq!(floor_div(i128::MAX, i128::MAX), 1);
    assert_eq!(floor_div(i128::MIN + 1, i128::MAX), -1);
    assert_eq!(floor_div(-3, i128::MAX), -1);
    assert_eq!(floor_div(i128::MIN, 1), i128::MIN);
    assert_eq!(floor_div(i128::MIN, i128::MAX), -2);
}

#[test]
fn step_on_the_target_is_zero() {
    assert_eq!(step_toward(p(0, 0), p(0, 0)), v(0, 0));
    assert_eq!(step_toward(p(-77, 1234), p(-77, 1234)), v(0, 0));
    assert_eq!(step_toward(p(i32::MAX, i32::MIN), p(i32::MAX, i32::MIN)), v(0, 0));
}

#[test]
fn step_along_an_axis_is_one_unit() {
    assert_eq!(step_toward(p(5, 5), p(5, 100)), v(0, UNIT));
    assert_eq!(step_toward(p(0, 0), p(-1, 0)), v(-UNIT, 0));
    assert_eq!(step_toward(p(0, 0), p(1, 0)), v(UNIT, 0));
    assert_eq!(step_toward(p(3, 9), p(3, -9)), v(0, -UNIT));
}

#[test]
fn step_along_a_3_4_offset() {
    assert_eq!(step_toward(p(0, 0), p(3 * UNIT, 4 * UNIT)), v(1_258_291, 1_677_721));
    assert_eq!(step_toward(p(0, 0), p(-3 * UNIT, 4 * UNIT)), v(-1_258_291, 1_677_721));
    assert_eq!(step_toward(p(0, 0), p(3, -4)), v(1_258_291, -1_677_721));
    assert_eq!(step_toward(p(10, 10), p(6, 7)), v(-1_677_721, -1_258_291));
}

#[test]
fn step_along_the_diagonal() {
    assert_eq!(step_toward(p(0, 0), p(1, 1)), v(1_482_910, 1_482_910));
    assert_eq!(step_toward(p(i32::MIN, i32::MIN), p(i32::MAX, i32::MAX)), v(1_482_910, 1_482_910));
    assert_eq!(step_toward(p(i32::MAX, i32::MAX), p(i32::MIN, i32::MIN)), v(-1_482_910, -1_482_910));
}

#[test]
fn step_along_a_nearly_flat_offset() {
    assert_eq!(step_toward(p(i32::MIN, 0), p(i32::MAX, 1)), v(2_097_151, 0));
    assert_eq!(step_toward(p(0, 0), p(1000, 1)), v(2_097_150, 2097));
}

#[test]
fn step_is_zero_or_one_unit_long() {
    let least = (UNIT as i64 - 2) * (UNIT as i64 - 2);
    let most = UNIT as i64 * UNIT as i64;
    for dx in -40..=40 {
        for dy in -40..=40 {
            let d = step_toward(p(17, -3), p(17 + dx * 13, -3 + dy * 7));
            if dx == 0 && dy == 0 {
                assert_eq!(d, v(0, 0));
            } else {
                let len = length_squared(d);
                assert!(least < len && len <= most, "{:?} has squared length {}", d, len);
            }
        }
    }
}

#[test]
fn cell_activation_is_the_step_toward_the_target() {
    let mut cell = Cell { id: 4, position: p(0, 0) };
    let d = cell.activate(p(0, 0), p(3 * UNIT, 4 * UNIT));
    assert_eq!(d, v(1_258_291, 1_677_721));
    assert_eq!(cell, Cell { id: 4, position: p(0, 0) });
    assert_eq!(cell.activate(p(9, 9), p(9, 9)), v(0, 0));
}

#[test]
fn cell_without_attractor_walks_to_the_origin() {
    let mut cell = Cell { id: 0, position: p(UNIT, 0) };
    assert_eq!(cell.activate(p(UNIT, 0), Point::default()), v(-UNIT, 0));
    assert_eq!(cell.activate(Point::default(), Point::default()), v(0, 0));
}

fn next_sample(state: &mut u64) -> i32 {
    *state = state.wrapping_mul(6_364_136_223_846_793_005).wrapping_add(1_442_695_040_888_963_407);
    (*state >> 32) as u32 as i32
}

#[test]
fn step_agrees_with_floating_point() {
    let mut state = 7u64;
    for round in 0..2000 {
        let shift = round % 31;
        let from = p(next_sample(&mut state) >> shift, next_sample(&mut state) >> shift);
        let to = p(next_sample(&mut state) >> shift, next_sample(&mut state) >> shift);
        let d = step_toward(from, to);
        let a = to.x as f64 - from.x as f64;
        let b = to.y as f64 - from.y as f64;
        let len = (a * a + b * b).sqrt();
        if len == 0.0 {
            assert_eq!(d, v(0, 0));
            continue;
        }
        let x = UNIT as f64 * a / len;
        let y = UNIT as f64 * b / len;
        assert!((d.x as f64 - x).abs() < 1.001, "{:?} -> {:?}: {:?} against {}", from, to, d, x);
        assert!((d.y as f64 - y).abs() < 1.001, "{:?} -> {:?}: {:?} against {}", from, to, d, y);
        assert!(d.x as f64 * a >= 0.0 && d.y as f64 * b >= 0.0);
        assert!((d.x as f64).abs() <= x.abs() + 0.001 && (d.y as f64).abs() <= y.abs() + 0.001);
    }
}

#[test]
fn isqrt_brackets_its_argument() {
    let mut state = 11u64;
    for round in 0..2000 {
        state = state.wrapping_mul(6_364_136_223_846_793_005).wrapping_add(round);
        let n = state >> (round % 64);
        let r = isqrt(n) as u128;
        assert!(r * r <= n as u128 && (n as u128) < (r + 1) * (r + 1));
    }
}

#[test]
fn step_between_neighbouring_grid_points() {
    assert_eq!(step_toward(p(0, 0), p(1, 2)), v(937_874, 1_875_749));
    assert_eq!(step_toward(p(1, 2), p(0, 0)), v(-937_874, -1_875_749));
}

#[test]
fn step_is_one_unit_long_within_a_millionth() {
    let mut state = 23u64;
    for round in 0..2000 {
        let shift = round % 31;
        let from = p(next_sample(&mut state) >> shift, next_sample(&mut state) >> shift);
        let to = p(next_sample(&mut state) >> shift, next_sample(&mut state) >> shift);
        if from == to {
            continue;
        }
        let d = step_toward(from, to);
        let x = d.x as f64 / UNIT as f64;
        let y = d.y as f64 / UNIT as f64;
        let length = (x * x + y * y).sqrt();
        assert!(length <= 1.0 && 1.0 - length <= 1e-6, "{:?} -> {:?}: length {}", from, to, length);
    }
    let d = step_toward(p(0, 0), p(1, 1));
    let length = ((d.x as f64).powi(2) + (d.y as f64).powi(2)).sqrt() / UNIT as f64;
    assert!((length - 1.0).abs() <= 1e-6);
}

#[test]
fn step_points_along_the_offset_within_a_millionth() {
    let mut state = 29u64;
    for round in 0..2000 {
        let shift = round % 31;
        let from = p(next_sample(&mut state) >> shift, next_sample(&mut state) >> shift);
        let to = p(next_sample(&mut state) >> shift, next_sample(&mut state) >> shift);
        if from == to {
            continue;
        }
        let d = step_toward(from, to);
        let x = d.x as f64 / UNIT as f64;
        let y = d.y as f64 / UNIT as f64;
        let a = (to.x as f64 - from.x as f64) / UNIT as f64;
        let b = (to.y as f64 - from.y as f64) / UNIT as f64;
        let offset = (a * a + b * b).sqrt();
        assert!(x * a + y * b > 0.0);
        assert!((x * b - y * a).abs() <= 1e-6 * offset, "{:?} -> {:?}: {:?}", from, to, d);
    }
    let d = step_toward(p(0, 0), p(UNIT, 2 * UNIT));
    let cross = (d.x as f64 * 2.0 - d.y as f64) / UNIT as f64;
    assert!(cross.abs() <= 1e-6 * 5.0_f64.sqrt());
}
