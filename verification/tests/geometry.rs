use game_cap::attractor::{centroid, compute_attractor};
use game_cap::geometry::{
    distance_squared, find_closest_element, Centroid, Point, Rect, MAX_UNITS, UNIT,
};
use game_cap::world_board::{WorldBoard, STANDARD_HALF_SIDE};

fn p(x: i32, y: i32) -> Point {
    Point::new(x, y)
}

fn at(x: i32, y: i32) -> Centroid {
    Centroid::at(p(x, y))
}

fn sums(center: Option<Centroid>) -> Option<(i128, i128, usize)> {
    center.map(|c| (c.sum_x(), c.sum_y(), c.count()))
}

#[test]
fn unit_is_two_to_the_21_grid_steps() {
    assert_eq!(UNIT, 2_097_152);
    assert_eq!(MAX_UNITS, 1023);
    assert_eq!(Point::from_units(-250, 3), Some(p(-524_288_000, 6_291_456)));
    assert_eq!(Point::default(), p(0, 0));
}

#[test]
fn from_units_stays_on_the_grid() {
    assert_eq!(Point::from_units(1023, -1024), Some(p(1023 * UNIT, i32::MIN)));
    assert_eq!(Point::from_units(1024, 0), None);
    assert_eq!(Point::from_units(0, -1025), None);
    assert_eq!(Point::from_units(i16::MAX, i16::MIN), None);
}

#[test]
fn distance_squared_of_a_3_4_triangle() {
    assert_eq!(distance_squared(p(0, 0), p(3, 4)), 25);
    assert_eq!(distance_squared(p(3, 4), p(0, 0)), 25);
    assert_eq!(distance_squared(p(-2, 7), p(-2, 7)), 0);
}

#[test]
fn distance_squared_across_the_whole_grid() {
    let far = distance_squared(p(i32::MIN, i32::MIN), p(i32::MAX, i32::MAX));
    assert_eq!(far, 36_893_488_130_239_234_050u128);
}

#[test]
fn closest_element_of_nothing_is_none() {
    assert_eq!(find_closest_element(&[], &at(0, 0)), None);
}

#[test]
fn closest_element_is_the_nearest() {
    let points = [p(5, 5), p(1, 1), p(2, 2)];
    assert_eq!(find_closest_element(&points, &at(0, 0)), Some(p(1, 1)));
    assert_eq!(find_closest_element(&points, &at(4, 4)), Some(p(5, 5)));
}

#[test]
fn closest_element_among_equals_is_the_first() {
    let points = [p(1, 0), p(0, 1), p(-1, 0), p(0, -1)];
    assert_eq!(find_closest_element(&points, &at(0, 0)), Some(p(1, 0)));
    let reversed = [p(0, -1), p(-1, 0), p(0, 1), p(1, 0)];
    assert_eq!(find_closest_element(&reversed, &at(0, 0)), Some(p(0, -1)));
}

#[test]
fn rect_new_orders_its_corners() {
    let r = Rect::new(5, 7, -1, 2);
    assert_eq!(r.min, p(-1, 2));
    assert_eq!(r.max, p(5, 7));
}

#[test]
fn rect_contains_its_border() {
    let r = Rect::new(-10, -20, 10, 20);
    assert!(r.contains(p(0, 0)));
    assert!(r.contains(p(-10, -20)));
    assert!(r.contains(p(10, 20)));
    assert!(r.contains(p(10, -20)));
    assert!(!r.contains(p(11, 0)));
    assert!(!r.contains(p(0, 21)));
    assert!(!r.contains(p(-11, 0)));
    assert!(!r.contains(p(0, -21)));
}

#[test]
fn board_needs_width_and_height() {
    assert!(WorldBoard::new(Rect::new(0, 0, 0, 5)).is_none());
    assert!(WorldBoard::new(Rect::new(0, 3, 5, 3)).is_none());
    assert!(WorldBoard::new(Rect { min: p(4, 4), max: p(1, 9) }).is_none());
    let board = WorldBoard::new(Rect::new(0, 0, 1, 1)).unwrap();
    assert_eq!(board.rect(), Rect::new(0, 0, 1, 1));
    assert_eq!(board.settings().rect(), Rect::new(0, 0, 1, 1));
}

#[test]
fn standard_board_is_500_units_square() {
    assert_eq!(STANDARD_HALF_SIDE, 524_288_000);
    let rect = WorldBoard::standard().rect();
    assert_eq!(Some(rect.min), Point::from_units(-250, -250));
    assert_eq!(Some(rect.max), Point::from_units(250, 250));
}

#[test]
fn centroid_is_the_exact_mean() {
    assert_eq!(sums(centroid(&[])), None);
    assert_eq!(sums(centroid(&[p(0, 0), p(10, 0), p(20, 31)])), Some((30, 31, 3)));
    assert_eq!(sums(centroid(&[p(7, -9)])), Some((7, -9, 1)));
    assert_eq!(sums(centroid(&[p(-1, -1), p(0, 0)])), Some((-1, -1, 2)));
    assert_eq!(sums(Some(at(5, -6))), Some((5, -6, 1)));
}

#[test]
fn centroid_of_the_far_corners() {
    let corners = [p(i32::MIN, i32::MAX), p(i32::MAX, i32::MIN)];
    assert_eq!(sums(centroid(&corners)), Some((-1, -1, 2)));
    let same = [p(i32::MAX, i32::MIN); 5];
    assert_eq!(
        sums(centroid(&same)),
        Some((5 * i32::MAX as i128, 5 * i32::MIN as i128, 5))
    );
}

#[test]
fn is_nearer_compares_exact_distances() {
    let half = centroid(&[p(0, 0), p(1, 0)]).unwrap();
    assert!(!half.is_nearer(p(0, 0), p(1, 0)));
    assert!(!half.is_nearer(p(1, 0), p(0, 0)));
    assert!(half.is_nearer(p(1, 0), p(-1, 0)));
    assert!(half.is_nearer(p(0, 0), p(2, 0)));
    assert!(!half.is_nearer(p(2, 0), p(0, 0)));
    let third = centroid(&[p(0, 0), p(0, 0), p(1, 1)]).unwrap();
    assert!(third.is_nearer(p(0, 0), p(1, 1)));
    assert!(third.is_nearer(p(0, 1), p(1, 1)));
    assert!(!third.is_nearer(p(1, 0), p(0, 1)));
}

#[test]
fn is_nearer_across_the_whole_grid() {
    let far = centroid(&[p(i32::MIN, i32::MIN), p(i32::MAX, i32::MAX), p(i32::MAX, i32::MAX)])
        .unwrap();
    assert!(far.is_nearer(p(i32::MAX, i32::MAX), p(i32::MIN, i32::MIN)));
    assert!(!far.is_nearer(p(i32::MIN, i32::MIN), p(i32::MAX, i32::MAX)));
    assert!(far.is_nearer(p(i32::MAX, i32::MIN), p(i32::MIN, i32::MIN)));
    assert!(!far.is_nearer(p(i32::MAX, i32::MIN), p(i32::MIN, i32::MAX)));
    assert!(!far.is_nearer(p(i32::MIN, i32::MAX), p(i32::MAX, i32::MIN)));
    assert!(far.is_nearer(p(715_827_882, 715_827_882), p(715_827_883, 715_827_883)));
    assert!(!far.is_nearer(p(715_827_883, 715_827_883), p(715_827_882, 715_827_882)));
    let corner = at(i32::MIN, i32::MAX);
    assert!(corner.is_nearer(p(i32::MIN, i32::MAX), p(i32::MIN + 1, i32::MAX)));
    assert!(corner.is_nearer(p(0, 0), p(i32::MAX, i32::MIN)));
    assert!(!corner.is_nearer(p(i32::MAX, i32::MIN), p(0, 0)));
}

#[test]
fn attractor_of_no_seeds_is_none() {
    assert_eq!(compute_attractor(&[]), None);
}

#[test]
fn attractor_of_a_single_seed_is_that_seed() {
    assert_eq!(compute_attractor(&[p(7, -9)]), Some(p(7, -9)));
    assert_eq!(compute_attractor(&[p(i32::MIN, i32::MAX)]), Some(p(i32::MIN, i32::MAX)));
}

#[test]
fn attractor_is_the_seed_nearest_to_the_centroid() {
    let seeds = [p(0, 0), p(10, 0), p(2, 1)];
    assert_eq!(sums(centroid(&seeds)), Some((12, 1, 3)));
    assert_eq!(compute_attractor(&seeds), Some(p(2, 1)));
}

#[test]
fn attractor_is_one_of_the_seeds() {
    let seeds = [p(-40, 12), p(33, -7), p(1000, 1000), p(-5, -5), p(64, 64)];
    let found = compute_attractor(&seeds).unwrap();
    assert!(seeds.contains(&found));
    assert_eq!(found, p(64, 64));
}

#[test]
fn attractor_among_equals_is_the_first() {
    assert_eq!(compute_attractor(&[p(0, 0), p(2, 0)]), Some(p(0, 0)));
    assert_eq!(compute_attractor(&[p(2, 0), p(0, 0)]), Some(p(2, 0)));
}

#[test]
fn attractor_of_two_seeds_is_the_older() {
    assert_eq!(compute_attractor(&[p(1, 0), p(0, 0)]), Some(p(1, 0)));
    assert_eq!(compute_attractor(&[p(0, 0), p(1, 0)]), Some(p(0, 0)));
    assert_eq!(compute_attractor(&[p(-3, 8), p(4, -5)]), Some(p(-3, 8)));
    let corners = [p(i32::MAX, i32::MAX), p(i32::MIN, i32::MIN)];
    assert_eq!(compute_attractor(&corners), Some(p(i32::MAX, i32::MAX)));
    let other = [p(i32::MIN, i32::MIN), p(i32::MAX, i32::MAX)];
    assert_eq!(compute_attractor(&other), Some(p(i32::MIN, i32::MIN)));
}

#[test]
fn attractor_does_not_round_the_mean() {
    // the mean is (2/3, 1000/3): nearest is (1, 0), not (0, 0)
    assert_eq!(compute_attractor(&[p(1, 0), p(0, 0), p(1, 1000)]), Some(p(1, 0)));
    // the mean is (1/3, 0): nearest is (0, 0); (1, 0) comes first but lies further
    assert_eq!(compute_attractor(&[p(1, 0), p(0, 0), p(0, 0)]), Some(p(0, 0)));
    // the mean is (1/2, 1/2): all four corners tie, the first wins
    assert_eq!(compute_attractor(&[p(1, 1), p(0, 1), p(1, 0), p(0, 0)]), Some(p(1, 1)));
}

#[test]
fn attractor_agrees_with_a_plain_search() {
    let mut state = 3u64;
    let mut sample = move || {
        state = state.wrapping_mul(6_364_136_223_846_793_005).wrapping_add(1_442_695_040_888_963_407);
        ((state >> 33) % 2001) as i32 - 1000
    };
    for round in 1..300 {
        let spread = 1 + round % 7;
        let seeds: Vec<Point> =
            (0..round % 17 + 1).map(|_| p(sample() / spread, sample() / spread)).collect();
        let n = seeds.len() as i128;
        let sx: i128 = seeds.iter().map(|s| s.x as i128).sum();
        let sy: i128 = seeds.iter().map(|s| s.y as i128).sum();
        assert_eq!(sums(centroid(&seeds)), Some((sx, sy, seeds.len())));
        let scaled = |s: &Point| {
            (n * s.x as i128 - sx) * (n * s.x as i128 - sx)
                + (n * s.y as i128 - sy) * (n * s.y as i128 - sy)
        };
        let mut best = seeds[0];
        for seed in &seeds {
            if scaled(seed) < scaled(&best) {
                best = *seed;
            }
        }
        assert_eq!(compute_attractor(&seeds), Some(best));
        assert_eq!(find_closest_element(&seeds, &centroid(&seeds).unwrap()), Some(best));
    }
}

#[test]
fn closest_element_to_a_point_agrees_with_the_distance() {
    let points = [p(9, 9), p(-4, 3), p(3, -4), p(5, 0), p(i32::MAX, i32::MIN)];
    for center in [p(0, 0), p(4, 1), p(i32::MAX, i32::MIN), p(-1000, 1000)] {
        let mut best = points[0];
        for point in &points {
            if distance_squared(*point, center) < distance_squared(best, center) {
                best = *point;
            }
        }
        assert_eq!(find_closest_element(&points, &Centroid::at(center)), Some(best));
    }
}
