use game_cap::entities::{Cell, Departure, Seed};
use game_cap::events::{ButtonState, CollisionEvent, CollisionPolicy, PointerEvent};
use game_cap::geometry::{Point, UNIT};
use game_cap::metrics::WorldMetrics;
use game_cap::ring_buffer::RingBuffer;
use game_cap::world::World;
use game_cap::world_board::WorldBoard;

fn units(x: i16, y: i16) -> Point {
    Point::from_units(x, y).unwrap()
}

fn press(position: Point) -> PointerEvent {
    PointerEvent { state: ButtonState::Pressed, world_position: Some(position) }
}

fn samples(buffer: &RingBuffer<usize>) -> Vec<usize> {
    let mut out = Vec::new();
    let mut it = buffer.iter();
    while let Some(item) = it.next() {
        out.push(*item);
    }
    out
}

#[test]
fn frame_spawns_then_moves_then_samples() {
    let mut world = World::new(WorldBoard::standard(), CollisionPolicy::BoxOverlap);
    let mut metrics = WorldMetrics::new();
    assert_eq!(world.add_seed(units(20, 0)), Some(0));
    let report = world.tick(&[press(units(0, 0)), press(units(999, 0))], &[], &mut metrics);
    assert_eq!(report.spawned, vec![1]);
    assert_eq!(report.culled, Vec::<Departure>::new());
    assert_eq!(report.consumed, Vec::<u64>::new());
    assert_eq!(world.cells(), &[Cell { id: 1, position: units(1, 0) }]);
    assert_eq!(world.seeds(), &[Seed { id: 0, position: units(20, 0) }]);
    assert_eq!(samples(&metrics.cells_count), vec![0, 1]);
    assert_eq!(samples(&metrics.seeds_count), vec![0, 1]);
}

#[test]
fn cell_reaches_the_seed_and_consumes_it() {
    let mut world = World::new(WorldBoard::standard(), CollisionPolicy::BoxOverlap);
    let mut metrics = WorldMetrics::new();
    world.add_seed(units(20, 0));
    world.spawn_cell(units(0, 0));
    for frame in 1..=10 {
        let report = world.tick(&[], &[], &mut metrics);
        assert_eq!(report.consumed, Vec::<u64>::new());
        assert_eq!(world.cells(), &[Cell { id: 1, position: units(frame, 0) }]);
    }
    let report = world.tick(&[], &[], &mut metrics);
    assert_eq!(report.consumed, vec![0]);
    assert_eq!(world.cells(), &[Cell { id: 1, position: units(11, 0) }]);
    assert_eq!(world.seed_count(), 0);
    assert_eq!(metrics.seeds_count.get_last(), Some(&0));
    assert_eq!(metrics.cells_count.get_last(), Some(&1));
    let report = world.tick(&[], &[], &mut metrics);
    assert_eq!(report.consumed, Vec::<u64>::new());
    assert_eq!(world.cells(), &[Cell { id: 1, position: units(10, 0) }]);
}

#[test]
fn box_overlap_policy_ignores_contact_events() {
    let mut world = World::new(WorldBoard::standard(), CollisionPolicy::BoxOverlap);
    let mut metrics = WorldMetrics::new();
    world.add_seed(units(100, 100));
    world.spawn_cell(units(0, 0));
    let report = world.tick(&[], &[CollisionEvent::Started(0, 1)], &mut metrics);
    assert_eq!(report.consumed, Vec::<u64>::new());
    assert_eq!(world.seed_count(), 1);
    assert_eq!(world.resolve(&[], &[CollisionEvent::Started(0, 1)]), Vec::<u64>::new());
}

#[test]
fn contact_events_policy_ignores_box_overlap() {
    let mut world = World::new(WorldBoard::standard(), CollisionPolicy::ContactEvents);
    let mut metrics = WorldMetrics::new();
    world.add_seed(units(5, 5));
    world.add_seed(units(100, 100));
    world.spawn_cell(units(0, 0));
    let report = world.tick(&[], &[], &mut metrics);
    assert_eq!(report.consumed, Vec::<u64>::new());
    assert_eq!(world.seed_count(), 2);
    let report = world.tick(&[], &[CollisionEvent::Started(2, 1)], &mut metrics);
    assert_eq!(report.consumed, vec![1]);
    assert_eq!(world.seeds(), &[Seed { id: 0, position: units(5, 5) }]);
    assert_eq!(world.cell_count(), 1);
    assert_eq!(samples(&metrics.seeds_count), vec![0, 2, 1]);
    assert_eq!(samples(&metrics.cells_count), vec![0, 1, 1]);
}

#[test]
fn frame_culls_a_cell_spawned_on_the_border() {
    let mut world = World::new(WorldBoard::standard(), CollisionPolicy::ContactEvents);
    let mut metrics = WorldMetrics::new();
    world.add_seed(units(300, 0));
    let report = world.tick(&[press(units(250, 0)), press(units(249, 0))], &[], &mut metrics);
    assert_eq!(report.spawned, vec![1, 2]);
    assert_eq!(report.culled, vec![Departure { id: 1, x: 251 * UNIT as i64, y: 0 }]);
    assert_eq!(world.cells(), &[Cell { id: 2, position: units(250, 0) }]);
    assert_eq!(metrics.cells_count.get_last(), Some(&1));
}

#[test]
fn cell_leaving_the_board_still_consumes_in_its_last_frame() {
    let mut world = World::new(WorldBoard::standard(), CollisionPolicy::BoxOverlap);
    let mut metrics = WorldMetrics::new();
    assert_eq!(world.add_seed(units(259, 0)), Some(0));
    let report = world.tick(&[press(units(250, 0))], &[], &mut metrics);
    assert_eq!(report.spawned, vec![1]);
    assert_eq!(report.culled, vec![Departure { id: 1, x: 251 * UNIT as i64, y: 0 }]);
    assert_eq!(report.consumed, vec![0]);
    assert_eq!(world.cell_count(), 0);
    assert_eq!(world.seed_count(), 0);
    assert_eq!(metrics.cells_count.get_last(), Some(&0));
    assert_eq!(metrics.seeds_count.get_last(), Some(&0));
}

#[test]
fn sample_stores_the_counts() {
    let mut world = World::new(WorldBoard::standard(), CollisionPolicy::BoxOverlap);
    let mut metrics = WorldMetrics::default();
    world.add_seeds(&[units(1, 1), units(2, 2), units(3, 3)]);
    world.spawn_cell(units(200, 200));
    world.sample(&mut metrics);
    assert_eq!(samples(&metrics.cells_count), vec![1]);
    assert_eq!(samples(&metrics.seeds_count), vec![3]);
}
