use game_cap::events::CollisionPolicy;
use game_cap::geometry::{Point, Rect, UNIT};
use game_cap::seeds::{scatter, seed_field, seed_slots, CELLS_STEP, SEED_MARGIN};
use game_cap::world::World;
use game_cap::world_board::WorldBoard;

fn units(x: i16, y: i16) -> Point {
    Point::from_units(x, y).unwrap()
}

#[test]
fn grid_constants() {
    assert_eq!(CELLS_STEP, 32 * UNIT);
    assert_eq!(SEED_MARGIN, 3 * UNIT);
}

#[test]
fn standard_board_has_sixteen_by_sixteen_slots() {
    let slots = seed_slots(WorldBoard::standard().rect());
    assert_eq!(slots.len(), 256);
    assert_eq!(slots[0], Rect { min: units(-247, -247), max: units(-215, -215) });
    assert_eq!(slots[1], Rect { min: units(-247, -215), max: units(-215, -183) });
    assert_eq!(slots[15], Rect { min: units(-247, 233), max: units(-215, 247) });
    assert_eq!(slots[16], Rect { min: units(-215, -247), max: units(-183, -215) });
    assert_eq!(slots[255], Rect { min: units(233, 233), max: units(247, 247) });
}

#[test]
fn slots_follow_the_columns_and_rows() {
    let rect = Rect::new(0, 0, 70 * UNIT + 6 * UNIT, 40 * UNIT + 6 * UNIT);
    let slots = seed_slots(rect);
    assert_eq!(
        slots,
        vec![
            Rect { min: units(3, 3), max: units(35, 35) },
            Rect { min: units(3, 35), max: units(35, 43) },
            Rect { min: units(35, 3), max: units(67, 35) },
            Rect { min: units(35, 35), max: units(67, 43) },
            Rect { min: units(67, 3), max: units(73, 35) },
            Rect { min: units(67, 35), max: units(73, 43) },
        ]
    );
}

#[test]
fn stretch_of_a_whole_number_of_steps() {
    let rect = Rect::new(-3 * UNIT, -3 * UNIT, 64 * UNIT + 3 * UNIT, 32 * UNIT + 3 * UNIT);
    let slots = seed_slots(rect);
    assert_eq!(
        slots,
        vec![
            Rect { min: units(0, 0), max: units(32, 32) },
            Rect { min: units(32, 0), max: units(64, 32) },
        ]
    );
    let one_more = Rect::new(-3 * UNIT, -3 * UNIT, 64 * UNIT + 3 * UNIT + 1, 32 * UNIT + 3 * UNIT);
    assert_eq!(seed_slots(one_more).len(), 3);
    assert_eq!(
        seed_slots(one_more)[2],
        Rect { min: units(64, 0), max: Point::new(64 * UNIT + 1, 32 * UNIT) }
    );
}

#[test]
fn board_within_the_margin_has_no_slots() {
    assert!(seed_slots(Rect::new(0, 0, 6 * UNIT, 100 * UNIT)).is_empty());
    assert!(seed_slots(Rect::new(0, 0, 100 * UNIT, 5 * UNIT)).is_empty());
    assert!(seed_field(Rect::new(0, 0, 6 * UNIT, 100 * UNIT)).is_empty());
    assert_eq!(seed_slots(Rect::new(0, 0, 6 * UNIT + 1, 6 * UNIT + 1)).len(), 1);
}

#[test]
fn slots_at_the_edge_of_the_grid() {
    let rect = Rect::new(i32::MAX - 8 * UNIT, i32::MIN, i32::MAX, i32::MIN + 8 * UNIT);
    let slots = seed_slots(rect);
    assert_eq!(
        slots,
        vec![Rect {
            min: Point::new(i32::MAX - 5 * UNIT, i32::MIN + 3 * UNIT),
            max: Point::new(i32::MAX - 3 * UNIT, i32::MIN + 5 * UNIT),
        }]
    );
}

#[test]
fn seed_field_puts_one_seed_in_every_slot() {
    let rect = WorldBoard::standard().rect();
    let slots = seed_slots(rect);
    let field = seed_field(rect);
    assert_eq!(field.len(), 256);
    let inset = Rect { min: units(-247, -247), max: units(247, 247) };
    for (slot, seed) in slots.iter().zip(field.iter()) {
        assert!(slot.contains(*seed));
        assert!(inset.contains(*seed));
    }
}

#[test]
fn scatter_draws_inside_each_slot() {
    let slots = [
        Rect::new(0, 0, 0, 0),
        Rect::new(-5, 7, -5, 9),
        Rect::new(i32::MIN, i32::MIN, i32::MAX, i32::MAX),
        Rect::new(100, 100, 200, 100),
    ];
    for _ in 0..50 {
        let points = scatter(&slots);
        assert_eq!(points.len(), 4);
        assert_eq!(points[0], Point::new(0, 0));
        for (slot, point) in slots.iter().zip(points.iter()) {
            assert!(slot.contains(*point));
        }
    }
    assert!(scatter(&[]).is_empty());
}

#[test]
fn scatter_does_not_stick_to_a_corner() {
    let slots = seed_slots(WorldBoard::standard().rect());
    let field = scatter(&slots);
    assert!(slots.iter().zip(field.iter()).any(|(slot, seed)| *seed != slot.min));
    assert!(slots.iter().zip(field.iter()).any(|(slot, seed)| *seed != slot.max));
    let again = scatter(&slots);
    assert_ne!(field, again);
}

#[test]
fn world_spawns_its_seed_field() {
    let mut world = World::new(WorldBoard::standard(), CollisionPolicy::BoxOverlap);
    assert_eq!(world.spawn_cell(units(0, 0)), Some(0));
    let added = world.spawn_seeds();
    assert_eq!(added, (1..=256).collect::<Vec<u64>>());
    assert_eq!(world.seed_count(), 256);
    assert_eq!(world.cell_count(), 1);
    let slots = seed_slots(world.board().rect());
    for (k, seed) in world.seeds().iter().enumerate() {
        assert_eq!(seed.id, k as u64 + 1);
        assert!(slots[k].contains(seed.position));
    }
    assert_eq!(world.spawn_cell(units(1, 1)), Some(257));
}
