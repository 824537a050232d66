use game_engine::components::{MaxVelocity, NpcPosition, SubtileOffset, Velocity, DEFAULT_MAX_VELOCITY_UNITS_PER_TICK};
use game_engine::grid::{CellCoord, GridSize};
use game_engine::movement::{apply_step, max_step, movement_decision, normalize_axis, MovementDecision};
use game_engine::roads::RoadTier;

fn at(coord: CellCoord) -> NpcPosition {
    NpcPosition { coord, subtile_offset: SubtileOffset::zero() }
}

#[test]
fn test_cardinal_movement_advances_by_default_speed() {
    let decision = movement_decision(
        GridSize::new(4, 4),
        at(CellCoord::new(1, 1)),
        CellCoord::new(2, 1),
        MaxVelocity::default(),
        None,
    );
    assert_eq!(
        decision,
        MovementDecision::Step {
            delta_x: 1024,
            delta_y: 0,
            max_step: DEFAULT_MAX_VELOCITY_UNITS_PER_TICK as i64
        }
    );
}

#[test]
fn completed_destination_road_multiplies_speed_without_mutating_base_velocity() {
    for (tier, expected) in [(RoadTier::DirtPath, 24), (RoadTier::Cobblestone, 32), (RoadTier::Flagstone, 48)] {
        let base = MaxVelocity::default();
        assert_eq!(max_step(base, Some(tier)), expected);
        assert_eq!(base.units_per_tick, DEFAULT_MAX_VELOCITY_UNITS_PER_TICK);
    }
    assert_eq!(max_step(MaxVelocity::default(), None), DEFAULT_MAX_VELOCITY_UNITS_PER_TICK as i64);
}

#[test]
fn test_tile_boundary_crossing_updates_coord_and_normalizes_offset() {
    let mut position = NpcPosition { coord: CellCoord::new(1, 1), subtile_offset: SubtileOffset::new(500, 0) };
    apply_step(&mut position, (16, 0));
    assert_eq!(position.coord, CellCoord::new(2, 1));
    assert_eq!(position.subtile_offset, SubtileOffset::new(516 - 1024, 0));
}

#[test]
fn test_arrival_snaps_to_target_and_removes_target() {
    let position = NpcPosition { coord: CellCoord::new(1, 1), subtile_offset: SubtileOffset::new(1010, 0) };
    assert_eq!(
        movement_decision(GridSize::new(4, 4), position, CellCoord::new(2, 1), MaxVelocity::default(), None),
        MovementDecision::Snap { velocity: Velocity::new(14, 0) }
    );
    assert_eq!(
        movement_decision(GridSize::new(4, 4), at(CellCoord::new(2, 1)), CellCoord::new(2, 1), MaxVelocity::default(), None),
        MovementDecision::Arrived
    );
}

#[test]
fn test_invalid_target_stops_movement_and_removes_target() {
    assert_eq!(
        movement_decision(GridSize::new(4, 4), at(CellCoord::new(1, 1)), CellCoord::new(9, 1), MaxVelocity::default(), None),
        MovementDecision::Stop
    );
}

#[test]
fn a_stationary_npc_waits() {
    assert_eq!(
        movement_decision(GridSize::new(4, 4), at(CellCoord::new(1, 1)), CellCoord::new(2, 1), MaxVelocity::new(0), None),
        MovementDecision::Wait
    );
}

#[test]
fn axis_offsets_normalize_to_half_open_range() {
    assert_eq!(normalize_axis(0), (0, 0));
    assert_eq!(normalize_axis(511), (0, 511));
    assert_eq!(normalize_axis(512), (1, -512));
    assert_eq!(normalize_axis(-512), (0, -512));
    assert_eq!(normalize_axis(-513), (-1, 511));
    assert_eq!(normalize_axis(3000), (3, -72));
}
