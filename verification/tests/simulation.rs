use game_engine::entity::EntityId;
use game_engine::simulation::{
    default_grid_size, surface_generation_seed, surface_id_at, validate_target_surface,
    BuildingCommandError, BuildingTarget, SimulationClock, SimulationSpeed, SurfaceId,
    SurfaceLookupError,
};
use game_engine::time::SIMULATION_TICK_SECONDS;

#[test]
fn speeds_round_trip_through_their_multipliers() {
    for speed in [
        SimulationSpeed::OneX,
        SimulationSpeed::TwoX,
        SimulationSpeed::FourX,
        SimulationSpeed::FiftyX,
        SimulationSpeed::HundredX,
    ] {
        assert_eq!(SimulationSpeed::from_multiplier(speed.multiplier()), Some(speed));
    }
    assert_eq!(SimulationSpeed::FiftyX.multiplier(), 50);
    assert_eq!(SimulationSpeed::from_multiplier(3), None);
    assert_eq!(SimulationSpeed::from_multiplier(0), None);
}

#[test]
fn paused_clocks_run_no_ticks() {
    let mut clock = SimulationClock::new();
    assert!(clock.is_playing());
    assert_eq!(clock.ticks_this_frame(), 1);
    clock.set_simulation_speed(SimulationSpeed::HundredX);
    assert_eq!(clock.ticks_this_frame(), 100);
    clock.pause();
    assert_eq!(clock.ticks_this_frame(), 0);
    clock.toggle_playing();
    assert!(clock.is_playing());
    clock.play();
    assert!(clock.is_playing());
}

#[test]
fn a_day_of_fixed_ticks_advances_the_date_by_one_day() {
    let mut clock = SimulationClock::new();
    assert_eq!(clock.world_date_time().day(), 0);
    let ticks_per_day = 86_400 / SIMULATION_TICK_SECONDS;
    for _ in 0..ticks_per_day {
        clock.advance_fixed_tick();
    }
    assert_eq!(clock.world_date_time().day(), 1);
    assert_eq!(clock.world_date_time().hour(), 0);
}

#[test]
fn surfaces_are_looked_up_by_position() {
    assert_eq!(surface_id_at(2, 1), Ok(SurfaceId { index: 1 }));
    assert_eq!(
        surface_id_at(2, 2),
        Err(SurfaceLookupError::IndexOutOfRange { index: 2, surface_count: 2 })
    );
    assert_eq!(SurfaceId { index: 3 }.index(), 3);
}

#[test]
fn commands_must_target_the_requested_surface() {
    let target = BuildingTarget::new(SurfaceId { index: 0 }, EntityId::from_bits(9));
    assert_eq!(target.entity(), EntityId::from_bits(9));
    assert_eq!(validate_target_surface(SurfaceId { index: 0 }, target), Ok(()));
    assert_eq!(
        validate_target_surface(target.surface_id(), BuildingTarget::new(SurfaceId { index: 1 }, EntityId::from_bits(9))),
        Err(BuildingCommandError::WrongSurface)
    );
}

#[test]
fn surface_seeds_differ_per_surface_and_repeat_per_seed() {
    let a = surface_generation_seed(42, SurfaceId { index: 0 });
    let b = surface_generation_seed(42, SurfaceId { index: 1 });
    assert_ne!(a, b);
    assert_eq!(a, surface_generation_seed(42, SurfaceId { index: 0 }));
    let size = default_grid_size();
    assert_eq!((size.width(), size.height()), (256, 256));
}
