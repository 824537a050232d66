use game_engine::components::{BirthDate, NpcAppearance, SimDuration};
use game_engine::grid::{CellCoord, Grid};
use game_engine::npcs::{
    center_coord, initial_npc_placements, initial_npc_specs, world_duration_from_day,
    InitialNpcBundle, WorldDateTime, INITIAL_NPC_BIRTH_DAY, INITIAL_NPC_NAME, SECONDS_PER_HOUR,
    SECONDS_PER_MINUTE,
};
use game_engine::resources::ResourceKind;
use game_engine::skills::SkillKind;
use game_engine::time::SECONDS_PER_DAY;

#[test]
fn test_world_date_time_age_years_since_birth_date() {
    let world_date_time = WorldDateTime::from_day(12_000);

    assert_eq!(
        world_date_time.age_years_since(BirthDate::new(world_duration_from_day(
            INITIAL_NPC_BIRTH_DAY
        ))),
        32
    );
}

#[test]
fn test_world_date_time_does_not_return_negative_age() {
    let world_date_time = WorldDateTime::from_day(10);

    assert_eq!(
        world_date_time.age_years_since(BirthDate::new(world_duration_from_day(20))),
        0
    );
}

#[test]
fn test_world_date_time_exposes_day_from_duration() {
    let world_date_time = WorldDateTime::new(SimDuration::from_secs(42 * SECONDS_PER_DAY));

    assert_eq!(world_date_time.day(), 42);
}

#[test]
fn test_world_date_time_advances_by_duration() {
    let mut world_date_time = WorldDateTime::new(SimDuration::from_secs(42));

    world_date_time.advance_by(SimDuration::from_secs(12));

    assert_eq!(
        world_date_time.elapsed_since_world_epoch(),
        SimDuration::from_secs(54)
    );
}

#[test]
fn test_world_date_time_exposes_hour_and_minute() {
    let world_date_time = WorldDateTime::new(SimDuration::from_secs(
        42 * SECONDS_PER_DAY + 9 * SECONDS_PER_HOUR + 5 * SECONDS_PER_MINUTE + 59,
    ));

    assert_eq!(world_date_time.hour(), 9);
    assert_eq!(world_date_time.minute(), 5);
}

#[test]
fn initial_npc_bundle_includes_zeroed_skills() {
    let bundle = InitialNpcBundle::new(CellCoord::new(0, 0));

    for kind in SkillKind::ALL {
        assert_eq!(bundle.skills.value(kind), 0);
    }
}

#[test]
fn initial_npc_bundle_includes_default_appearance() {
    let bundle = InitialNpcBundle::new(CellCoord::new(0, 0));

    assert_eq!(bundle.appearance, NpcAppearance::Colonist);
}

#[test]
fn world_clock_saturates_at_the_largest_duration() {
    let mut clock = WorldDateTime::new(SimDuration::max());
    clock.advance_by(SimDuration::from_secs(1));
    assert_eq!(clock.elapsed_since_world_epoch(), SimDuration::max());
}

#[test]
fn age_counts_whole_years_only() {
    let born = BirthDate::new(world_duration_from_day(0));
    assert_eq!(WorldDateTime::from_day(364).age_years_since(born), 0);
    assert_eq!(WorldDateTime::from_day(365).age_years_since(born), 1);
    assert_eq!(WorldDateTime::from_day(730).age_years_since(born), 2);
}

#[test]
fn initial_bundle_carries_name_food_and_position() {
    let bundle = InitialNpcBundle::new(CellCoord::new(3, 4));
    assert_eq!(bundle.name.as_str(), INITIAL_NPC_NAME);
    assert_eq!(bundle.position.coord, CellCoord::new(3, 4));
    assert_eq!(bundle.inventory.contents().get(ResourceKind::Food), 20);
    assert_eq!(
        bundle.birth_date.elapsed_since_world_epoch(),
        SimDuration::from_secs(INITIAL_NPC_BIRTH_DAY * SECONDS_PER_DAY)
    );
}

#[test]
fn starting_colonists_surround_the_center() {
    let grid = Grid::new(10, 8);
    assert_eq!(center_coord(&grid), Some(CellCoord::new(5, 4)));
    let placements = initial_npc_placements(&grid);
    let coords: Vec<CellCoord> = placements.iter().map(|(_, c)| *c).collect();
    assert_eq!(
        coords,
        vec![
            CellCoord::new(5, 4),
            CellCoord::new(6, 4),
            CellCoord::new(5, 5),
            CellCoord::new(4, 4),
            CellCoord::new(5, 3),
        ]
    );
    assert_eq!(initial_npc_specs().len(), 5);
}

#[test]
fn starting_colonists_off_a_tiny_grid_are_left_out() {
    let grid = Grid::new(1, 1);
    let placements = initial_npc_placements(&grid);
    assert_eq!(placements.len(), 1);
    assert_eq!(placements[0].1, CellCoord::new(0, 0));
    assert_eq!(center_coord(&Grid::new(0, 3)), None);
    assert!(initial_npc_placements(&Grid::new(0, 3)).is_empty());
}
