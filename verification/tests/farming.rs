use game_engine::buildings::{Building, BuildingFootprint, BuildingKind};
use game_engine::entity::EntityId;
use game_engine::farming::{
    harvest_field_tick, seed_field_tick, AiHarvestField, FarmInventory, FieldCrop, FieldCropState, FieldWork,
    FIELD_GROWTH_TICKS, FIELD_HARVEST_TICKS, FIELD_SEEDING_TICKS,
};
use game_engine::grid::CellCoord;
use game_engine::skills::{NpcSkills, SkillKind};

fn field() -> Building {
    Building::new(BuildingKind::Field, BuildingFootprint::new(CellCoord::new(3, 3), 1, 1))
}

#[test]
fn seeding_advances_on_the_field_and_finishes_with_a_skill_point() {
    let mut crop = FieldCrop::with_seeding_progress(FIELD_SEEDING_TICKS - 2);
    let mut skills = Some(NpcSkills::zero());
    let at = CellCoord::new(3, 3);
    assert_eq!(
        seed_field_tick(true, at, Some(field()), Some(BuildingKind::Farm), &mut crop, &mut skills),
        FieldWork::Continue
    );
    assert_eq!(crop.seeding_progress_ticks(), FIELD_SEEDING_TICKS - 1);
    assert_eq!(skills.unwrap().value(SkillKind::Farmer), 0);
    assert_eq!(
        seed_field_tick(true, at, Some(field()), Some(BuildingKind::Farm), &mut crop, &mut skills),
        FieldWork::Stop
    );
    assert_eq!(crop.growth_ticks(), Some(0));
    assert_eq!(skills.unwrap().value(SkillKind::Farmer), 1);
    assert_eq!(crop.state(true, false), FieldCropState::GrowingStep1);
}

#[test]
fn seeding_stops_off_the_field_or_without_a_farm() {
    let mut crop = FieldCrop::seedable();
    let mut skills = None;
    assert_eq!(
        seed_field_tick(true, CellCoord::new(4, 3), Some(field()), Some(BuildingKind::Farm), &mut crop, &mut skills),
        FieldWork::Stop
    );
    assert_eq!(
        seed_field_tick(true, CellCoord::new(3, 3), Some(field()), Some(BuildingKind::Depot), &mut crop, &mut skills),
        FieldWork::Stop
    );
    assert_eq!(
        seed_field_tick(false, CellCoord::new(3, 3), Some(field()), Some(BuildingKind::Farm), &mut crop, &mut skills),
        FieldWork::Stop
    );
    assert_eq!(crop.seeding_progress_ticks(), 0);
}

#[test]
fn harvesting_takes_its_ticks_then_stores_one_food_and_resets_the_crop() {
    let mut harvest = AiHarvestField::new(EntityId::from_bits(7));
    let mut crop = FieldCrop::growing(FIELD_GROWTH_TICKS);
    let mut farm = FarmInventory::empty();
    let mut skills = Some(NpcSkills::zero());
    let at = CellCoord::new(3, 3);
    for _ in 0..FIELD_HARVEST_TICKS - 1 {
        assert_eq!(
            harvest_field_tick(true, at, &mut harvest, Some(field()), Some(BuildingKind::Farm), &mut crop, &mut farm, &mut skills),
            FieldWork::Continue
        );
    }
    assert_eq!(farm.food(), 0);
    assert_eq!(
        harvest_field_tick(true, at, &mut harvest, Some(field()), Some(BuildingKind::Farm), &mut crop, &mut farm, &mut skills),
        FieldWork::Stop
    );
    assert_eq!(farm.food(), 1);
    assert!(crop.is_seedable());
    assert_eq!(skills.unwrap().value(SkillKind::Farmer), 1);
}

#[test]
fn harvesting_into_a_full_farm_keeps_the_crop() {
    let mut harvest = AiHarvestField::new(EntityId::from_bits(7));
    let mut crop = FieldCrop::growing(FIELD_GROWTH_TICKS);
    let mut farm = FarmInventory::empty();
    assert!(farm.add_food(farm.max_size()));
    let mut skills = None;
    let at = CellCoord::new(3, 3);
    let mut last = FieldWork::Continue;
    for _ in 0..FIELD_HARVEST_TICKS {
        last = harvest_field_tick(true, at, &mut harvest, Some(field()), Some(BuildingKind::Farm), &mut crop, &mut farm, &mut skills);
    }
    assert_eq!(last, FieldWork::Stop);
    assert!(crop.is_grown());
    assert_eq!(farm.food(), farm.max_size());
}
