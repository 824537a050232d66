use game_engine::buildings::{
    Building, BuildingActivity, BuildingFootprint, BuildingKind, BuildingName, RefineryPullConfig,
    StorageInventory, StoragePullConfig,
};
use game_engine::commands::{
    building_active, building_name, rename_building, refinery_pulls_from_storage, set_building_active,
    set_refinery_pulls_from_storage, set_storage_pulls_from_refineries, set_storage_resource_allowed,
    set_warehouse_resource_allowed, storage_pulls_from_refineries, storage_resource_allowed,
    warehouse_resource_allowed, BuildingEntity,
};
use game_engine::entity::EntityId;
use game_engine::grid::CellCoord;
use game_engine::resources::ResourceKind;
use game_engine::simulation::{BuildingCommandError, BuildingTarget, SurfaceId, WarehouseFilterError};

fn e(index: u64) -> EntityId {
    EntityId::from_bits((1u64 << 32) | index)
}

fn footprint() -> BuildingFootprint {
    BuildingFootprint::new(CellCoord::new(0, 0), 2, 2)
}

fn bare(kind: BuildingKind) -> BuildingEntity {
    BuildingEntity {
        building: Some(Building::new(kind, footprint())),
        blueprint: false,
        name: None,
        activity: None,
        storage: None,
        storage_pull: None,
        refinery_pull: None,
    }
}

fn names_of(entities: &[(EntityId, &Option<BuildingEntity>)]) -> Vec<(EntityId, BuildingName)> {
    entities
        .iter()
        .filter_map(|(id, entity)| entity.as_ref().and_then(|b| b.name.clone()).map(|name| (*id, name)))
        .collect()
}

#[test]
fn warehouse_filters_are_validated_and_surface_local() {
    let warehouse = |_: u64| {
        let mut b = bare(BuildingKind::Warehouse);
        b.storage = Some(StorageInventory::empty());
        Some(b)
    };
    let mut first_warehouse = warehouse(1);
    let second_warehouse = warehouse(2);
    let mut town_hall = Some(bare(BuildingKind::TownHall));
    let mut missing: Option<BuildingEntity> = None;

    assert_eq!(set_warehouse_resource_allowed(&mut first_warehouse, ResourceKind::Wood, false), Ok(()));
    assert_eq!(warehouse_resource_allowed(&first_warehouse, ResourceKind::Wood), Ok(false));
    assert_eq!(warehouse_resource_allowed(&second_warehouse, ResourceKind::Wood), Ok(true));
    assert_eq!(
        set_warehouse_resource_allowed(&mut town_hall, ResourceKind::Wood, false),
        Err(WarehouseFilterError::NotCompletedWarehouse)
    );
    assert_eq!(
        set_warehouse_resource_allowed(&mut missing, ResourceKind::Wood, false),
        Err(WarehouseFilterError::MissingEntity)
    );
}

#[test]
fn typed_building_commands_validate_surface_names_and_pull_dependencies() {
    let first = SurfaceId { index: 1 };
    let second = SurfaceId { index: 2 };
    let depot_id = e(1);
    let other_id = e(2);
    let mut depot = {
        let mut b = bare(BuildingKind::Depot);
        b.name = Some(BuildingName::new("Depot #1"));
        b.storage = Some(StorageInventory::for_kind(BuildingKind::Depot));
        b.storage_pull = Some(StoragePullConfig::default());
        b.activity = Some(BuildingActivity::active());
        Some(b)
    };
    let mut other = {
        let mut b = bare(BuildingKind::TownHall);
        b.name = Some(BuildingName::new("TownHall #1"));
        Some(b)
    };
    let target = BuildingTarget::new(first, depot_id);

    let names = names_of(&[(depot_id, &depot), (other_id, &other)]);
    assert_eq!(rename_building(first, target, &mut depot, "  Main Depot  ", &names), Ok(()));
    assert_eq!(building_name(first, target, &depot), Ok("Main Depot"));
    let names = names_of(&[(depot_id, &depot), (other_id, &other)]);
    assert_eq!(
        rename_building(first, target, &mut depot, "townhall #1", &names),
        Err(BuildingCommandError::DuplicateName)
    );
    assert_eq!(
        rename_building(first, target, &mut depot, &"x".repeat(65), &names),
        Err(BuildingCommandError::InvalidName)
    );
    assert_eq!(
        set_storage_pulls_from_refineries(first, target, &mut depot, ResourceKind::Food, true),
        Ok(())
    );
    assert_eq!(storage_resource_allowed(first, target, &depot, ResourceKind::Food), Ok(true));
    assert_eq!(
        set_storage_resource_allowed(first, target, &mut depot, ResourceKind::Food, false),
        Ok(())
    );
    assert_eq!(storage_pulls_from_refineries(first, target, &depot, ResourceKind::Food), Ok(false));
    assert_eq!(building_name(second, target, &depot), Err(BuildingCommandError::WrongSurface));
    assert_eq!(
        set_building_active(first, BuildingTarget::new(first, other_id), &mut other, false),
        Err(BuildingCommandError::UnsupportedBuilding)
    );
}

#[test]
fn renaming_keeps_the_own_name_and_checks_length_after_trimming() {
    let first = SurfaceId { index: 0 };
    let id = e(7);
    let mut depot = {
        let mut b = bare(BuildingKind::Depot);
        b.name = Some(BuildingName::new("Depot #1"));
        Some(b)
    };
    let target = BuildingTarget::new(first, id);
    let names = names_of(&[(id, &depot)]);
    assert_eq!(rename_building(first, target, &mut depot, " depot #1 ", &names), Ok(()));
    assert_eq!(building_name(first, target, &depot), Ok("depot #1"));
    assert_eq!(
        rename_building(first, target, &mut depot, "   ", &names),
        Err(BuildingCommandError::InvalidName)
    );
    let sixty_four = format!("  {}  ", "y".repeat(64));
    assert_eq!(rename_building(first, target, &mut depot, &sixty_four, &names), Ok(()));
    let mut blueprint = Some(BuildingEntity { building: None, blueprint: true, ..bare(BuildingKind::Depot) });
    assert_eq!(
        rename_building(first, BuildingTarget::new(first, e(8)), &mut blueprint, "Plan", &[]),
        Err(BuildingCommandError::NotBuilding)
    );
    let mut nothing: Option<BuildingEntity> = None;
    assert_eq!(
        rename_building(first, BuildingTarget::new(first, e(9)), &mut nothing, "Plan", &[]),
        Err(BuildingCommandError::MissingEntity)
    );
}

#[test]
fn activity_switches_only_on_configurable_completed_buildings() {
    let s = SurfaceId { index: 0 };
    let target = BuildingTarget::new(s, e(1));
    let mut depot = {
        let mut b = bare(BuildingKind::Depot);
        b.activity = Some(BuildingActivity::active());
        Some(b)
    };
    assert_eq!(building_active(s, target, &depot), Ok(true));
    assert_eq!(set_building_active(s, target, &mut depot, false), Ok(()));
    assert_eq!(building_active(s, target, &depot), Ok(false));
    let mut blueprint = Some(BuildingEntity { building: None, blueprint: true, ..bare(BuildingKind::Depot) });
    assert_eq!(
        set_building_active(s, target, &mut blueprint, false),
        Err(BuildingCommandError::BlueprintIneligible)
    );
    let no_switch = Some(bare(BuildingKind::Sawmill));
    assert_eq!(building_active(s, target, &no_switch), Err(BuildingCommandError::UnsupportedBuilding));
}

#[test]
fn refinery_pulls_need_a_recipe_for_the_kind() {
    let s = SurfaceId { index: 0 };
    let target = BuildingTarget::new(s, e(1));
    let mut sawmill = {
        let mut b = bare(BuildingKind::Sawmill);
        b.refinery_pull = Some(RefineryPullConfig::default());
        Some(b)
    };
    assert_eq!(refinery_pulls_from_storage(s, target, &sawmill, ResourceKind::Wood), Ok(false));
    assert_eq!(set_refinery_pulls_from_storage(s, target, &mut sawmill, ResourceKind::Wood, true), Ok(()));
    assert_eq!(refinery_pulls_from_storage(s, target, &sawmill, ResourceKind::Wood), Ok(true));
    assert_eq!(
        refinery_pulls_from_storage(s, target, &sawmill, ResourceKind::Stone),
        Err(BuildingCommandError::UnsupportedResource)
    );
    let depot = Some(bare(BuildingKind::Depot));
    assert_eq!(
        refinery_pulls_from_storage(s, target, &depot, ResourceKind::Wood),
        Err(BuildingCommandError::UnsupportedBuilding)
    );
    let storage_depot = {
        let mut b = bare(BuildingKind::Depot);
        b.storage = Some(StorageInventory::for_kind(BuildingKind::Depot));
        b.storage_pull = Some(StoragePullConfig::default());
        Some(b)
    };
    assert_eq!(
        storage_pulls_from_refineries(s, target, &storage_depot, ResourceKind::Wood),
        Err(BuildingCommandError::UnsupportedResource)
    );
}
