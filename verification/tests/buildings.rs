use game_engine::buildings::{
    assign_default_building_name, building_name_exists, BuildingName,
    complete_blueprint, validate_building_blueprint_placement, BuildingBlueprint,
    BuildingFootprint, BuildingKind, BuildingNameRegistry, BuildingPlacementError,
    ConstructionProgress, RefineryPullConfig, StorageInventory, StoragePullConfig,
};
use game_engine::components::TerrainKind;
use game_engine::entity::EntityId;
use game_engine::grid::{CellCoord, GridSize};
use game_engine::resources::{ResourceAmounts, ResourceKind};

fn uniform(size: GridSize, terrain: TerrainKind) -> Vec<Option<TerrainKind>> {
    vec![Some(terrain); size.width() * size.height()]
}

fn dims(kind: BuildingKind) -> (usize, usize) {
    kind.footprint_dimensions()
}

#[test]
fn footprint_iter_coords_returns_row_major_cells() {
    let footprint = BuildingFootprint::new(CellCoord::new(2, 3), 2, 3);

    assert_eq!(
        footprint.iter_coords(),
        vec![
            CellCoord::new(2, 3),
            CellCoord::new(3, 3),
            CellCoord::new(2, 4),
            CellCoord::new(3, 4),
            CellCoord::new(2, 5),
            CellCoord::new(3, 5),
        ]
    );
}

#[test]
fn storage_tiers_have_distinct_definitions_and_capacities() {
    let depot = BuildingKind::Depot.definition();
    assert_eq!((depot.width(), depot.height()), (2, 2));
    assert_eq!(depot.construction_cost().get(ResourceKind::Wood), 20);
    assert_eq!(depot.construction_cost().get(ResourceKind::Stone), 10);
    assert_eq!(StorageInventory::for_kind(BuildingKind::Depot).max_size(), 500);

    let warehouse = BuildingKind::Warehouse.definition();
    assert_eq!((warehouse.width(), warehouse.height()), (4, 4));
    assert_eq!(StorageInventory::for_kind(BuildingKind::Warehouse).max_size(), 2_000);
    assert!(BuildingKind::Depot.is_storage());
    assert!(BuildingKind::Warehouse.is_logistics_configurable());
}

#[test]
fn definitions_match_footprints_costs_and_housing() {
    for kind in BuildingKind::ALL {
        let definition = kind.definition();
        assert_eq!(definition.kind(), kind);
        assert_eq!((definition.width(), definition.height()), dims(kind));
        assert_eq!(definition.housing_capacity(), kind.housing_capacity());
        assert_eq!(definition.construction_cost().get(ResourceKind::Food), 0);
    }
    let town_hall = BuildingKind::TownHall.definition().construction_cost();
    assert_eq!(
        (town_hall.get(ResourceKind::Wood), town_hall.get(ResourceKind::Stone), town_hall.get(ResourceKind::Gold)),
        (80, 60, 20)
    );
    let small = BuildingKind::SmallHouse.definition();
    assert_eq!(small.housing_capacity(), Some(2));
    assert_eq!(small.construction_cost(), ResourceAmounts::zero().with(ResourceKind::Wood, 10).with(ResourceKind::Stone, 5));
    assert_eq!(BuildingKind::Field.definition().construction_cost().get(ResourceKind::Wood), 5);
}

#[test]
fn default_name_numbers_are_monotonic_per_kind() {
    let mut registry = BuildingNameRegistry::default();
    assert_eq!(registry.allocate(BuildingKind::Depot), 1);
    assert_eq!(registry.allocate(BuildingKind::Depot), 2);
    assert_eq!(registry.allocate(BuildingKind::Warehouse), 1);
    assert_eq!(registry.allocate(BuildingKind::Depot), 3);
}

#[test]
fn pull_configs_default_off() {
    let storage = StoragePullConfig::default();
    for kind in ResourceKind::ALL {
        assert!(!storage.pulls_from_refineries(kind));
    }
    assert!(!RefineryPullConfig::default().pulls_from_storage(ResourceKind::Wood));
}

const MAJOR: [BuildingKind; 6] = [
    BuildingKind::Warehouse,
    BuildingKind::TownHall,
    BuildingKind::Sawmill,
    BuildingKind::Stoneworks,
    BuildingKind::Kitchen,
    BuildingKind::Farm,
];

#[test]
fn major_buildings_accept_grass_dirt_and_sand() {
    let size = GridSize::new(8, 8);
    for kind in MAJOR {
        for terrain in [TerrainKind::Grass, TerrainKind::Dirt, TerrainKind::Sand] {
            let (w, h) = dims(kind);
            assert_eq!(
                validate_building_blueprint_placement(size, kind, CellCoord::new(0, 0), &uniform(size, terrain), &[], &[]),
                Ok(BuildingFootprint::new(CellCoord::new(0, 0), w, h))
            );
        }
    }
}

#[test]
fn major_buildings_reject_water() {
    let size = GridSize::new(8, 8);
    for kind in MAJOR {
        assert_eq!(
            validate_building_blueprint_placement(size, kind, CellCoord::new(0, 0), &uniform(size, TerrainKind::Water), &[], &[]),
            Err(BuildingPlacementError::InvalidTerrain)
        );
    }
}

#[test]
fn building_placement_rejects_resource_node_overlap() {
    let size = GridSize::new(8, 8);
    assert_eq!(
        validate_building_blueprint_placement(
            size,
            BuildingKind::Warehouse,
            CellCoord::new(0, 0),
            &uniform(size, TerrainKind::Grass),
            &[CellCoord::new(1, 1)],
            &[],
        ),
        Err(BuildingPlacementError::BlockedByResourceNode)
    );
}

#[test]
fn building_placement_allows_npc_overlap() {
    let size = GridSize::new(8, 8);
    assert_eq!(
        validate_building_blueprint_placement(
            size,
            BuildingKind::Warehouse,
            CellCoord::new(0, 0),
            &uniform(size, TerrainKind::Grass),
            &[],
            &[],
        ),
        Ok(BuildingFootprint::new(CellCoord::new(0, 0), 4, 4))
    );
}

#[test]
fn building_placement_rejects_existing_blueprint_overlap() {
    let size = GridSize::new(8, 8);
    let existing = [BuildingFootprint::new(CellCoord::new(1, 1), 2, 2)];
    assert_eq!(
        validate_building_blueprint_placement(
            size,
            BuildingKind::Warehouse,
            CellCoord::new(2, 2),
            &uniform(size, TerrainKind::Grass),
            &[],
            &existing,
        ),
        Err(BuildingPlacementError::OverlapsBuilding)
    );
}

#[test]
fn building_placement_rejects_constructed_building_overlap() {
    let size = GridSize::new(8, 8);
    let existing = [BuildingFootprint::new(CellCoord::new(1, 1), 2, 2)];
    assert_eq!(
        validate_building_blueprint_placement(
            size,
            BuildingKind::TownHall,
            CellCoord::new(2, 2),
            &uniform(size, TerrainKind::Grass),
            &[],
            &existing,
        ),
        Err(BuildingPlacementError::OverlapsBuilding)
    );
}

#[test]
fn placement_rejects_out_of_bounds_fields_and_tree_plots() {
    let size = GridSize::new(8, 8);
    let grass = uniform(size, TerrainKind::Grass);
    assert_eq!(
        validate_building_blueprint_placement(size, BuildingKind::Warehouse, CellCoord::new(6, 0), &grass, &[], &[]),
        Err(BuildingPlacementError::OutOfBounds)
    );
    assert_eq!(
        validate_building_blueprint_placement(size, BuildingKind::Field, CellCoord::new(0, 0), &grass, &[], &[]),
        Err(BuildingPlacementError::FieldRequiresFarm)
    );
    assert_eq!(
        validate_building_blueprint_placement(size, BuildingKind::TreePlot, CellCoord::new(0, 0), &grass, &[], &[]),
        Err(BuildingPlacementError::TreePlotRequiresLodge)
    );
}

#[test]
fn completed_blueprints_become_buildings_with_their_parts() {
    let footprint = BuildingFootprint::new(CellCoord::new(0, 0), 1, 1);
    let blueprint = BuildingBlueprint { kind: BuildingKind::SmallHouse, footprint };
    let cost = ResourceAmounts::new(5, 0, 0, 0);
    assert!(complete_blueprint(blueprint, ConstructionProgress::new(ResourceAmounts::zero()), cost, 3).is_none());
    let (done, next) = complete_blueprint(blueprint, ConstructionProgress::new(cost), cost, 3).expect("paid");
    assert_eq!(done.building.kind, BuildingKind::SmallHouse);
    let house = done.house.expect("a house");
    assert_eq!((house.capacity(), house.completion_order()), (2, 3));
    assert_eq!(next, 4);
    assert!(done.storage.is_none());

    let depot = BuildingBlueprint { kind: BuildingKind::Depot, footprint };
    let (done, next) = complete_blueprint(depot, ConstructionProgress::new(cost), cost, 3).expect("paid");
    assert_eq!(done.storage.expect("storage").max_size(), 500);
    assert_eq!(next, 3);
}

#[test]
fn default_names_are_monotonic_and_skip_normalized_collisions() {

    let id = |i: u64| EntityId::from_bits((1u64 << 32) | i);
    let mut registry = BuildingNameRegistry::default();
    let mut names: Vec<(EntityId, BuildingName)> = vec![(id(0), BuildingName::new("  depot #1 "))];
    let first = assign_default_building_name(&mut registry, BuildingKind::Depot, &names).unwrap();
    names.push((id(1), first));
    let second = assign_default_building_name(&mut registry, BuildingKind::Depot, &names).unwrap();
    names.push((id(2), second.clone()));
    names.retain(|(entity, _)| *entity != id(1));
    let third = assign_default_building_name(&mut registry, BuildingKind::Depot, &names).unwrap();
    names.push((id(3), third.clone()));

    assert!(names.iter().all(|(entity, _)| *entity != id(1)));
    assert_eq!(second.as_str(), "Depot #3");
    assert_eq!(third.as_str(), "Depot #4");
    assert!(names.iter().any(|(entity, _)| *entity == id(0)));
}

#[test]
fn building_names_compare_trimmed_and_in_lowercase() {

    let id = |i: u64| EntityId::from_bits((1u64 << 32) | i);
    let names = vec![(id(1), BuildingName::new("Main Depot")), (id(2), BuildingName::new("\tFarm #1\n"))];
    assert!(building_name_exists(&names, "  main DEPOT ", None));
    assert!(!building_name_exists(&names, "main depot", Some(id(1))));
    assert!(building_name_exists(&names, "farm #1", Some(id(1))));
    assert!(!building_name_exists(&names, "farm #2", None));
}

#[test]
fn default_names_count_per_kind() {

    let mut registry = BuildingNameRegistry::default();
    let farm = assign_default_building_name(&mut registry, BuildingKind::Farm, &[]).unwrap();
    let depot = assign_default_building_name(&mut registry, BuildingKind::Depot, &[]).unwrap();
    let farm2 = assign_default_building_name(&mut registry, BuildingKind::Farm, &[]).unwrap();
    assert_eq!(farm.as_str(), "Farm #1");
    assert_eq!(depot.as_str(), "Depot #1");
    assert_eq!(farm2.as_str(), "Farm #2");
}
