use game_engine::buildings::{Building, BuildingFootprint, BuildingKind};
use game_engine::components::TerrainKind;
use game_engine::entity::EntityId;
use game_engine::farming::{
    farm_field_counts, field_batch_preview, maintain_farming_tasks, validate_field_blueprint_placement,
    FarmInventory, FarmRecord, FieldCrop, FieldOwner, FieldPlacementError, FieldRecord, FIELD_GROWTH_TICKS,
};
use game_engine::forestry::{
    forester_lodge_tree_plot_counts, maintain_forestry_tasks, tree_plot_batch_preview,
    validate_tree_plot_blueprint_placement, ForesterLodgeInventory, LodgeRecord, TreePlotGrowth,
    TreePlotOwner, TreePlotPlacementError, TreePlotRecord, TREE_PLOT_GROWTH_TICKS,
};
use game_engine::grid::{CellCoord, GridSize};
use game_engine::plots::{connected_cells, joins_plot_network, linked_plot_footprints, LinkedPlot};
use game_engine::tasks::TaskRecord;

fn e(index: u32) -> EntityId {
    EntityId::from_bits((1u64 << 32) | index as u64)
}

fn c(x: i32, y: i32) -> CellCoord {
    CellCoord::new(x, y)
}

fn grass(size: GridSize) -> Vec<Option<TerrainKind>> {
    vec![Some(TerrainKind::Grass); size.width * size.height]
}

fn square(x: i32, y: i32, side: usize) -> BuildingFootprint {
    BuildingFootprint::new(c(x, y), side, side)
}

fn cell_of(x: i32, y: i32) -> BuildingFootprint {
    square(x, y, 1)
}

#[test]
fn a_cell_joins_by_bordering_the_owner_a_linked_plot_or_a_joined_cell() {
    let owner = square(1, 1, 3);
    assert!(joins_plot_network(c(4, 2), owner, &[], &[]));
    assert!(joins_plot_network(c(2, 0), owner, &[], &[]));
    assert!(!joins_plot_network(c(4, 4), owner, &[], &[]));
    assert!(!joins_plot_network(c(6, 2), owner, &[], &[]));
    assert!(joins_plot_network(c(6, 2), owner, &[cell_of(5, 2)], &[]));
    assert!(joins_plot_network(c(6, 2), owner, &[], &[c(6, 3)]));
}

#[test]
fn connected_cells_grow_first_in_row_major_order_up_to_capacity() {
    let owner = square(1, 1, 3);
    let cands = [c(5, 1), c(4, 3), c(4, 1), c(9, 9)];
    assert_eq!(connected_cells(&cands, 10, owner, &[]), vec![c(4, 1), c(5, 1), c(4, 3)]);
    assert_eq!(connected_cells(&cands, 2, owner, &[]), vec![c(4, 1), c(5, 1)]);
    assert_eq!(connected_cells(&cands, 0, owner, &[]), Vec::<CellCoord>::new());
}

#[test]
fn field_batch_preview_sorts_dedups_and_reports_each_cell() {
    let size = GridSize::new(8, 8);
    let farm = square(1, 1, 3);
    let coords = [c(7, 7), c(2, 2), c(5, 1), c(4, 1), c(20, 20), c(4, 1)];
    let previews = field_batch_preview(
        size,
        Some((BuildingKind::Farm, farm)),
        &[],
        &coords,
        &grass(size),
        &[],
        &[farm],
    );
    let got: Vec<(CellCoord, Result<BuildingFootprint, FieldPlacementError>)> =
        previews.iter().map(|p| (p.coord, p.result)).collect();
    assert_eq!(
        got,
        vec![
            (c(4, 1), Ok(cell_of(4, 1))),
            (c(5, 1), Ok(cell_of(5, 1))),
            (c(2, 2), Err(FieldPlacementError::OverlapsBuilding)),
            (c(7, 7), Err(FieldPlacementError::NotConnected)),
            (c(20, 20), Err(FieldPlacementError::OutOfBounds)),
        ]
    );
}

#[test]
fn field_batch_preview_reports_owner_errors_for_every_cell() {
    let size = GridSize::new(8, 8);
    let coords = [c(4, 1), c(1, 0)];
    let missing = field_batch_preview(size, None, &[], &coords, &grass(size), &[], &[]);
    assert!(missing.iter().all(|p| p.result == Err(FieldPlacementError::OwnerMissing)));
    assert_eq!(missing[0].coord, c(1, 0));
    let depot = field_batch_preview(
        size,
        Some((BuildingKind::Depot, square(1, 1, 2))),
        &[],
        &coords,
        &grass(size),
        &[],
        &[],
    );
    assert!(depot.iter().all(|p| p.result == Err(FieldPlacementError::OwnerNotFarm)));
    assert_eq!(depot.len(), 2);
}

#[test]
fn field_room_goes_to_the_first_connected_cells_in_row_major_order() {
    let size = GridSize::new(8, 8);
    let farm = square(1, 1, 3);
    let linked = vec![cell_of(100, 100); 199];
    let coords = [c(4, 1), c(5, 1), c(5, 0)];
    let previews = field_batch_preview(
        size,
        Some((BuildingKind::Farm, farm)),
        &linked,
        &coords,
        &grass(size),
        &[],
        &[farm],
    );
    let got: Vec<_> = previews.iter().map(|p| (p.coord, p.result)).collect();
    assert_eq!(
        got,
        vec![
            (c(5, 0), Ok(cell_of(5, 0))),
            (c(4, 1), Err(FieldPlacementError::FarmFieldLimitReached)),
            (c(5, 1), Err(FieldPlacementError::FarmFieldLimitReached)),
        ]
    );
}

#[test]
fn tree_plot_room_goes_to_the_cells_grown_first_from_the_lodge() {
    let size = GridSize::new(8, 8);
    let lodge = square(1, 1, 3);
    let linked = vec![cell_of(100, 100); 199];
    let coords = [c(4, 1), c(5, 1), c(5, 0)];
    let previews = tree_plot_batch_preview(
        size,
        Some((BuildingKind::ForesterLodge, lodge)),
        &linked,
        &coords,
        &grass(size),
        &[],
        &[lodge],
    );
    let got: Vec<_> = previews.iter().map(|p| (p.coord, p.result)).collect();
    assert_eq!(
        got,
        vec![
            (c(5, 0), Err(TreePlotPlacementError::ForesterLodgeTreePlotLimitReached)),
            (c(4, 1), Ok(cell_of(4, 1))),
            (c(5, 1), Err(TreePlotPlacementError::ForesterLodgeTreePlotLimitReached)),
        ]
    );
}

#[test]
fn tree_plots_need_grass_and_a_lodge_owner() {
    let size = GridSize::new(8, 8);
    let lodge = square(1, 1, 3);
    let mut terrain = grass(size);
    terrain[1 * 8 + 4] = Some(TerrainKind::Dirt);
    let previews = tree_plot_batch_preview(
        size,
        Some((BuildingKind::ForesterLodge, lodge)),
        &[],
        &[c(4, 1), c(4, 2), c(7, 7)],
        &terrain,
        &[c(4, 2)],
        &[lodge],
    );
    let got: Vec<_> = previews.iter().map(|p| p.result).collect();
    assert_eq!(
        got,
        vec![
            Err(TreePlotPlacementError::InvalidTerrain),
            Err(TreePlotPlacementError::BlockedByResourceNode),
            Err(TreePlotPlacementError::NotConnected),
        ]
    );
    let farm_owner = tree_plot_batch_preview(
        size,
        Some((BuildingKind::Farm, lodge)),
        &[],
        &[c(4, 1)],
        &terrain,
        &[],
        &[],
    );
    assert_eq!(farm_owner[0].result, Err(TreePlotPlacementError::OwnerNotForesterLodge));
}

#[test]
fn single_field_placement_checks_owner_room_rules_and_connection() {
    let size = GridSize::new(8, 8);
    let farm = square(1, 1, 3);
    let owner = Some((BuildingKind::Farm, farm));
    let t = grass(size);
    assert_eq!(
        validate_field_blueprint_placement(size, owner, &[], c(4, 1), &t, &[], &[farm]),
        Ok(cell_of(4, 1))
    );
    assert_eq!(
        validate_field_blueprint_placement(size, owner, &[], c(6, 1), &t, &[], &[farm]),
        Err(FieldPlacementError::NotConnected)
    );
    assert_eq!(
        validate_field_blueprint_placement(size, owner, &[cell_of(5, 1)], c(6, 1), &t, &[], &[farm]),
        Ok(cell_of(6, 1))
    );
    let full = vec![cell_of(5, 1); 200];
    assert_eq!(
        validate_field_blueprint_placement(size, owner, &full, c(4, 1), &t, &[], &[farm]),
        Err(FieldPlacementError::FarmFieldLimitReached)
    );
    assert_eq!(
        validate_field_blueprint_placement(size, None, &[], c(4, 1), &t, &[], &[farm]),
        Err(FieldPlacementError::OwnerMissing)
    );
    let mut sand = grass(size);
    sand[1 * 8 + 4] = Some(TerrainKind::Sand);
    assert_eq!(
        validate_field_blueprint_placement(size, owner, &[], c(4, 1), &sand, &[], &[farm]),
        Err(FieldPlacementError::InvalidTerrain)
    );
}

#[test]
fn single_tree_plot_placement_checks_owner_and_connection() {
    let size = GridSize::new(8, 8);
    let lodge = square(1, 1, 3);
    let owner = Some((BuildingKind::ForesterLodge, lodge));
    let t = grass(size);
    assert_eq!(
        validate_tree_plot_blueprint_placement(size, owner, &[], c(1, 4), &t, &[], &[lodge]),
        Ok(cell_of(1, 4))
    );
    assert_eq!(
        validate_tree_plot_blueprint_placement(size, owner, &[], c(4, 4), &t, &[], &[lodge]),
        Err(TreePlotPlacementError::NotConnected)
    );
    assert_eq!(
        validate_tree_plot_blueprint_placement(size, owner, &[], c(1, 1), &t, &[], &[lodge]),
        Err(TreePlotPlacementError::OverlapsBuilding)
    );
    assert_eq!(
        validate_tree_plot_blueprint_placement(size, Some((BuildingKind::Farm, lodge)), &[], c(1, 4), &t, &[], &[lodge]),
        Err(TreePlotPlacementError::OwnerNotForesterLodge)
    );
}

#[test]
fn linked_plots_are_counted_and_listed_per_owner() {
    let plots = [
        LinkedPlot { footprint: cell_of(4, 1), constructed: true, owner: e(1) },
        LinkedPlot { footprint: cell_of(5, 1), constructed: false, owner: e(1) },
        LinkedPlot { footprint: cell_of(6, 1), constructed: true, owner: e(2) },
    ];
    assert_eq!(farm_field_counts(&plots, e(1)), (2, 1));
    assert_eq!(forester_lodge_tree_plot_counts(&plots, e(2)), (1, 1));
    assert_eq!(farm_field_counts(&plots, e(3)), (0, 0));
    assert_eq!(linked_plot_footprints(&plots, e(1)), vec![cell_of(4, 1), cell_of(5, 1)]);
}

fn field(entity: u32, farm: u32, crop: FieldCrop) -> FieldRecord {
    FieldRecord {
        entity: e(entity),
        building: Building::new(BuildingKind::Field, cell_of(entity as i32, 0)),
        owner: FieldOwner::new(e(farm)),
        crop,
    }
}

#[test]
fn farming_tasks_follow_seedable_and_harvestable_fields() {
    let farms = [FarmRecord {
        entity: e(1),
        building: Building::new(BuildingKind::Farm, square(0, 0, 3)),
        inventory: FarmInventory::empty(),
    }];
    let fields = [
        field(10, 1, FieldCrop::seedable()),
        field(11, 1, FieldCrop::growing(FIELD_GROWTH_TICKS)),
        field(12, 1, FieldCrop::growing(5)),
        field(13, 9, FieldCrop::seedable()),
    ];
    let seed_tasks = [
        TaskRecord { task: e(20), target: e(12) },
        TaskRecord { task: e(21), target: e(10) },
        TaskRecord { task: e(22), target: e(10) },
    ];
    let plan = maintain_farming_tasks(&fields, &farms, &seed_tasks, &[]);
    assert_eq!(plan.seed.despawn, vec![e(20), e(22)]);
    assert_eq!(plan.seed.spawn_for, Vec::<EntityId>::new());
    assert_eq!(plan.harvest.despawn, Vec::<EntityId>::new());
    assert_eq!(plan.harvest.spawn_for, vec![e(11)]);
}

#[test]
fn full_farms_get_no_harvest_tasks() {
    let mut inventory = FarmInventory::empty();
    assert!(inventory.add_food(200));
    let farms = [FarmRecord {
        entity: e(1),
        building: Building::new(BuildingKind::Farm, square(0, 0, 3)),
        inventory,
    }];
    let fields = [field(11, 1, FieldCrop::growing(FIELD_GROWTH_TICKS))];
    let harvest_tasks = [TaskRecord { task: e(30), target: e(11) }];
    let plan = maintain_farming_tasks(&fields, &farms, &[], &harvest_tasks);
    assert_eq!(plan.harvest.despawn, vec![e(30)]);
    assert_eq!(plan.harvest.spawn_for, Vec::<EntityId>::new());
}

#[test]
fn forestry_tasks_follow_seedable_and_mature_tree_plots() {
    let lodges = [LodgeRecord {
        entity: e(1),
        building: Building::new(BuildingKind::ForesterLodge, square(0, 0, 3)),
        inventory: ForesterLodgeInventory::empty(),
    }];
    let plot = |entity: u32, growth: TreePlotGrowth| TreePlotRecord {
        entity: e(entity),
        building: Building::new(BuildingKind::TreePlot, cell_of(entity as i32, 0)),
        owner: TreePlotOwner::new(e(1)),
        growth,
    };
    let plots = [
        plot(10, TreePlotGrowth::seedable()),
        plot(11, TreePlotGrowth::growing(TREE_PLOT_GROWTH_TICKS)),
    ];
    let cut_tasks = [TaskRecord { task: e(40), target: e(10) }];
    let plan = maintain_forestry_tasks(&plots, &lodges, &[], &cut_tasks);
    assert_eq!(plan.seed.spawn_for, vec![e(10)]);
    assert_eq!(plan.cut.despawn, vec![e(40)]);
    assert_eq!(plan.cut.spawn_for, vec![e(11)]);
}
