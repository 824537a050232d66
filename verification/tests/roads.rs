use game_engine::buildings::ConstructionProgress;
use game_engine::components::TerrainKind;
use game_engine::entity::EntityId;
use game_engine::grid::CellCoord;
use game_engine::resources::{ResourceAmounts, ResourceKind};
use game_engine::roads::{
    completed_road, road_blueprints_for, road_cell_view, road_placement_errors,
    validate_road_placement_batch, Road, RoadBlueprint, RoadCellFacts, RoadMap,
    RoadPlacementError, RoadTier, NORMAL_TRAVERSAL_WEIGHT,
};

fn open_cell() -> RoadCellFacts {
    RoadCellFacts {
        terrain: Some(TerrainKind::Grass),
        resource_node: false,
        building_or_blueprint: false,
        pending_road: false,
        completed_tier: None,
    }
}

#[test]
fn tiers_have_labels_speeds_and_weights() {
    assert_eq!(RoadTier::DirtPath.label(), "Dirt Path");
    assert_eq!(RoadTier::Cobblestone.label(), "Cobblestone Road");
    assert_eq!(RoadTier::Flagstone.label(), "Flagstone Road");
    assert_eq!(RoadTier::DirtPath.movement_ratio(), (3, 2));
    assert_eq!(RoadTier::Cobblestone.movement_ratio(), (2, 1));
    assert_eq!(RoadTier::Flagstone.movement_ratio(), (3, 1));
    assert_eq!(RoadTier::DirtPath.traversal_weight(), 4);
    assert_eq!(RoadTier::Cobblestone.traversal_weight(), 3);
    assert_eq!(RoadTier::Flagstone.traversal_weight(), 2);
    assert_eq!(NORMAL_TRAVERSAL_WEIGHT, 6);
    assert_eq!(RoadTier::ALL.len(), 3);
}

#[test]
fn road_map_records_and_replaces_entities() {
    let mut map = RoadMap::new();
    let coord = CellCoord::new(2, 3);
    assert_eq!(map.entity_at(coord), None);
    map.insert(coord, EntityId::from_bits(7));
    map.insert(CellCoord::new(0, 0), EntityId::from_bits(8));
    assert_eq!(map.entity_at(coord), Some(EntityId::from_bits(7)));
    map.insert(coord, EntityId::from_bits(9));
    assert_eq!(map.entity_at(coord), Some(EntityId::from_bits(9)));
    assert_eq!(map.entity_at(CellCoord::new(0, 0)), Some(EntityId::from_bits(8)));
}

#[test]
fn placement_errors_are_reported_in_error_order() {
    assert!(road_placement_errors(RoadTier::DirtPath, open_cell()).is_empty());
    assert_eq!(
        road_placement_errors(RoadTier::DirtPath, RoadCellFacts { terrain: None, resource_node: true, ..open_cell() }),
        vec![RoadPlacementError::OutOfBoundsOrMissingTile]
    );
    assert_eq!(
        road_placement_errors(
            RoadTier::Cobblestone,
            RoadCellFacts {
                terrain: Some(TerrainKind::Water),
                resource_node: true,
                building_or_blueprint: true,
                pending_road: true,
                completed_tier: Some(RoadTier::Flagstone),
            }
        ),
        vec![
            RoadPlacementError::InvalidTerrain,
            RoadPlacementError::BlockedByResourceNode,
            RoadPlacementError::OverlapsBuildingOrPlot,
            RoadPlacementError::PendingRoadOperation,
            RoadPlacementError::SameOrHigherTier,
            RoadPlacementError::NotWalkableGround,
        ]
    );
    let upgrade = RoadCellFacts { completed_tier: Some(RoadTier::DirtPath), ..open_cell() };
    assert!(road_placement_errors(RoadTier::Cobblestone, upgrade).is_empty());
    assert_eq!(
        road_placement_errors(RoadTier::DirtPath, upgrade),
        vec![RoadPlacementError::SameOrHigherTier]
    );
    assert_eq!(RoadPlacementError::InvalidTerrain.label(), "roads require Grass, Dirt, or Sand");
}

#[test]
fn batches_count_repeated_cells_once_and_scale_the_cost() {
    let a = CellCoord::new(0, 0);
    let b = CellCoord::new(1, 0);
    let coords = [a, b, a];
    let facts = [open_cell(), open_cell(), open_cell()];
    let result = validate_road_placement_batch(RoadTier::Cobblestone, &coords, &facts);
    assert_eq!(result.cells.len(), 2);
    assert_eq!(result.cells[0].coord, a);
    assert_eq!(result.cells[1].coord, b);
    assert_eq!(result.aggregate_cost, ResourceAmounts::of(ResourceKind::Stone, 2));
    assert!(result.is_valid());

    let blueprints = road_blueprints_for(result, RoadTier::Cobblestone).expect("valid batch");
    assert_eq!(
        blueprints,
        vec![
            RoadBlueprint { coord: a, target_tier: RoadTier::Cobblestone },
            RoadBlueprint { coord: b, target_tier: RoadTier::Cobblestone },
        ]
    );
}

#[test]
fn invalid_or_empty_batches_are_refused() {
    let empty = validate_road_placement_batch(RoadTier::DirtPath, &[], &[]);
    assert!(!empty.is_valid());
    let water = RoadCellFacts { terrain: Some(TerrainKind::Water), ..open_cell() };
    let result = validate_road_placement_batch(RoadTier::DirtPath, &[CellCoord::new(0, 0)], &[water]);
    assert!(!result.cells[0].is_valid());
    assert_eq!(road_blueprints_for(result.clone(), RoadTier::DirtPath), Err(result));
}

#[test]
fn cell_views_and_completion() {
    let coord = CellCoord::new(4, 4);
    assert_eq!(road_cell_view(coord, None, None, None), None);
    let view = road_cell_view(coord, Some(RoadTier::DirtPath), Some(RoadTier::Cobblestone), None).expect("has a road");
    assert_eq!(view.completed_tier, Some(RoadTier::DirtPath));
    assert_eq!(view.target_tier, Some(RoadTier::Cobblestone));

    let blueprint = RoadBlueprint { coord, target_tier: RoadTier::Cobblestone };
    let cost = ResourceAmounts::of(ResourceKind::Stone, 1);
    assert_eq!(RoadTier::Cobblestone.material_cost(), cost);
    assert_eq!(RoadTier::DirtPath.material_cost(), ResourceAmounts::zero());
    assert_eq!(RoadTier::Flagstone.material_cost(), cost);
    assert_eq!(completed_road(blueprint, ConstructionProgress::new(ResourceAmounts::zero())), None);
    assert_eq!(
        completed_road(blueprint, ConstructionProgress::new(cost)),
        Some(Road { coord, tier: RoadTier::Cobblestone })
    );
}
