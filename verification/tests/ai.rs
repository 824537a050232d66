use game_engine::ai::{
    building_interaction_reached, cardinal_interaction_cells, house_idle_roam_candidates, idle_roam_offset_at,
    idle_roam_target, is_cardinally_adjacent, manhattan_distance, nearest_resource_node_of_kind,
    resource_kind_available, should_continue_food_refill, should_interrupt_for_food, should_start_food_refill,
    ResourceNodeRecord,
};
use game_engine::buildings::{BuildingFootprint, BuildingKind};
use game_engine::components::{AiKeepEnoughFoodInInventory, NpcInventory, ResourceNode};
use game_engine::entity::EntityId;
use game_engine::grid::{CellCoord, GridSize};
use game_engine::resources::{ResourceAmounts, ResourceKind};

fn c(x: i32, y: i32) -> CellCoord {
    CellCoord::new(x, y)
}

fn e(index: u64) -> EntityId {
    EntityId::from_bits((1u64 << 32) | index)
}

fn node(index: u64, x: i32, y: i32, kind: ResourceKind, quantity: u32) -> ResourceNodeRecord {
    ResourceNodeRecord { entity: e(index), coord: c(x, y), node: ResourceNode { kind, quantity } }
}

#[test]
fn manhattan_distance_and_adjacency() {
    assert_eq!(manhattan_distance(c(1, 2), c(4, -2)), 7);
    assert_eq!(manhattan_distance(c(i32::MIN, i32::MIN), c(i32::MAX, i32::MAX)), u32::MAX);
    assert!(is_cardinally_adjacent(c(3, 3), c(3, 4)));
    assert!(!is_cardinally_adjacent(c(3, 3), c(4, 4)));
    assert!(!is_cardinally_adjacent(c(3, 3), c(3, 3)));
    assert_eq!(cardinal_interaction_cells(c(5, 5)), vec![c(5, 4), c(4, 5), c(6, 5), c(5, 6)]);
}

#[test]
fn idle_roam_offsets_walk_rings_outward() {
    assert_eq!(idle_roam_offset_at(0), (1, 0));
    assert_eq!(idle_roam_offset_at(4), (2, 0));
    assert_eq!(idle_roam_offset_at(12), (3, 0));
    assert_eq!(idle_roam_offset_at(23), (2, -1));
}

#[test]
fn idle_roam_target_skips_cells_off_the_grid_and_the_current_cell() {
    let size = GridSize::new(10, 10);
    assert_eq!(idle_roam_target(c(5, 5), c(0, 0), size, 0), Some((c(6, 5), 1)));
    assert_eq!(idle_roam_target(c(5, 5), c(6, 5), size, 0), Some((c(5, 6), 2)));
    assert_eq!(idle_roam_target(c(0, 0), c(0, 0), size, 2), Some((c(2, 0), 5)));
    assert_eq!(idle_roam_target(c(5, 5), c(0, 0), size, 23), Some((c(7, 4), 0)));
    assert_eq!(idle_roam_target(c(0, 0), c(0, 0), GridSize::new(1, 1), 0), None);
}

#[test]
fn house_roam_candidates_ring_the_house_clockwise() {
    let house = BuildingFootprint::new(c(5, 5), 1, 1);
    let candidates = house_idle_roam_candidates(house, GridSize::new(20, 20));
    assert_eq!(candidates.len(), 24);
    assert_eq!(
        candidates[..12].to_vec(),
        vec![
            c(5, 4),
            c(6, 5),
            c(5, 6),
            c(4, 5),
            c(5, 3),
            c(6, 4),
            c(7, 5),
            c(6, 6),
            c(5, 7),
            c(4, 6),
            c(3, 5),
            c(4, 4),
        ]
    );
    let corner = house_idle_roam_candidates(BuildingFootprint::new(c(0, 0), 1, 1), GridSize::new(20, 20));
    assert_eq!(corner[..2].to_vec(), vec![c(1, 0), c(0, 1)]);
    assert!(corner.iter().all(|cell| cell.x >= 0 && cell.y >= 0));
}

#[test]
fn nearest_node_goes_by_distance_then_row_column_and_entity() {
    let nodes = [
        node(9, 4, 0, ResourceKind::Wood, 5),
        node(3, 0, 4, ResourceKind::Wood, 5),
        node(5, 1, 1, ResourceKind::Wood, 0),
        node(7, 2, 2, ResourceKind::Stone, 5),
        node(2, 0, 4, ResourceKind::Wood, 1),
    ];
    assert_eq!(nearest_resource_node_of_kind(c(0, 0), ResourceKind::Wood, &nodes), Some((e(9), c(4, 0))));
    assert_eq!(nearest_resource_node_of_kind(c(0, 3), ResourceKind::Wood, &nodes), Some((e(2), c(0, 4))));
    assert_eq!(nearest_resource_node_of_kind(c(0, 0), ResourceKind::Stone, &nodes), Some((e(7), c(2, 2))));
    assert_eq!(nearest_resource_node_of_kind(c(0, 0), ResourceKind::Gold, &nodes), None);
    assert!(resource_kind_available(ResourceKind::Wood, &nodes));
    assert!(!resource_kind_available(ResourceKind::Food, &nodes));
}

#[test]
fn food_refill_starts_at_the_threshold_and_continues_to_the_target() {
    let goal = AiKeepEnoughFoodInInventory::new(5, 20);
    let low = NpcInventory::new(ResourceAmounts::new(0, 0, 5, 0));
    let mid = NpcInventory::new(ResourceAmounts::new(0, 0, 12, 0));
    let full = NpcInventory::new(ResourceAmounts::new(0, 0, 20, 0));
    assert!(should_start_food_refill(&low, &goal));
    assert!(!should_start_food_refill(&mid, &goal));
    assert!(should_continue_food_refill(&mid, &goal));
    assert!(!should_continue_food_refill(&full, &goal));
    let berries = [node(1, 0, 0, ResourceKind::Food, 3)];
    assert!(should_interrupt_for_food(&low, Some(goal), &berries));
    assert!(!should_interrupt_for_food(&low, Some(goal), &[]));
    assert!(!should_interrupt_for_food(&low, None, &berries));
}

#[test]
fn buildings_are_worked_from_beside_them_fields_from_inside() {
    let depot = BuildingFootprint::new(c(2, 2), 2, 2);
    assert!(building_interaction_reached(BuildingKind::Depot, depot, c(4, 3)));
    assert!(building_interaction_reached(BuildingKind::Depot, depot, c(3, 3)));
    assert!(!building_interaction_reached(BuildingKind::Depot, depot, c(4, 4)));
    let field = BuildingFootprint::new(c(2, 2), 1, 1);
    assert!(building_interaction_reached(BuildingKind::Field, field, c(2, 2)));
    assert!(!building_interaction_reached(BuildingKind::Field, field, c(3, 2)));
}
