use game_engine::grid::GridSize;
use game_engine::resource_nodes::{
    placement_hash, plan_resource_nodes, resource_kind_for_hash, resource_quantity_for_hash,
    target_node_count,
};
use game_engine::resources::ResourceKind;

#[test]
fn natural_resource_buckets_map_to_natural_kinds() {
    let bucket_hash = |bucket: u64| bucket << 32;

    assert_eq!(resource_kind_for_hash(bucket_hash(0)), ResourceKind::Wood);
    assert_eq!(resource_kind_for_hash(bucket_hash(1)), ResourceKind::Stone);
    assert_eq!(resource_kind_for_hash(bucket_hash(2)), ResourceKind::Food);
    assert_eq!(resource_kind_for_hash(bucket_hash(3)), ResourceKind::Gold);
    assert_eq!(resource_kind_for_hash(bucket_hash(4)), ResourceKind::Wood);
}

#[test]
fn node_quantities_span_fifty_to_one_hundred_fifty() {
    assert_eq!(resource_quantity_for_hash(0), 50);
    assert_eq!(resource_quantity_for_hash(100), 150);
    assert_eq!(resource_quantity_for_hash(101), 50);
}

#[test]
fn node_counts_follow_coverage_with_at_least_one() {
    assert_eq!(target_node_count(1), 1);
    assert_eq!(target_node_count(1000), 15);
    assert_eq!(target_node_count(65_536), 983);
}

#[test]
fn planned_nodes_take_the_lowest_hashes_in_order() {
    let size = GridSize::new(40, 30);
    let plan = plan_resource_nodes(size);
    assert_eq!(plan.len(), 18);
    let hashes: Vec<u64> = plan.iter().map(|(coord, _)| placement_hash(size, *coord)).collect();
    assert!(hashes.windows(2).all(|w| w[0] <= w[1]));
    let largest = *hashes.last().unwrap();
    let below = size
        .iter_coords()
        .iter()
        .filter(|c| placement_hash(size, **c) <= largest)
        .count();
    assert_eq!(below, 18);
    for (coord, node) in &plan {
        let hash = placement_hash(size, *coord);
        assert_eq!(node.kind, resource_kind_for_hash(hash));
        assert_eq!(node.quantity, resource_quantity_for_hash(hash));
    }
    assert!(plan_resource_nodes(GridSize::new(0, 5)).is_empty());
}
