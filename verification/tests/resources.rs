use game_engine::resources::{
    resource_overview, BlueprintDeposit, EntityStock, ResourceAmounts, ResourceHistory,
    ResourceInventory, ResourceKind, ResourceTotals,
};

fn totals(amounts: ResourceAmounts) -> ResourceTotals {
    let mut totals = ResourceTotals::zero();
    totals.add_amounts(amounts);
    totals
}

fn no_stock() -> EntityStock {
    EntityStock {
        npc_inventory: None,
        warehouse_inventory: None,
        farm_inventory: None,
        lodge_inventory: None,
        blueprint: None,
    }
}

#[test]
fn resource_overview_sums_every_owned_inventory_and_excludes_natural_nodes() {
    let entities = [
        EntityStock { npc_inventory: Some(ResourceAmounts::new(1, 2, 3, 4)), ..no_stock() },
        EntityStock { warehouse_inventory: Some(ResourceAmounts::new(10, 11, 12, 13)), ..no_stock() },
        EntityStock { farm_inventory: Some(ResourceAmounts::of(ResourceKind::Food, 14)), ..no_stock() },
        EntityStock { lodge_inventory: Some(ResourceAmounts::of(ResourceKind::Wood, 15)), ..no_stock() },
        no_stock(),
    ];

    let overview = resource_overview(&entities);
    assert_eq!(overview.usable().get(ResourceKind::Wood), 26);
    assert_eq!(overview.usable().get(ResourceKind::Stone), 13);
    assert_eq!(overview.usable().get(ResourceKind::Food), 29);
    assert_eq!(overview.usable().get(ResourceKind::Gold), 17);
    assert_eq!(overview.committed(), ResourceTotals::zero());
}

#[test]
fn resource_overview_counts_each_inventory_component_once() {
    let entities = [EntityStock {
        npc_inventory: Some(ResourceAmounts::new(5, 0, 0, 0)),
        warehouse_inventory: Some(ResourceAmounts::of(ResourceKind::Wood, 7)),
        ..no_stock()
    }];

    assert_eq!(resource_overview(&entities).usable().get(ResourceKind::Wood), 12);
}

#[test]
fn resource_overview_only_commits_deposits_on_incomplete_blueprints() {
    let town_hall_cost = ResourceAmounts::new(0, 0, 0, 20);
    let warehouse_cost = ResourceAmounts::new(40, 20, 0, 0);
    let entities = [
        EntityStock {
            blueprint: Some(BlueprintDeposit {
                cost: town_hall_cost,
                deposited: ResourceAmounts::new(5, 6, 0, 1),
            }),
            ..no_stock()
        },
        EntityStock {
            blueprint: Some(BlueprintDeposit { cost: warehouse_cost, deposited: warehouse_cost }),
            ..no_stock()
        },
        no_stock(),
    ];

    let committed = resource_overview(&entities).committed();
    assert_eq!(committed.get(ResourceKind::Wood), 5);
    assert_eq!(committed.get(ResourceKind::Stone), 6);
    assert_eq!(committed.get(ResourceKind::Food), 0);
    assert_eq!(committed.get(ResourceKind::Gold), 1);
}

#[test]
fn resource_totals_accumulate_beyond_u32_range() {
    let mut totals = ResourceTotals::zero();
    totals.add_amounts(ResourceAmounts::new(u32::MAX, 0, 0, 0));
    totals.add_amounts(ResourceAmounts::new(1, 0, 0, 0));

    assert_eq!(totals.get(ResourceKind::Wood), u64::from(u32::MAX) + 1);
}

#[test]
fn resource_history_keeps_samples_immutable_and_ordered() {
    let initial = totals(ResourceAmounts::new(1, 2, 3, 4));
    let mut history = ResourceHistory::new(10, initial);

    assert!(!history.record_day(10, totals(ResourceAmounts::new(9, 9, 9, 9))));
    assert!(!history.record_day(9, totals(ResourceAmounts::zero())));
    assert!(history.record_day(11, totals(ResourceAmounts::new(5, 6, 7, 8))));

    assert_eq!(history.samples().len(), 2);
    assert_eq!(history.sample_on(10).unwrap().usable(), initial);
    assert_eq!(history.sample_on(11).unwrap().quantity(ResourceKind::Gold), 8);
}

#[test]
fn resource_history_changes_require_an_exact_baseline_day() {
    let mut history = ResourceHistory::new(10, totals(ResourceAmounts::new(5, 8, 0, 0)));
    assert!(history.record_day(11, totals(ResourceAmounts::new(6, 3, 0, 0))));
    assert!(history.record_day(17, totals(ResourceAmounts::new(20, 20, 0, 0))));

    assert_eq!(history.change_since(17, 7, ResourceKind::Wood, 12), Some(7));
    assert_eq!(history.change_since(17, 7, ResourceKind::Stone, 2), Some(-6));
    assert_eq!(history.change_since(11, 1, ResourceKind::Food, 0), Some(0));
    assert_eq!(history.change_since(17, 1, ResourceKind::Wood, 12), None);
    assert_eq!(history.change_since(3, 7, ResourceKind::Wood, 12), None);
}

#[test]
fn resource_history_lookup_misses_unrecorded_days() {
    let mut history = ResourceHistory::new(2, totals(ResourceAmounts::new(1, 0, 0, 0)));
    for day in [4, 8, 9, 15] {
        assert!(history.record_day(day, totals(ResourceAmounts::new(day as u32, 0, 0, 0))));
    }
    for day in [0, 1, 3, 5, 10, 16, u64::MAX] {
        assert_eq!(history.sample_on(day), None);
    }
    assert_eq!(history.sample_on(9).unwrap().quantity(ResourceKind::Wood), 9);
    assert_eq!(history.sample_on(15).unwrap().day(), 15);
    assert_eq!(history.change_since(u64::MAX, u64::MAX, ResourceKind::Wood, 0), None);
}

#[test]
fn resource_amounts_default_to_zero() {
    let amounts = ResourceAmounts::default();
    for kind in ResourceKind::ALL {
        assert_eq!(amounts.get(kind), 0);
    }
}

#[test]
fn resource_amounts_set_only_changes_selected_kind() {
    let mut amounts = ResourceAmounts::zero();
    amounts.set(ResourceKind::Food, 12);

    assert_eq!(amounts.get(ResourceKind::Wood), 0);
    assert_eq!(amounts.get(ResourceKind::Stone), 0);
    assert_eq!(amounts.get(ResourceKind::Food), 12);
    assert_eq!(amounts.get(ResourceKind::Gold), 0);
}

#[test]
fn resource_amounts_get_matches_constructor_values() {
    let amounts = ResourceAmounts::new(1, 2, 3, 4);
    assert_eq!(amounts.get(ResourceKind::Wood), 1);
    assert_eq!(amounts.get(ResourceKind::Stone), 2);
    assert_eq!(amounts.get(ResourceKind::Food), 3);
    assert_eq!(amounts.get(ResourceKind::Gold), 4);
}

#[test]
fn resource_amounts_total_sums_all_resources() {
    assert_eq!(ResourceAmounts::new(1, 2, 3, 4).total(), 10);
    assert_eq!(ResourceAmounts::new(u32::MAX, 1, 0, 0).total(), u32::MAX);
}

#[test]
fn resource_amounts_of_and_with_set_one_kind() {
    assert_eq!(ResourceAmounts::of(ResourceKind::Stone, 9), ResourceAmounts::new(0, 9, 0, 0));
    assert_eq!(
        ResourceAmounts::new(1, 2, 3, 4).with(ResourceKind::Gold, 0),
        ResourceAmounts::new(1, 2, 3, 0)
    );
}

#[test]
fn resource_inventory_tracks_used_and_free_size() {
    let inventory = ResourceInventory::new(ResourceAmounts::new(1, 2, 3, 4), 20);

    assert_eq!(inventory.contents(), ResourceAmounts::new(1, 2, 3, 4));
    assert_eq!(inventory.max_size(), 20);
    assert_eq!(inventory.used_size(), 10);
    assert_eq!(inventory.free_size(), 10);
}

#[test]
fn resource_inventory_adds_within_capacity() {
    let mut inventory = ResourceInventory::new(ResourceAmounts::new(1, 0, 0, 0), 3);

    assert!(inventory.add(ResourceKind::Food, 2));
    assert_eq!(inventory.contents(), ResourceAmounts::new(1, 0, 2, 0));
    assert_eq!(inventory.used_size(), 3);
    assert_eq!(inventory.free_size(), 0);
}

#[test]
fn resource_inventory_add_fails_without_mutation_when_over_capacity() {
    let mut inventory = ResourceInventory::new(ResourceAmounts::new(1, 0, 0, 0), 2);

    assert!(!inventory.add(ResourceKind::Food, 2));
    assert_eq!(inventory.contents(), ResourceAmounts::new(1, 0, 0, 0));
}

#[test]
fn resource_inventory_add_fails_without_mutation_when_resource_overflows() {
    let mut inventory = ResourceInventory::new(ResourceAmounts::new(u32::MAX, 0, 0, 0), u32::MAX);

    assert!(!inventory.add(ResourceKind::Wood, 1));
    assert_eq!(inventory.contents(), ResourceAmounts::new(u32::MAX, 0, 0, 0));
}

#[test]
fn resource_inventory_consume_is_all_or_nothing() {
    let mut inventory = ResourceInventory::new(ResourceAmounts::new(0, 0, 2, 0), 10);

    assert!(!inventory.consume(ResourceKind::Food, 3));
    assert_eq!(inventory.contents(), ResourceAmounts::new(0, 0, 2, 0));
    assert!(inventory.consume(ResourceKind::Food, 2));
    assert_eq!(inventory.contents(), ResourceAmounts::zero());
}

#[test]
fn resource_kind_round_trips_through_godot_value() {
    for kind in ResourceKind::ALL {
        let value: i64 = kind.to_godot_value();
        let round_tripped =
            ResourceKind::try_from_godot_value(value).expect("resource kind should round-trip");

        assert_eq!(round_tripped, kind);
    }
    assert_eq!(ResourceKind::try_from_godot_value(4), None);
    assert_eq!(ResourceKind::try_from_godot_value(-1), None);
}

#[test]
fn resource_kind_metadata_is_present() {
    for kind in ResourceKind::ALL {
        assert!(!kind.label().is_empty());
        assert!(!kind.description().is_empty());
    }
}

#[test]
fn resource_kind_descriptions_match_expected_text() {
    assert_eq!(
        ResourceKind::Wood.description(),
        "Flexible timber used for basic construction, repairs, and early infrastructure."
    );
    assert_eq!(
        ResourceKind::Stone.description(),
        "Durable building material for stronger structures and long-lived foundations."
    );
    assert_eq!(
        ResourceKind::Food.description(),
        "Essential supplies that keep colonists fed and productive."
    );
    assert_eq!(
        ResourceKind::Gold.description(),
        "Valuable currency used for advanced construction and trade."
    );
}
