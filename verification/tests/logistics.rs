use game_engine::buildings::ConstructionProgress;
use game_engine::components::{
    AiKeepEnoughFoodInInventory, CarriedResource, FoodPouch, ResourceNode, Wheelbarrow,
};
use game_engine::entity::EntityId;
use game_engine::logistics::{
    building_haul_cancellation, building_haul_choice, building_haul_step, choose_food_source,
    claim_building_haul, claim_construction_haul, construction_haul_choice, construction_haul_step,
    construction_haul_involves, food_haul_arrival, food_haul_decision, food_haul_involves,
    preempted_wheelbarrow, recovery_arrival, recovery_storage_choice, reserve_food_haul,
    settle_recovery_sink, wheelbarrow_loaded, AiBuildingHaul, AiConstructionHaul, AiFoodHaul,
    AiWheelbarrowRecovery, BuildingHaulPhase, BuildingHaulStep, ConstructionDemand,
    ConstructionHaulPhase, FoodHaulDecision, FoodHaulStep, FoodOffer, HaulStep, RecoveryStep,
    SourceOffer, StorageOffer, SupplyDemand, WheelbarrowFate,
};
use game_engine::refining::{Reservation, ReservationLedger, SinkEndpoint, StockEndpoint};
use game_engine::resources::{ResourceAmounts, ResourceKind};
use game_engine::skills::{NpcSkills, SkillKind};

fn e(i: u64) -> EntityId {
    EntityId::from_bits(i)
}

#[test]
fn food_sources_prefer_the_nearest_then_the_lowest_entity() {
    let ledger = ReservationLedger::new();
    let offers = [
        FoodOffer { endpoint: StockEndpoint::Warehouse(e(9)), stock: 30, goal_distance: Some(4) },
        FoodOffer { endpoint: StockEndpoint::RefineryOutput(e(7)), stock: 5, goal_distance: Some(4) },
        FoodOffer { endpoint: StockEndpoint::Warehouse(e(3)), stock: 30, goal_distance: None },
        FoodOffer { endpoint: StockEndpoint::Farm(e(1)), stock: 99, goal_distance: Some(1) },
    ];
    assert_eq!(
        choose_food_source(&offers, 20, &ledger),
        Some(AiFoodHaul { source: StockEndpoint::RefineryOutput(e(7)), amount: 5, uses_wheelbarrow: false })
    );
    assert_eq!(choose_food_source(&offers, 0, &ledger), None);
    assert_eq!(choose_food_source(&offers[2..], 10, &ledger), None);
}

#[test]
fn reserved_food_is_not_offered_twice() {
    let mut ledger = ReservationLedger::new();
    let offers = [FoodOffer { endpoint: StockEndpoint::Warehouse(e(9)), stock: 10, goal_distance: Some(2) }];
    let first = choose_food_source(&offers, 6, &ledger).expect("food available");
    assert!(first.uses_wheelbarrow);
    reserve_food_haul(&mut ledger, e(1), first);
    let second = choose_food_source(&offers, 6, &ledger).expect("some food left");
    assert_eq!(second.amount, 4);
    reserve_food_haul(&mut ledger, e(2), second);
    assert_eq!(choose_food_source(&offers, 6, &ledger), None);
    assert_eq!(ledger.reserved_to(SinkEndpoint::FoodPouch(e(1)), ResourceKind::Food), 6);
}

#[test]
fn hungry_npcs_start_searching_and_sated_ones_stop() {
    let ledger = ReservationLedger::new();
    let goal = Some(AiKeepEnoughFoodInInventory::new(5, 20));
    let offers = [FoodOffer { endpoint: StockEndpoint::Warehouse(e(9)), stock: 50, goal_distance: Some(3) }];
    assert_eq!(
        food_haul_decision(false, FoodPouch::new(2), goal, None, 0, &offers, &ledger),
        FoodHaulDecision::Haul {
            haul: AiFoodHaul { source: StockEndpoint::Warehouse(e(9)), amount: 18, uses_wheelbarrow: true },
            begin_search: true,
            newly_chosen: true,
        }
    );
    assert_eq!(food_haul_decision(false, FoodPouch::new(6), goal, None, 0, &offers, &ledger), FoodHaulDecision::Skip);
    assert_eq!(food_haul_decision(true, FoodPouch::new(20), goal, None, 0, &offers, &ledger), FoodHaulDecision::Stop);
    assert_eq!(food_haul_decision(true, FoodPouch::new(2), goal, None, 0, &[], &ledger), FoodHaulDecision::Stop);
    let current = AiFoodHaul { source: StockEndpoint::Warehouse(e(4)), amount: 3, uses_wheelbarrow: true };
    assert_eq!(
        food_haul_decision(true, FoodPouch::new(2), goal, Some(current), 3, &offers, &ledger),
        FoodHaulDecision::Haul { haul: current, begin_search: false, newly_chosen: false }
    );
}

#[test]
fn food_is_collected_at_the_source() {
    let haul = AiFoodHaul { source: StockEndpoint::Warehouse(e(9)), amount: 10, uses_wheelbarrow: true };
    let mut pouch = FoodPouch::new(5);
    let mut stock = Some(12);
    assert_eq!(food_haul_arrival(true, false, haul, 100, &mut pouch, &mut stock), FoodHaulStep::Refill);
    assert_eq!(pouch.amount(), 15);
    assert_eq!(stock, Some(2));
    assert_eq!(food_haul_arrival(true, false, haul, 100, &mut pouch, &mut stock), FoodHaulStep::Finish);
    assert_eq!(pouch.amount(), 15);
    assert_eq!(food_haul_arrival(false, false, haul, 100, &mut pouch, &mut stock), FoodHaulStep::Route);
    assert_eq!(food_haul_arrival(false, true, haul, 100, &mut pouch, &mut stock), FoodHaulStep::Finish);
    let mut full_stock = Some(50);
    assert_eq!(food_haul_arrival(true, false, haul, 20, &mut pouch, &mut full_stock), FoodHaulStep::Finish);
    assert_eq!(pouch.amount(), 25);
}

fn demand(entity: u64, cost: ResourceAmounts, distance: Option<usize>) -> ConstructionDemand {
    ConstructionDemand {
        entity: e(entity),
        cost,
        progress: ConstructionProgress::new(ResourceAmounts::zero()),
        goal_distance: distance,
    }
}

#[test]
fn construction_hauls_pick_the_nearest_source_with_batches_by_source() {
    let ledger = ReservationLedger::new();
    let demands = [demand(50, ResourceAmounts::new(12, 0, 0, 0), Some(6))];
    let sources = [
        SourceOffer { kind: ResourceKind::Wood, endpoint: StockEndpoint::NaturalNode(e(20)), stock: 80, goal_distance: Some(2) },
        SourceOffer { kind: ResourceKind::Wood, endpoint: StockEndpoint::Warehouse(e(21)), stock: 40, goal_distance: Some(3) },
    ];
    let choice = construction_haul_choice(&demands, CarriedResource::empty().contents(), 5, &sources, &ledger)
        .expect("wood is available");
    assert_eq!(choice.source, Some(StockEndpoint::NaturalNode(e(20))));
    assert_eq!(choice.amount, 1);
    assert!(!choice.uses_wheelbarrow);

    let far_node = [sources[1]];
    let choice = construction_haul_choice(&demands, CarriedResource::empty().contents(), 5, &far_node, &ledger)
        .expect("warehouse wood");
    assert_eq!(choice.amount, 12);
    assert!(choice.uses_wheelbarrow);
}

#[test]
fn carried_materials_go_straight_to_the_blueprint() {
    let mut ledger = ReservationLedger::new();
    let demands = [demand(50, ResourceAmounts::new(0, 4, 0, 0), Some(6))];
    let carried = CarriedResource::of(ResourceKind::Stone, 3);
    let choice = construction_haul_choice(&demands, carried.contents(), carried.free_size(), &[], &ledger)
        .expect("carried stone");
    assert_eq!(choice.source, None);
    assert_eq!(choice.amount, 3);
    let (work, haul) = claim_construction_haul(&mut ledger, e(1), choice).expect("ledger accepts");
    assert_eq!(work.target_kind(), Some(ResourceKind::Stone));
    assert_eq!(haul.phase, ConstructionHaulPhase::ToBlueprint);
    assert!(claim_construction_haul(&mut ledger, e(1), choice).is_none());
}

#[test]
fn construction_haul_gathers_then_deposits() {
    let mut haul = AiConstructionHaul {
        blueprint: e(50),
        source: Some(StockEndpoint::NaturalNode(e(20))),
        kind: ResourceKind::Wood,
        amount: 1,
        phase: ConstructionHaulPhase::ToSource,
        uses_wheelbarrow: false,
    };
    let cost = Some(ResourceAmounts::new(2, 0, 0, 0));
    let mut stock = None;
    let mut node = Some(ResourceNode { kind: ResourceKind::Wood, quantity: 1 });
    let mut carried = CarriedResource::empty();
    let mut wheelbarrow = None;
    let mut skills = Some(NpcSkills::default());
    let mut progress = Some(ConstructionProgress::new(ResourceAmounts::zero()));

    let step = construction_haul_step(&mut haul, e(1), false, cost, true, false, &mut stock, &mut node, &mut carried, &mut wheelbarrow, &mut skills, &mut progress);
    assert_eq!(step, HaulStep::Continue { node_depleted: false });
    assert_eq!(haul.phase, ConstructionHaulPhase::Gathering { progress_ticks: 0 });
    let mut last = step;
    for _ in 0..60 {
        last = construction_haul_step(&mut haul, e(1), false, cost, true, false, &mut stock, &mut node, &mut carried, &mut wheelbarrow, &mut skills, &mut progress);
        if haul.phase == ConstructionHaulPhase::ToBlueprint {
            break;
        }
    }
    assert_eq!(last, HaulStep::Continue { node_depleted: true });
    assert_eq!(carried.contents().get(ResourceKind::Wood), 1);
    assert_eq!(node.unwrap().quantity, 0);
    assert_eq!(skills.unwrap().value(SkillKind::for_gathered_resource(ResourceKind::Wood)), 1);

    assert_eq!(
        construction_haul_step(&mut haul, e(1), false, cost, false, false, &mut stock, &mut node, &mut carried, &mut wheelbarrow, &mut skills, &mut progress),
        HaulStep::Route
    );
    assert_eq!(
        construction_haul_step(&mut haul, e(1), false, cost, true, false, &mut stock, &mut node, &mut carried, &mut wheelbarrow, &mut skills, &mut progress),
        HaulStep::Clear
    );
    assert_eq!(carried.contents().get(ResourceKind::Wood), 0);
    assert_eq!(progress.unwrap().deposited().get(ResourceKind::Wood), 1);
    assert_eq!(
        construction_haul_step(&mut haul, e(1), true, cost, true, false, &mut stock, &mut node, &mut carried, &mut wheelbarrow, &mut skills, &mut progress),
        HaulStep::Clear
    );
}

#[test]
fn building_hauls_load_deliver_and_recover() {
    let mut haul = AiBuildingHaul {
        source: StockEndpoint::Warehouse(e(30)),
        sink: SinkEndpoint::RefineryInput(e(31)),
        kind: ResourceKind::Stone,
        amount: 10,
        phase: BuildingHaulPhase::ToSource,
        uses_wheelbarrow: true,
    };
    let mut stock = Some(12);
    let mut node = None;
    let mut carried = CarriedResource::empty();
    let mut wheelbarrow = Some(Wheelbarrow::empty());
    let mut skills = None;

    assert_eq!(
        building_haul_step(&mut haul, true, &mut stock, true, false, false, false, &mut node, &mut carried, &mut wheelbarrow, &mut skills, true),
        BuildingHaulStep::Route
    );
    assert_eq!(
        building_haul_step(&mut haul, true, &mut stock, true, true, false, false, &mut node, &mut carried, &mut wheelbarrow, &mut skills, true),
        BuildingHaulStep::Continue { stop_moving: true, node_depleted: false }
    );
    assert_eq!(stock, Some(2));
    assert!(wheelbarrow_loaded(wheelbarrow));
    assert_eq!(haul.phase, BuildingHaulPhase::ToSink);

    assert_eq!(
        building_haul_step(&mut haul, true, &mut stock, true, true, false, false, &mut node, &mut carried, &mut wheelbarrow, &mut skills, false),
        BuildingHaulStep::Recover
    );
    assert_eq!(
        building_haul_step(&mut haul, true, &mut stock, true, true, false, false, &mut node, &mut carried, &mut wheelbarrow, &mut skills, true),
        BuildingHaulStep::Deliver
    );
    assert!(!wheelbarrow_loaded(wheelbarrow));

    let inactive = AiBuildingHaul { phase: BuildingHaulPhase::ToSource, ..haul };
    let mut h = inactive;
    assert_eq!(
        building_haul_step(&mut h, false, &mut stock, true, true, false, false, &mut node, &mut carried, &mut wheelbarrow, &mut skills, true),
        BuildingHaulStep::Clear { drop_wheelbarrow: true }
    );
}

#[test]
fn building_hauls_choose_by_distance_and_reserve_both_ends() {
    let mut ledger = ReservationLedger::new();
    let demands = [SupplyDemand { sink: SinkEndpoint::RefineryInput(e(40)), kind: ResourceKind::Wood, free: 8 }];
    let offers = [
        SourceOffer { kind: ResourceKind::Wood, endpoint: StockEndpoint::Warehouse(e(41)), stock: 30, goal_distance: Some(5) },
        SourceOffer { kind: ResourceKind::Wood, endpoint: StockEndpoint::NaturalNode(e(42)), stock: 30, goal_distance: Some(2) },
        SourceOffer { kind: ResourceKind::Stone, endpoint: StockEndpoint::NaturalNode(e(43)), stock: 30, goal_distance: Some(1) },
    ];
    let choice = building_haul_choice(&demands, &offers, &ledger).expect("wood to deliver");
    assert_eq!(choice.source, StockEndpoint::NaturalNode(e(42)));
    assert_eq!(choice.amount, 1);
    let haul = claim_building_haul(&mut ledger, e(1), choice).expect("ledger accepts");
    assert_eq!(haul.phase, BuildingHaulPhase::ToSource);
    assert_eq!(ledger.reserved_capacity_to(SinkEndpoint::RefineryInput(e(40))), 1);
    assert_eq!(ledger.reserved_from(StockEndpoint::NaturalNode(e(42)), ResourceKind::Wood), 1);

    let storage_pull = [SupplyDemand { sink: SinkEndpoint::Storage(e(44)), kind: ResourceKind::Wood, free: 100 }];
    let from_output = [SourceOffer { kind: ResourceKind::Wood, endpoint: StockEndpoint::RefineryOutput(e(45)), stock: 60, goal_distance: Some(1) }];
    let pull = building_haul_choice(&storage_pull, &from_output, &ledger).expect("output to store");
    assert!(pull.uses_wheelbarrow);
    assert_eq!(pull.amount, 25);
}

#[test]
fn recovered_wheelbarrows_unload_at_the_nearest_storage_with_room() {
    let mut ledger = ReservationLedger::new();
    let offers = [
        StorageOffer { entity: e(60), takes_kind: true, free: 5, goal_distance: Some(1) },
        StorageOffer { entity: e(61), takes_kind: false, free: 100, goal_distance: Some(1) },
        StorageOffer { entity: e(62), takes_kind: true, free: 100, goal_distance: Some(3) },
    ];
    assert_eq!(recovery_storage_choice(&offers, 10, &ledger), Some(e(62)));
    let mut recovery = AiWheelbarrowRecovery::default();
    let load = Wheelbarrow::of(ResourceKind::Wood, 10).stack().unwrap();
    assert!(settle_recovery_sink(&mut recovery, e(1), load, true, &offers, &mut ledger));
    assert_eq!(recovery.sink(), Some(e(62)));
    assert!(!settle_recovery_sink(&mut recovery, e(1), load, false, &offers[..2], &mut ledger));
    assert_eq!(recovery.sink(), None);
    assert!(ledger.claims().is_empty());

    let mut wheelbarrow = Wheelbarrow::of(ResourceKind::Wood, 10);
    assert_eq!(recovery_arrival(false, false, true, &mut wheelbarrow), RecoveryStep::Route);
    assert_eq!(recovery_arrival(true, false, false, &mut wheelbarrow), RecoveryStep::Wait);
    assert_eq!(recovery_arrival(true, false, true, &mut wheelbarrow), RecoveryStep::Unload);
    assert_eq!(wheelbarrow.stack(), None);
}

#[test]
fn cancelling_a_building_ends_only_the_work_that_uses_it() {
    let haul = AiBuildingHaul {
        source: StockEndpoint::Warehouse(e(30)),
        sink: SinkEndpoint::Storage(e(31)),
        kind: ResourceKind::Gold,
        amount: 4,
        phase: BuildingHaulPhase::ToSink,
        uses_wheelbarrow: true,
    };
    assert_eq!(building_haul_cancellation(haul, e(99), None), None);
    assert_eq!(
        building_haul_cancellation(haul, e(31), Some(Wheelbarrow::of(ResourceKind::Gold, 4))),
        Some(BuildingHaulStep::Recover)
    );
    assert_eq!(
        building_haul_cancellation(haul, e(30), Some(Wheelbarrow::empty())),
        Some(BuildingHaulStep::Clear { drop_wheelbarrow: true })
    );
    let construction = AiConstructionHaul {
        blueprint: e(1),
        source: Some(StockEndpoint::Warehouse(e(30))),
        kind: ResourceKind::Wood,
        amount: 1,
        phase: ConstructionHaulPhase::ToSource,
        uses_wheelbarrow: true,
    };
    assert!(construction_haul_involves(construction, e(30)));
    assert!(!construction_haul_involves(AiConstructionHaul { source: None, ..construction }, e(30)));
    let food = AiFoodHaul { source: StockEndpoint::RefineryOutput(e(8)), amount: 1, uses_wheelbarrow: false };
    assert!(food_haul_involves(food, e(8)));
    assert_eq!(preempted_wheelbarrow(Some(Wheelbarrow::of(ResourceKind::Wood, 1)), true, false), WheelbarrowFate::Recover);
    assert_eq!(preempted_wheelbarrow(Some(Wheelbarrow::empty()), true, false), WheelbarrowFate::Drop);
    assert_eq!(preempted_wheelbarrow(Some(Wheelbarrow::empty()), false, true), WheelbarrowFate::Keep);
    let _ = Reservation {
        worker: e(1),
        source: None,
        sink: SinkEndpoint::Storage(e(2)),
        kind: ResourceKind::Wood,
        amount: 1,
        task: e(2),
    };
}
