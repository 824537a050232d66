use game_engine::entity::EntityId;
use game_engine::refining::{
    endpoint_entity, sink_entity, Reservation, ReservationLedger, SinkEndpoint, StockEndpoint,
};
use game_engine::resources::ResourceKind;

fn entity(index: u32) -> EntityId {
    EntityId::from_bits((1u64 << 32) | index as u64)
}

fn reservation(
    worker: u32,
    source: Option<StockEndpoint>,
    sink: SinkEndpoint,
    kind: ResourceKind,
    amount: u32,
    task: u32,
) -> Reservation {
    Reservation {
        worker: entity(worker),
        source,
        sink,
        kind,
        amount,
        task: entity(task),
    }
}

#[test]
fn endpoints_project_their_entity() {
    let expected = entity(7);
    let stock_endpoints = [
        StockEndpoint::NaturalNode(expected),
        StockEndpoint::CarriedResource(expected),
        StockEndpoint::Warehouse(expected),
        StockEndpoint::Farm(expected),
        StockEndpoint::ForesterLodge(expected),
        StockEndpoint::RefineryInput(expected),
        StockEndpoint::RefineryOutput(expected),
    ];
    let sink_endpoints = [
        SinkEndpoint::Blueprint(expected),
        SinkEndpoint::FoodPouch(expected),
        SinkEndpoint::Storage(expected),
        SinkEndpoint::RefineryInput(expected),
        SinkEndpoint::RefineryOutput(expected),
    ];

    assert!(stock_endpoints
        .into_iter()
        .all(|endpoint| endpoint_entity(endpoint) == expected));
    assert!(sink_endpoints
        .into_iter()
        .all(|endpoint| sink_entity(endpoint) == expected));
}

#[test]
fn ledger_aggregates_matching_sources_sinks_and_kinds() {
    let source = StockEndpoint::Warehouse(entity(100));
    let sink = SinkEndpoint::Storage(entity(101));
    let mut ledger = ReservationLedger::new();
    assert!(ledger.claim(reservation(1, Some(source), sink, ResourceKind::Wood, 3, 11)));
    assert!(ledger.claim(reservation(2, Some(source), sink, ResourceKind::Wood, 4, 12)));
    assert!(ledger.claim(reservation(3, None, sink, ResourceKind::Stone, 5, 13)));

    assert_eq!(ledger.reserved_from(source, ResourceKind::Wood), 7);
    assert_eq!(
        ledger.reserved_from_excluding_worker(entity(1), source, ResourceKind::Wood),
        4
    );
    assert_eq!(ledger.reserved_to(sink, ResourceKind::Wood), 7);
    assert_eq!(ledger.reserved_to(sink, ResourceKind::Stone), 5);
    assert_eq!(ledger.reserved_capacity_to(sink), 12);
}

#[test]
fn ledger_aggregates_saturate() {
    let source = StockEndpoint::Warehouse(entity(100));
    let sink = SinkEndpoint::Storage(entity(101));
    let mut ledger = ReservationLedger::new();
    assert!(ledger.claim(reservation(1, Some(source), sink, ResourceKind::Wood, u32::MAX, 11)));
    assert!(ledger.claim(reservation(2, Some(source), sink, ResourceKind::Wood, 1, 12)));

    assert_eq!(ledger.reserved_from(source, ResourceKind::Wood), u32::MAX);
    assert_eq!(
        ledger.reserved_from_excluding_worker(entity(3), source, ResourceKind::Wood),
        u32::MAX
    );
    assert_eq!(ledger.reserved_to(sink, ResourceKind::Wood), u32::MAX);
    assert_eq!(ledger.reserved_capacity_to(sink), u32::MAX);
}

#[test]
fn claims_are_kept_in_deterministic_worker_order() {
    let sink = SinkEndpoint::Storage(entity(100));
    let mut ledger = ReservationLedger::new();
    let mut expected = [
        (entity(30), entity(13)),
        (entity(10), entity(12)),
        (entity(20), entity(11)),
    ];
    expected.sort_unstable_by_key(|(worker, task)| (worker.to_bits(), task.to_bits()));
    for &(worker, task) in expected.iter().rev() {
        assert!(ledger.claim(Reservation {
            worker,
            source: None,
            sink,
            kind: ResourceKind::Wood,
            amount: 1,
            task,
        }));
    }

    assert_eq!(
        ledger
            .claims()
            .iter()
            .map(|claim| (claim.worker, claim.task))
            .collect::<Vec<_>>(),
        expected
    );
}

#[test]
fn claims_reject_duplicate_workers_and_refinery_output_tasks() {
    let storage = SinkEndpoint::Storage(entity(100));
    let refinery_output = SinkEndpoint::RefineryOutput(entity(101));
    let mut ledger = ReservationLedger::new();
    assert!(ledger.claim(reservation(1, None, storage, ResourceKind::Wood, 1, 11)));

    assert!(!ledger.claim(reservation(1, None, storage, ResourceKind::Wood, 1, 12)));
    assert!(!ledger.claim(reservation(2, None, refinery_output, ResourceKind::Stone, 1, 11)));
    assert!(ledger.claim(reservation(2, None, storage, ResourceKind::Wood, 1, 11)));
}

#[test]
fn claims_can_be_released_by_worker_and_task() {
    let sink = SinkEndpoint::Storage(entity(100));
    let mut ledger = ReservationLedger::new();
    for (worker, task) in [(1, 11), (2, 12), (3, 12)] {
        assert!(ledger.claim(reservation(worker, None, sink, ResourceKind::Wood, 1, task)));
    }

    ledger.release_worker(entity(1));
    assert_eq!(ledger.claims().len(), 2);
    assert!(ledger
        .claims()
        .iter()
        .all(|claim| claim.worker != entity(1)));

    ledger.release_task(entity(12));
    assert!(ledger.claims().is_empty());
}

#[test]
fn claim_then_release_restores_the_ledger() {
    let sink = SinkEndpoint::Storage(entity(100));
    let mut ledger = ReservationLedger::new();
    assert!(ledger.claim(reservation(5, None, sink, ResourceKind::Wood, 2, 50)));
    let before: Vec<Reservation> = ledger.claims().to_vec();
    assert!(ledger.claim(reservation(7, None, sink, ResourceKind::Gold, 3, 70)));
    assert_eq!(ledger.reserved_capacity_to(sink), 5);
    ledger.release_worker(entity(7));
    assert_eq!(ledger.claims().to_vec(), before);
}
