use game_engine::buildings::BuildingKind;
use game_engine::entity::EntityId;
use game_engine::housing::{
    housing_snapshot, maintain_housing_assignments, House, HouseRecord, HousingAssignment,
    HousingUpdate, NpcRecord,
};

fn entity(index: u32) -> EntityId {
    EntityId::from_bits((1u64 << 32) | index as u64)
}

fn house(index: u32, kind: BuildingKind, order: u64) -> HouseRecord {
    let capacity = kind.housing_capacity().expect("test kind should be a house");
    HouseRecord { entity: entity(index), kind, house: House::new(capacity, order) }
}

fn npc(index: u32, assignment: Option<HousingAssignment>) -> NpcRecord {
    NpcRecord { entity: entity(index), assignment }
}

/// An NPC's assignment after a pass: its update, or what it held when the
/// pass kept it.
fn after(updates: &[HousingUpdate], npcs: &[NpcRecord], who: EntityId) -> Option<HousingAssignment> {
    match updates.iter().find(|u| u.npc == who) {
        Some(update) => update.assignment,
        None => npcs.iter().find(|n| n.entity == who).expect("known NPC").assignment,
    }
}

#[test]
fn assigns_npcs_to_oldest_house_and_lowest_slots() {
    let houses = [house(1, BuildingKind::MediumHouse, 2), house(2, BuildingKind::SmallHouse, 1)];
    let npcs = [npc(3, None), npc(4, None), npc(5, None)];

    let updates = maintain_housing_assignments(&houses, &npcs);

    assert_eq!(after(&updates, &npcs, entity(3)), Some(HousingAssignment::new(entity(2), 0)));
    assert_eq!(after(&updates, &npcs, entity(4)), Some(HousingAssignment::new(entity(2), 1)));
    assert_eq!(after(&updates, &npcs, entity(5)), Some(HousingAssignment::new(entity(1), 0)));
}

#[test]
fn preserves_valid_assignments_when_older_capacity_appears() {
    let newer = house(1, BuildingKind::SmallHouse, 2);
    let before = [npc(2, None)];
    let first = maintain_housing_assignments(&[newer], &before);
    let held = after(&first, &before, entity(2));
    assert_eq!(held, Some(HousingAssignment::new(entity(1), 0)));

    let houses = [newer, house(3, BuildingKind::SmallHouse, 1)];
    let now = [npc(2, held)];
    let second = maintain_housing_assignments(&houses, &now);

    assert_eq!(after(&second, &now, entity(2)), Some(HousingAssignment::new(entity(1), 0)));
}

#[test]
fn repairs_duplicate_and_stale_assignments() {
    let houses = [house(1, BuildingKind::SmallHouse, 0)];
    let npcs = [
        npc(2, Some(HousingAssignment::new(entity(1), 0))),
        npc(3, Some(HousingAssignment::new(entity(1), 0))),
        npc(4, Some(HousingAssignment::new(entity(99), 4))),
    ];

    let updates = maintain_housing_assignments(&houses, &npcs);

    assert_eq!(after(&updates, &npcs, entity(2)), Some(HousingAssignment::new(entity(1), 0)));
    assert_eq!(after(&updates, &npcs, entity(3)), Some(HousingAssignment::new(entity(1), 1)));
    assert_eq!(after(&updates, &npcs, entity(4)), None);
}

#[test]
fn snapshot_reports_slots_and_homeless_npcs() {
    let houses = [house(1, BuildingKind::SmallHouse, 0)];
    let npcs = [npc(2, Some(HousingAssignment::new(entity(1), 1))), npc(3, None)];

    let snapshot = housing_snapshot(&houses, &npcs);

    assert_eq!(snapshot.houses().len(), 1);
    assert_eq!(snapshot.houses()[0].residents(), &[None, Some(entity(2))]);
    assert_eq!(snapshot.homeless(), &[entity(3)]);
}

#[test]
fn house_despawn_reassigns_resident_to_remaining_capacity() {
    let removed = house(1, BuildingKind::SmallHouse, 0);
    let remaining = house(2, BuildingKind::SmallHouse, 1);
    let before = [npc(3, None)];
    let first = maintain_housing_assignments(&[removed, remaining], &before);
    let held = after(&first, &before, entity(3));
    assert_eq!(held, Some(HousingAssignment::new(entity(1), 0)));

    let now = [npc(3, held)];
    let second = maintain_housing_assignments(&[remaining], &now);

    assert_eq!(after(&second, &now, entity(3)), Some(HousingAssignment::new(entity(2), 0)));
}

#[test]
fn npc_despawn_frees_slot_for_next_colonist() {
    let houses = [house(1, BuildingKind::SmallHouse, 0)];
    let before = [npc(2, None)];
    let first = maintain_housing_assignments(&houses, &before);
    assert_eq!(after(&first, &before, entity(2)), Some(HousingAssignment::new(entity(1), 0)));

    let now = [npc(3, None)];
    let second = maintain_housing_assignments(&houses, &now);

    assert_eq!(after(&second, &now, entity(3)), Some(HousingAssignment::new(entity(1), 0)));
}
