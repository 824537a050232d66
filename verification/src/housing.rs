use crate::buildings::BuildingKind;
use crate::entity::EntityId;
use crate::sorting::{copy_to_vec, key_sorted, sort_by_key_order, KeyOrder};
use vstd::prelude::*;

verus! {

broadcast use vstd::seq_lib::group_to_multiset_ensures;

/// A completed house: how many residents it takes and when it was completed.
#[derive(Debug, Clone, Copy, PartialEq, Eq, Structural)]
pub struct House {
    pub capacity: usize,
    pub completion_order: u64,
}

impl House {
    pub fn new(capacity: usize, completion_order: u64) -> (r: Self)
        ensures
            r.capacity == capacity,
            r.completion_order == completion_order,
    {
        Self { capacity, completion_order }
    }

    pub fn capacity(self) -> (r: usize)
        ensures
            r == self.capacity,
    {
        self.capacity
    }

    pub fn completion_order(self) -> (r: u64)
        ensures
            r == self.completion_order,
    {
        self.completion_order
    }
}

/// The house slot an NPC lives in.
#[derive(Debug, Clone, Copy, PartialEq, Eq, Structural)]
pub struct HousingAssignment {
    pub house: EntityId,
    pub slot: usize,
}

impl HousingAssignment {
    pub fn new(house: EntityId, slot: usize) -> (r: Self)
        ensures
            r.house == house,
            r.slot == slot,
    {
        Self { house, slot }
    }

    pub fn house(self) -> (r: EntityId)
        ensures
            r == self.house,
    {
        self.house
    }

    pub fn slot(self) -> (r: usize)
        ensures
            r == self.slot,
    {
        self.slot
    }
}

/// A house entity of a surface, as the housing logic reads it.
#[derive(Debug, Clone, Copy, PartialEq, Eq, Structural)]
pub struct HouseRecord {
    pub entity: EntityId,
    pub kind: BuildingKind,
    pub house: House,
}

/// Houses are taken oldest first: by completion order, then entity index.
impl KeyOrder for HouseRecord {
    open spec fn key_le(self, other: Self) -> bool {
        self.house.completion_order < other.house.completion_order || (
        self.house.completion_order == other.house.completion_order && self.entity.slot()
            <= other.entity.slot())
    }

    proof fn lemma_key_le_reflexive(a: Self) {
    }

    proof fn lemma_key_le_transitive(a: Self, b: Self, c: Self) {
    }

    proof fn lemma_key_le_total(a: Self, b: Self) {
    }

    fn comes_no_later(&self, other: &Self) -> (r: bool) {
        self.house.completion_order < other.house.completion_order || (
        self.house.completion_order == other.house.completion_order && self.entity.index()
            <= other.entity.index())
    }
}

/// An NPC entity of a surface and its current housing assignment.
#[derive(Debug, Clone, Copy, PartialEq, Eq, Structural)]
pub struct NpcRecord {
    pub entity: EntityId,
    pub assignment: Option<HousingAssignment>,
}

/// NPCs are served by entity index.
impl KeyOrder for NpcRecord {
    open spec fn key_le(self, other: Self) -> bool {
        self.entity.slot() <= other.entity.slot()
    }

    proof fn lemma_key_le_reflexive(a: Self) {
    }

    proof fn lemma_key_le_transitive(a: Self, b: Self, c: Self) {
    }

    proof fn lemma_key_le_total(a: Self, b: Self) {
    }

    fn comes_no_later(&self, other: &Self) -> (r: bool) {
        self.entity.index() <= other.entity.index()
    }
}

/// A change to one NPC's housing: a new assignment, or removal of its assignment.
#[derive(Debug, Clone, Copy, PartialEq, Eq, Structural)]
pub struct HousingUpdate {
    pub npc: EntityId,
    pub assignment: Option<HousingAssignment>,
}

/// The first `n` records that are houses (kinds with a housing capacity).
pub open spec fn houses_only(records: Seq<HouseRecord>, n: int) -> Seq<HouseRecord>
    decreases n,
{
    if n <= 0 {
        seq![]
    } else if records[n - 1].kind.spec_housing_capacity() is Some {
        houses_only(records, n - 1).push(records[n - 1])
    } else {
        houses_only(records, n - 1)
    }
}

/// Whether an assignment names an existing slot of one of the houses.
pub open spec fn slot_exists(houses: Seq<HouseRecord>, a: HousingAssignment) -> bool {
    exists|i: int|
        0 <= i < houses.len() && #[trigger] houses[i].entity == a.house && a.slot
            < houses[i].house.capacity
}

/// Slots held by valid assignments among the first `k` NPCs: an assignment
/// is valid when its slot exists and no earlier NPC validly holds it.
pub open spec fn taken_before(houses: Seq<HouseRecord>, npcs: Seq<NpcRecord>, k: int) -> Set<
    HousingAssignment,
>
    decreases k,
{
    if k <= 0 {
        Set::empty()
    } else {
        let prev = taken_before(houses, npcs, k - 1);
        match npcs[k - 1].assignment {
            Some(a) => if slot_exists(houses, a) && !prev.contains(a) {
                prev.insert(a)
            } else {
                prev
            },
            None => prev,
        }
    }
}

/// Whether NPC `k` validly holds its assignment.
pub open spec fn claim_ok(houses: Seq<HouseRecord>, npcs: Seq<NpcRecord>, k: int) -> bool {
    match npcs[k].assignment {
        Some(a) => slot_exists(houses, a) && !taken_before(houses, npcs, k).contains(a),
        None => false,
    }
}

/// NPCs among the first `k` without a valid assignment, in order.
pub open spec fn homeless_list(houses: Seq<HouseRecord>, npcs: Seq<NpcRecord>, k: int) -> Seq<
    EntityId,
>
    decreases k,
{
    if k <= 0 {
        seq![]
    } else if claim_ok(houses, npcs, k - 1) {
        homeless_list(houses, npcs, k - 1)
    } else {
        homeless_list(houses, npcs, k - 1).push(npcs[k - 1].entity)
    }
}

/// Slots `0..s` of one house that are not taken, in slot order.
pub open spec fn free_in_house(house: EntityId, taken: Set<HousingAssignment>, s: int) -> Seq<
    HousingAssignment,
>
    decreases s,
{
    if s <= 0 {
        seq![]
    } else {
        let a = HousingAssignment { house, slot: (s - 1) as usize };
        if taken.contains(a) {
            free_in_house(house, taken, s - 1)
        } else {
            free_in_house(house, taken, s - 1).push(a)
        }
    }
}

/// Free slots of the first `n` houses, house by house.
pub open spec fn free_slots(houses: Seq<HouseRecord>, taken: Set<HousingAssignment>, n: int) -> Seq<
    HousingAssignment,
>
    decreases n,
{
    if n <= 0 {
        seq![]
    } else {
        free_slots(houses, taken, n - 1) + free_in_house(
            houses[n - 1].entity,
            taken,
            houses[n - 1].house.capacity as int,
        )
    }
}

/// The updates of one housing pass over ordered houses and ordered NPCs: the
/// i-th NPC without a valid assignment gets the i-th free slot, or loses its
/// assignment when the free slots have run out. NPCs with valid assignments
/// keep them and get no update.
pub open spec fn housing_updates_match(
    houses: Seq<HouseRecord>,
    npcs: Seq<NpcRecord>,
    updates: Seq<HousingUpdate>,
) -> bool {
    let taken = taken_before(houses, npcs, npcs.len() as int);
    let free = free_slots(houses, taken, houses.len() as int);
    let homeless = homeless_list(houses, npcs, npcs.len() as int);
    &&& updates.len() == homeless.len()
    &&& forall|i: int|
        0 <= i < updates.len() ==> (#[trigger] updates[i]).npc == homeless[i] && updates[i].assignment
            == (if i < free.len() {
            Some(free[i])
        } else {
            None
        })
}

/// Entity indices of the records are pairwise distinct.
pub open spec fn distinct_house_entities(houses: Seq<HouseRecord>) -> bool {
    forall|i: int, j: int|
        0 <= i < j < houses.len() ==> #[trigger] houses[i].entity.slot() != #[trigger] houses[j].entity.slot()
}

fn house_position(houses: &Vec<HouseRecord>, e: EntityId) -> (r: Option<usize>)
    ensures
        match r {
            Some(i) => i < houses@.len() && houses@[i as int].entity == e,
            None => forall|i: int| 0 <= i < houses@.len() ==> #[trigger] houses@[i].entity != e,
        },
{
    let mut i: usize = 0;
    while i < houses.len()
        invariant
            0 <= i <= houses@.len(),
            forall|j: int| 0 <= j < i ==> #[trigger] houses@[j].entity != e,
        decreases houses@.len() - i,
    {
        if houses[i].entity == e {
            return Some(i);
        }
        i = i + 1;
    }
    None
}

fn taken_contains(taken: &Vec<HousingAssignment>, a: HousingAssignment) -> (r: bool)
    ensures
        r == taken@.contains(a),
{
    let mut i: usize = 0;
    while i < taken.len()
        invariant
            0 <= i <= taken@.len(),
            forall|j: int| 0 <= j < i ==> #[trigger] taken@[j] != a,
        decreases taken@.len() - i,
    {
        if taken[i] == a {
            proof {
                assert(taken@[i as int] == a);
            }
            return true;
        }
        i = i + 1;
    }
    false
}

fn filter_houses(records: &[HouseRecord]) -> (r: Vec<HouseRecord>)
    ensures
        r@ == houses_only(records@, records@.len() as int),
{
    let mut out: Vec<HouseRecord> = Vec::new();
    let mut i: usize = 0;
    while i < records.len()
        invariant
            0 <= i <= records@.len(),
            out@ == houses_only(records@, i as int),
        decreases records@.len() - i,
    {
        if records[i].kind.housing_capacity().is_some() {
            out.push(records[i]);
        }
        i = i + 1;
    }
    out
}

/// Valid claims among ordered NPCs, and the NPCs left without a valid claim.
fn collect_claims(houses: &Vec<HouseRecord>, npcs: &Vec<NpcRecord>) -> (r: (
    Vec<HousingAssignment>,
    Vec<EntityId>,
    Vec<bool>,
))
    requires
        distinct_house_entities(houses@),
    ensures
        r.0@.to_set() == taken_before(houses@, npcs@, npcs@.len() as int),
        r.1@ == homeless_list(houses@, npcs@, npcs@.len() as int),
        r.2@.len() == npcs@.len(),
        forall|k: int| 0 <= k < npcs@.len() ==> #[trigger] r.2@[k] == claim_ok(houses@, npcs@, k),
{
    let mut taken: Vec<HousingAssignment> = Vec::new();
    let mut homeless: Vec<EntityId> = Vec::new();
    let mut valid: Vec<bool> = Vec::new();
    let mut k: usize = 0;
    while k < npcs.len()
        invariant
            0 <= k <= npcs@.len(),
            distinct_house_entities(houses@),
            taken@.to_set() == taken_before(houses@, npcs@, k as int),
            homeless@ == homeless_list(houses@, npcs@, k as int),
            valid@.len() == k,
            forall|j: int| 0 <= j < k ==> #[trigger] valid@[j] == claim_ok(houses@, npcs@, j),
        decreases npcs@.len() - k,
    {
        let npc = npcs[k];
        let mut ok = false;
        if let Some(a) = npc.assignment {
            if let Some(h) = house_position(houses, a.house) {
                if a.slot < houses[h].house.capacity && !taken_contains(&taken, a) {
                    ok = true;
                }
                proof {
                    if a.slot >= houses@[h as int].house.capacity {
                        assert(!slot_exists(houses@, a)) by {
                            if slot_exists(houses@, a) {
                                let i = choose|i: int|
                                    0 <= i < houses@.len() && #[trigger] houses@[i].entity
                                        == a.house && a.slot < houses@[i].house.capacity;
                                if i != h {
                                    if i < h {
                                        assert(houses@[i].entity.slot() != houses@[h as int].entity.slot());
                                    } else {
                                        assert(houses@[h as int].entity.slot() != houses@[i].entity.slot());
                                    }
                                }
                            }
                        }
                    } else {
                        assert(houses@[h as int].entity == a.house);
                        assert(slot_exists(houses@, a));
                    }
                }
            }
            if ok {
                proof {
                    taken@.lemma_push_to_set_commute(a);
                }
                taken.push(a);
            }
        }
        proof {
            assert(ok == claim_ok(houses@, npcs@, k as int));
        }
        if !ok {
            homeless.push(npc.entity);
        }
        valid.push(ok);
        k = k + 1;
    }
    (taken, homeless, valid)
}

/// Free slots of the ordered houses given the taken slots, house by house.
fn list_free_slots(houses: &Vec<HouseRecord>, taken: &Vec<HousingAssignment>) -> (r: Vec<
    HousingAssignment,
>)
    ensures
        r@ == free_slots(houses@, taken@.to_set(), houses@.len() as int),
{
    let ghost t = taken@.to_set();
    let mut free: Vec<HousingAssignment> = Vec::new();
    let mut h: usize = 0;
    while h < houses.len()
        invariant
            0 <= h <= houses@.len(),
            t == taken@.to_set(),
            free@ == free_slots(houses@, t, h as int),
        decreases houses@.len() - h,
    {
        let entity = houses[h].entity;
        let capacity = houses[h].house.capacity;
        let ghost base = free@;
        let mut s: usize = 0;
        while s < capacity
            invariant
                0 <= s <= capacity,
                t == taken@.to_set(),
                free@ == base + free_in_house(entity, t, s as int),
            decreases capacity - s,
        {
            let a = HousingAssignment { house: entity, slot: s };
            if !taken_contains(taken, a) {
                free.push(a);
                proof {
                    assert(base + free_in_house(entity, t, s + 1) == (base + free_in_house(
                        entity,
                        t,
                        s as int,
                    )).push(a));
                }
            }
            s = s + 1;
        }
        h = h + 1;
    }
    free
}

/// One housing pass over houses and NPCs already in service order.
pub fn assign_housing_ordered(houses: &Vec<HouseRecord>, npcs: &Vec<NpcRecord>) -> (r: Vec<
    HousingUpdate,
>)
    requires
        distinct_house_entities(houses@),
    ensures
        housing_updates_match(houses@, npcs@, r@),
{
    let (taken, homeless, _) = collect_claims(houses, npcs);
    let free = list_free_slots(houses, &taken);
    let mut updates: Vec<HousingUpdate> = Vec::new();
    let mut i: usize = 0;
    while i < homeless.len()
        invariant
            0 <= i <= homeless@.len(),
            updates@.len() == i,
            forall|j: int|
                0 <= j < i ==> (#[trigger] updates@[j]).npc == homeless@[j] && updates@[j].assignment
                    == (if j < free@.len() {
                    Some(free@[j])
                } else {
                    None
                }),
        decreases homeless@.len() - i,
    {
        let assignment = if i < free.len() {
            Some(free[i])
        } else {
            None
        };
        updates.push(HousingUpdate { npc: homeless[i], assignment });
        i = i + 1;
    }
    updates
}

/// Sorting keeps pairwise distinct entity indices pairwise distinct.
proof fn lemma_sorted_houses_distinct(houses: Seq<HouseRecord>, sorted: Seq<HouseRecord>)
    requires
        distinct_house_entities(houses),
        sorted.to_multiset() == houses.to_multiset(),
    ensures
        distinct_house_entities(sorted),
{
    assert forall|i: int, j: int| 0 <= i < j < sorted.len() implies #[trigger] sorted[i].entity.slot()
        != #[trigger] sorted[j].entity.slot() by {
        assert(sorted.to_multiset().count(sorted[i]) > 0);
        assert(sorted.to_multiset().count(sorted[j]) > 0);
        assert(houses.contains(sorted[i]));
        assert(houses.contains(sorted[j]));
        let a = choose|a: int| 0 <= a < houses.len() && houses[a] == sorted[i];
        let b = choose|b: int| 0 <= b < houses.len() && houses[b] == sorted[j];
        if sorted[i] == sorted[j] {
            lemma_two_positions_two_copies(sorted, i, j);
            lemma_distinct_counts_at_most_one(houses, houses.len() as int, sorted[i]);
            assert(houses.subrange(0, houses.len() as int) == houses);
        } else if a != b {
            if a < b {
                assert(houses[a].entity.slot() != houses[b].entity.slot());
            } else {
                assert(houses[b].entity.slot() != houses[a].entity.slot());
            }
        }
    }
}

/// In a sequence with distinct entity indices every record occurs at most once.
proof fn lemma_distinct_counts_at_most_one(s: Seq<HouseRecord>, n: int, x: HouseRecord)
    requires
        0 <= n <= s.len(),
        distinct_house_entities(s),
    ensures
        s.subrange(0, n).to_multiset().count(x) <= 1,
        s.subrange(0, n).to_multiset().count(x) == 0 <==> !s.subrange(0, n).contains(x),
    decreases n,
{
    let p = s.subrange(0, n);
    if n > 0 {
        lemma_distinct_counts_at_most_one(s, n - 1, x);
        let q = s.subrange(0, n - 1);
        assert(p == q.push(s[n - 1]));
        vstd::seq_lib::to_multiset_build(q, s[n - 1]);
        if s[n - 1] == x {
            if q.contains(x) {
                let k = choose|k: int| 0 <= k < q.len() && q[k] == x;
                assert(s[k].entity.slot() != s[n - 1].entity.slot());
            }
        }
        if p.contains(x) && !q.contains(x) {
            assert(s[n - 1] == x) by {
                let k = choose|k: int| 0 <= k < p.len() && p[k] == x;
                if k < n - 1 {
                    assert(q[k] == x);
                }
            }
        }
        if q.contains(x) {
            let k = choose|k: int| 0 <= k < q.len() && q[k] == x;
            assert(p[k] == x);
        }
    }
}

/// A value at two positions of a sequence of distinct-index houses is impossible.
proof fn lemma_two_positions_two_copies(s: Seq<HouseRecord>, i: int, j: int)
    requires
        0 <= i < j < s.len(),
        s[i] == s[j],
    ensures
        s.to_multiset().count(s[i]) >= 2,
{
    let x = s[i];
    let s1 = s.subrange(0, j);
    let s2 = s.subrange(j, s.len() as int);
    assert(s == s1 + s2);
    vstd::seq_lib::lemma_multiset_commutative(s1, s2);
    assert(s1.contains(x));
    assert(s2.contains(x)) by {
        assert(s2[0] == x);
    }
    assert(s1.to_multiset().count(x) >= 1);
    assert(s2.to_multiset().count(x) >= 1);
    assert((s1 + s2).to_multiset() == s1.to_multiset().add(s2.to_multiset()));
}

/// One pass of housing maintenance. Houses are served oldest first (by
/// completion order, then entity index) and NPCs by entity index. A valid
/// assignment (an existing slot not validly held by an earlier NPC) is kept.
/// Every other NPC takes the next free slot, lowest slot first within the
/// oldest house that has one, and loses its assignment when none is left.
/// Records of kinds without a housing capacity are ignored.
pub fn maintain_housing_assignments(houses: &[HouseRecord], npcs: &[NpcRecord]) -> (r: Vec<
    HousingUpdate,
>)
    requires
        distinct_house_entities(houses@),
    ensures
        exists|ordered_houses: Seq<HouseRecord>, ordered_npcs: Seq<NpcRecord>|
            {
                &&& ordered_houses.to_multiset() == houses_only(
                    houses@,
                    houses@.len() as int,
                ).to_multiset()
                &&& key_sorted(ordered_houses)
                &&& ordered_npcs.to_multiset() == npcs@.to_multiset()
                &&& key_sorted(ordered_npcs)
                &&& housing_updates_match(ordered_houses, ordered_npcs, r@)
            },
{
    let candidates = filter_houses(houses);
    proof {
        lemma_houses_only_distinct(houses@, houses@.len() as int);
    }
    let ordered_houses = sort_by_key_order(&candidates);
    proof {
        lemma_sorted_houses_distinct(candidates@, ordered_houses@);
    }
    let npc_list = copy_to_vec(npcs);
    let ordered_npcs = sort_by_key_order(&npc_list);
    let r = assign_housing_ordered(&ordered_houses, &ordered_npcs);
    proof {
        assert(npc_list@ == npcs@);
    }
    r
}

/// Filtering keeps distinct entity indices distinct.
proof fn lemma_houses_only_distinct(records: Seq<HouseRecord>, n: int)
    requires
        0 <= n <= records.len(),
        distinct_house_entities(records),
    ensures
        distinct_house_entities(houses_only(records, n)),
        forall|i: int|
            0 <= i < houses_only(records, n).len() ==> exists|j: int|
                0 <= j < n && records[j] == #[trigger] houses_only(records, n)[i],
    decreases n,
{
    if n > 0 {
        lemma_houses_only_distinct(records, n - 1);
        let prev = houses_only(records, n - 1);
        if records[n - 1].kind.spec_housing_capacity() is Some {
            let cur = prev.push(records[n - 1]);
            assert forall|i: int, j: int| 0 <= i < j < cur.len() implies #[trigger] cur[i].entity.slot()
                != #[trigger] cur[j].entity.slot() by {
                if j == prev.len() {
                    let a = choose|a: int| 0 <= a < n - 1 && records[a] == #[trigger] prev[i];
                    assert(records[a].entity.slot() != records[n - 1].entity.slot());
                } else {
                    assert(prev[i].entity.slot() != prev[j].entity.slot());
                }
            }
            assert forall|i: int| 0 <= i < cur.len() implies exists|j: int|
                0 <= j < n && records[j] == #[trigger] cur[i] by {
                if i == prev.len() {
                    assert(records[n - 1] == cur[i]);
                } else {
                    let a = choose|a: int| 0 <= a < n - 1 && records[a] == #[trigger] prev[i];
                    assert(records[a] == cur[i]);
                }
            }
        }
    }
}

/// The assignment NPC `k` holds once a pass's updates are applied.
pub open spec fn assignment_after_pass(houses: Seq<HouseRecord>, npcs: Seq<NpcRecord>, k: int) -> Option<
    HousingAssignment,
> {
    if claim_ok(houses, npcs, k) {
        npcs[k].assignment
    } else {
        let i = homeless_list(houses, npcs, k).len() as int;
        let free = free_slots(
            houses,
            taken_before(houses, npcs, npcs.len() as int),
            houses.len() as int,
        );
        if i < free.len() {
            Some(free[i])
        } else {
            None
        }
    }
}

/// Valid claims only grow the taken set, and a claim's slot is taken from then on.
proof fn lemma_taken_monotone(houses: Seq<HouseRecord>, npcs: Seq<NpcRecord>, k1: int, k2: int)
    requires
        0 <= k1 <= k2 <= npcs.len(),
    ensures
        taken_before(houses, npcs, k1).subset_of(taken_before(houses, npcs, k2)),
        forall|a: HousingAssignment|
            #[trigger] taken_before(houses, npcs, k2).contains(a) ==> slot_exists(houses, a),
    decreases k2,
{
    if k2 > 0 {
        lemma_taken_monotone(houses, npcs, if k1 < k2 { k1 } else { k2 - 1 }, k2 - 1);
    }
}

/// Slots listed for one house are its slots below `s`, free and in increasing order.
proof fn lemma_free_in_house(house: EntityId, taken: Set<HousingAssignment>, s: int)
    requires
        0 <= s <= usize::MAX,
    ensures
        forall|i: int|
            0 <= i < free_in_house(house, taken, s).len() ==> {
                let a = #[trigger] free_in_house(house, taken, s)[i];
                a.house == house && a.slot < s && !taken.contains(a)
            },
        forall|i: int, j: int|
            0 <= i < j < free_in_house(house, taken, s).len() ==> #[trigger] free_in_house(
                house,
                taken,
                s,
            )[i].slot < #[trigger] free_in_house(house, taken, s)[j].slot,
    decreases s,
{
    if s > 0 {
        lemma_free_in_house(house, taken, s - 1);
        let prev = free_in_house(house, taken, s - 1);
        let cur = free_in_house(house, taken, s);
        let a = HousingAssignment { house, slot: (s - 1) as usize };
        if !taken.contains(a) {
            assert(cur == prev.push(a));
            assert forall|i: int| 0 <= i < cur.len() implies {
                let b = #[trigger] cur[i];
                b.house == house && b.slot < s && !taken.contains(b)
            } by {
                if i < prev.len() {
                    assert(cur[i] == prev[i]);
                }
            }
            assert forall|i: int, j: int| 0 <= i < j < cur.len() implies #[trigger] cur[i].slot
                < #[trigger] cur[j].slot by {
                assert(cur[i] == prev[i]);
                if j < prev.len() {
                    assert(cur[j] == prev[j]);
                }
            }
        }
    }
}

/// Free slots are free, exist, and are listed once each.
proof fn lemma_free_slots(houses: Seq<HouseRecord>, taken: Set<HousingAssignment>, n: int)
    requires
        0 <= n <= houses.len(),
        distinct_house_entities(houses),
    ensures
        forall|i: int|
            0 <= i < free_slots(houses, taken, n).len() ==> {
                let a = #[trigger] free_slots(houses, taken, n)[i];
                &&& !taken.contains(a)
                &&& exists|h: int|
                    0 <= h < n && #[trigger] houses[h].entity == a.house && a.slot
                        < houses[h].house.capacity
            },
        forall|i: int, j: int|
            0 <= i < j < free_slots(houses, taken, n).len() ==> #[trigger] free_slots(
                houses,
                taken,
                n,
            )[i] != #[trigger] free_slots(houses, taken, n)[j],
    decreases n,
{
    if n > 0 {
        lemma_free_slots(houses, taken, n - 1);
        let prev = free_slots(houses, taken, n - 1);
        let e = houses[n - 1].entity;
        let cap = houses[n - 1].house.capacity as int;
        let last = free_in_house(e, taken, cap);
        lemma_free_in_house(e, taken, cap);
        let cur = free_slots(houses, taken, n);
        assert(cur == prev + last);
        assert forall|i: int| 0 <= i < cur.len() implies {
            let a = #[trigger] cur[i];
            &&& !taken.contains(a)
            &&& exists|h: int|
                0 <= h < n && #[trigger] houses[h].entity == a.house && a.slot
                    < houses[h].house.capacity
        } by {
            if i >= prev.len() {
                assert(cur[i] == last[i - prev.len()]);
                assert(houses[n - 1].entity == cur[i].house);
            } else {
                assert(cur[i] == prev[i]);
                let h = choose|h: int|
                    0 <= h < n - 1 && #[trigger] houses[h].entity == prev[i].house && prev[i].slot
                        < houses[h].house.capacity;
                assert(houses[h].entity == cur[i].house);
            }
        }
        assert forall|i: int, j: int| 0 <= i < j < cur.len() implies #[trigger] cur[i] != #[trigger] cur[j] by {
            if j < prev.len() {
                assert(cur[i] == prev[i] && cur[j] == prev[j]);
            } else if i >= prev.len() {
                assert(cur[i] == last[i - prev.len()] && cur[j] == last[j - prev.len()]);
            } else {
                assert(cur[i] == prev[i] && cur[j] == last[j - prev.len()]);
                let h = choose|h: int|
                    0 <= h < n - 1 && #[trigger] houses[h].entity == prev[i].house && prev[i].slot
                        < houses[h].house.capacity;
                assert(houses[h].entity.slot() != houses[n - 1].entity.slot());
            }
        }
    }
}

/// Homeless NPCs are numbered in order: an earlier homeless NPC has a smaller number.
proof fn lemma_homeless_numbering(houses: Seq<HouseRecord>, npcs: Seq<NpcRecord>, k1: int, k2: int)
    requires
        0 <= k1 < k2 <= npcs.len(),
        !claim_ok(houses, npcs, k1),
    ensures
        homeless_list(houses, npcs, k1).len() < homeless_list(houses, npcs, k2).len(),
        homeless_list(houses, npcs, k2).len() <= k2,
        homeless_list(houses, npcs, k1 + 1)[homeless_list(houses, npcs, k1).len() as int]
            == npcs[k1].entity,
    decreases k2 - k1,
{
    lemma_homeless_len(houses, npcs, k2);
    if k2 > k1 + 1 {
        lemma_homeless_numbering(houses, npcs, k1, k2 - 1);
    }
}

proof fn lemma_homeless_len(houses: Seq<HouseRecord>, npcs: Seq<NpcRecord>, k: int)
    requires
        0 <= k,
    ensures
        homeless_list(houses, npcs, k).len() <= k,
    decreases k,
{
    if k > 0 {
        lemma_homeless_len(houses, npcs, k - 1);
    }
}

/// After a housing pass every NPC that holds an assignment holds an existing
/// slot, and no two NPCs hold the same slot.
pub proof fn lemma_pass_leaves_no_shared_slot(
    houses: Seq<HouseRecord>,
    npcs: Seq<NpcRecord>,
    k1: int,
    k2: int,
)
    requires
        distinct_house_entities(houses),
        0 <= k1 < k2 < npcs.len(),
    ensures
        assignment_after_pass(houses, npcs, k1) matches Some(a) ==> slot_exists(houses, a),
        assignment_after_pass(houses, npcs, k1) is Some ==> assignment_after_pass(houses, npcs, k1)
            != assignment_after_pass(houses, npcs, k2),
{
    let n = npcs.len() as int;
    let taken = taken_before(houses, npcs, n);
    let free = free_slots(houses, taken, houses.len() as int);
    lemma_free_slots(houses, taken, houses.len() as int);
    lemma_taken_monotone(houses, npcs, k1 + 1, n);
    lemma_taken_monotone(houses, npcs, k2 + 1, n);
    lemma_taken_monotone(houses, npcs, k1 + 1, k2);
    if claim_ok(houses, npcs, k1) {
        let a1 = npcs[k1].assignment.unwrap();
        assert(taken_before(houses, npcs, k1 + 1).contains(a1));
        if claim_ok(houses, npcs, k2) {
            assert(!taken_before(houses, npcs, k2).contains(npcs[k2].assignment.unwrap()));
        } else {
            let i = homeless_list(houses, npcs, k2).len() as int;
            if i < free.len() {
                assert(!taken.contains(free[i]));
            }
        }
    } else {
        let i1 = homeless_list(houses, npcs, k1).len() as int;
        if i1 < free.len() {
            let a1 = free[i1];
            assert(slot_exists(houses, a1)) by {
                let h = choose|h: int|
                    0 <= h < houses.len() && #[trigger] houses[h].entity == a1.house && a1.slot
                        < houses[h].house.capacity;
            }
            if claim_ok(houses, npcs, k2) {
                let a2 = npcs[k2].assignment.unwrap();
                assert(taken_before(houses, npcs, k2 + 1).contains(a2));
            } else {
                lemma_homeless_numbering(houses, npcs, k1, k2);
                let i2 = homeless_list(houses, npcs, k2).len() as int;
                if i2 < free.len() {
                    assert(free[i1] != free[i2]);
                }
            }
        }
    }
}

/// Residents of one house slot by slot, as a snapshot reports them.
#[derive(Debug, Clone, PartialEq, Eq)]
pub struct HouseOccupancy {
    pub house: EntityId,
    pub kind: BuildingKind,
    pub residents: Vec<Option<EntityId>>,
}

impl HouseOccupancy {
    pub fn house(&self) -> (r: EntityId)
        ensures
            r == self.house,
    {
        self.house
    }

    pub fn kind(&self) -> (r: BuildingKind)
        ensures
            r == self.kind,
    {
        self.kind
    }

    pub fn capacity(&self) -> (r: usize)
        ensures
            r == self.residents@.len(),
    {
        self.residents.len()
    }

    /// Number of occupied slots.
    pub fn occupied(&self) -> (r: usize)
        ensures
            r == occupied_count(self.residents@, self.residents@.len() as int),
    {
        let mut count: usize = 0;
        let mut i: usize = 0;
        while i < self.residents.len()
            invariant
                0 <= i <= self.residents@.len(),
                count == occupied_count(self.residents@, i as int),
                count <= i,
            decreases self.residents@.len() - i,
        {
            if self.residents[i].is_some() {
                count = count + 1;
            }
            i = i + 1;
        }
        count
    }

    pub fn residents(&self) -> (r: &[Option<EntityId>])
        ensures
            r@ == self.residents@,
    {
        self.residents.as_slice()
    }
}

/// Occupied slots among the first `n`.
pub open spec fn occupied_count(slots: Seq<Option<EntityId>>, n: int) -> int
    decreases n,
{
    if n <= 0 {
        0
    } else {
        occupied_count(slots, n - 1) + if slots[n - 1] is Some { 1int } else { 0 }
    }
}

/// Housing of a surface: every house's slots and the NPCs without a valid slot.
#[derive(Debug, Clone, PartialEq, Eq)]
pub struct HousingSnapshot {
    pub houses: Vec<HouseOccupancy>,
    pub homeless: Vec<EntityId>,
}

impl HousingSnapshot {
    pub fn houses(&self) -> (r: &[HouseOccupancy])
        ensures
            r@ == self.houses@,
    {
        self.houses.as_slice()
    }

    pub fn homeless(&self) -> (r: &[EntityId])
        ensures
            r@ == self.homeless@,
    {
        self.homeless.as_slice()
    }

    /// The occupancy of a house, if the snapshot lists it.
    pub fn house(&self, entity: EntityId) -> (r: Option<&HouseOccupancy>)
        ensures
            match r {
                Some(o) => exists|i: int|
                    0 <= i < self.houses@.len() && self.houses@[i] == *o && o.house == entity
                        && forall|j: int| 0 <= j < i ==> (#[trigger] self.houses@[j]).house != entity,
                None => forall|i: int|
                    0 <= i < self.houses@.len() ==> (#[trigger] self.houses@[i]).house != entity,
            },
    {
        let mut i: usize = 0;
        while i < self.houses.len()
            invariant
                0 <= i <= self.houses@.len(),
                forall|j: int| 0 <= j < i ==> (#[trigger] self.houses@[j]).house != entity,
            decreases self.houses@.len() - i,
        {
            if self.houses[i].house == entity {
                return Some(&self.houses[i]);
            }
            i = i + 1;
        }
        None
    }
}

/// The NPC validly holding a slot, if any.
pub open spec fn resident_of(houses: Seq<HouseRecord>, npcs: Seq<NpcRecord>, a: HousingAssignment) -> Option<
    EntityId,
> {
    if exists|k: int| 0 <= k < npcs.len() && claim_ok(houses, npcs, k) && npcs[k].assignment == Some(a) {
        Some(
            npcs[choose|k: int|
                0 <= k < npcs.len() && claim_ok(houses, npcs, k) && npcs[k].assignment == Some(
                    a,
                )].entity,
        )
    } else {
        None
    }
}

/// Two valid claims never hold the same slot.
pub proof fn lemma_valid_claims_distinct(houses: Seq<HouseRecord>, npcs: Seq<NpcRecord>, k1: int, k2: int)
    requires
        0 <= k1 < k2 < npcs.len(),
        claim_ok(houses, npcs, k1),
        claim_ok(houses, npcs, k2),
    ensures
        npcs[k1].assignment != npcs[k2].assignment,
{
    lemma_taken_monotone(houses, npcs, k1 + 1, k2);
    assert(taken_before(houses, npcs, k1 + 1).contains(npcs[k1].assignment.unwrap()));
}

/// Whether a snapshot lists the ordered houses slot by slot with their valid
/// residents, and the NPCs without a valid slot.
pub open spec fn snapshot_matches(
    houses: Seq<HouseRecord>,
    npcs: Seq<NpcRecord>,
    snapshot: HousingSnapshot,
) -> bool {
    &&& snapshot.homeless@ == homeless_list(houses, npcs, npcs.len() as int)
    &&& snapshot.houses@.len() == houses.len()
    &&& forall|h: int|
        0 <= h < houses.len() ==> {
            let o = #[trigger] snapshot.houses@[h];
            &&& o.house == houses[h].entity
            &&& o.kind == houses[h].kind
            &&& o.residents@.len() == houses[h].house.capacity
            &&& forall|s: int|
                0 <= s < o.residents@.len() ==> #[trigger] o.residents@[s] == resident_of(
                    houses,
                    npcs,
                    HousingAssignment { house: houses[h].entity, slot: s as usize },
                )
        }
}

fn resident_lookup(
    houses: &Vec<HouseRecord>,
    npcs: &Vec<NpcRecord>,
    valid: &Vec<bool>,
    a: HousingAssignment,
) -> (r: Option<EntityId>)
    requires
        valid@.len() == npcs@.len(),
        forall|k: int| 0 <= k < npcs@.len() ==> #[trigger] valid@[k] == claim_ok(houses@, npcs@, k),
    ensures
        r == resident_of(houses@, npcs@, a),
{
    let mut k: usize = 0;
    while k < npcs.len()
        invariant
            0 <= k <= npcs@.len(),
            valid@.len() == npcs@.len(),
            forall|j: int| 0 <= j < npcs@.len() ==> #[trigger] valid@[j] == claim_ok(houses@, npcs@, j),
            forall|j: int|
                0 <= j < k ==> !(claim_ok(houses@, npcs@, j) && #[trigger] npcs@[j].assignment == Some(a)),
        decreases npcs@.len() - k,
    {
        if valid[k] && npcs[k].assignment == Some(a) {
            proof {
                let c = choose|c: int|
                    0 <= c < npcs@.len() && claim_ok(houses@, npcs@, c) && npcs@[c].assignment
                        == Some(a);
                if c != k {
                    if c < k {
                        lemma_valid_claims_distinct(houses@, npcs@, c, k as int);
                    } else {
                        lemma_valid_claims_distinct(houses@, npcs@, k as int, c);
                    }
                }
            }
            return Some(npcs[k].entity);
        }
        k = k + 1;
    }
    None
}

/// The housing snapshot of houses and NPCs already in service order.
pub fn housing_snapshot_ordered(houses: &Vec<HouseRecord>, npcs: &Vec<NpcRecord>) -> (r:
    HousingSnapshot)
    requires
        distinct_house_entities(houses@),
    ensures
        snapshot_matches(houses@, npcs@, r),
{
    let (_, homeless, valid) = collect_claims(houses, npcs);
    let mut occupancies: Vec<HouseOccupancy> = Vec::new();
    let mut h: usize = 0;
    while h < houses.len()
        invariant
            0 <= h <= houses@.len(),
            valid@.len() == npcs@.len(),
            forall|k: int| 0 <= k < npcs@.len() ==> #[trigger] valid@[k] == claim_ok(houses@, npcs@, k),
            occupancies@.len() == h,
            forall|g: int|
                0 <= g < h ==> {
                    let o = #[trigger] occupancies@[g];
                    &&& o.house == houses@[g].entity
                    &&& o.kind == houses@[g].kind
                    &&& o.residents@.len() == houses@[g].house.capacity
                    &&& forall|s: int|
                        0 <= s < o.residents@.len() ==> #[trigger] o.residents@[s] == resident_of(
                            houses@,
                            npcs@,
                            HousingAssignment { house: houses@[g].entity, slot: s as usize },
                        )
                },
        decreases houses@.len() - h,
    {
        let record = houses[h];
        let mut residents: Vec<Option<EntityId>> = Vec::new();
        let mut s: usize = 0;
        while s < record.house.capacity
            invariant
                0 <= s <= record.house.capacity,
                record == houses@[h as int],
                valid@.len() == npcs@.len(),
                forall|k: int|
                    0 <= k < npcs@.len() ==> #[trigger] valid@[k] == claim_ok(houses@, npcs@, k),
                residents@.len() == s,
                forall|t: int|
                    0 <= t < s ==> #[trigger] residents@[t] == resident_of(
                        houses@,
                        npcs@,
                        HousingAssignment { house: record.entity, slot: t as usize },
                    ),
            decreases record.house.capacity - s,
        {
            let resident = resident_lookup(
                houses,
                npcs,
                &valid,
                HousingAssignment { house: record.entity, slot: s },
            );
            residents.push(resident);
            s = s + 1;
        }
        occupancies.push(HouseOccupancy { house: record.entity, kind: record.kind, residents });
        h = h + 1;
    }
    HousingSnapshot { houses: occupancies, homeless }
}

/// Housing of a surface: houses oldest first with their residents slot by
/// slot, and the NPCs (by entity index) without a valid slot.
pub fn housing_snapshot(houses: &[HouseRecord], npcs: &[NpcRecord]) -> (r: HousingSnapshot)
    requires
        distinct_house_entities(houses@),
    ensures
        exists|ordered_houses: Seq<HouseRecord>, ordered_npcs: Seq<NpcRecord>|
            {
                &&& ordered_houses.to_multiset() == houses_only(
                    houses@,
                    houses@.len() as int,
                ).to_multiset()
                &&& key_sorted(ordered_houses)
                &&& ordered_npcs.to_multiset() == npcs@.to_multiset()
                &&& key_sorted(ordered_npcs)
                &&& snapshot_matches(ordered_houses, ordered_npcs, r)
            },
{
    let candidates = filter_houses(houses);
    proof {
        lemma_houses_only_distinct(houses@, houses@.len() as int);
    }
    let ordered_houses = sort_by_key_order(&candidates);
    proof {
        lemma_sorted_houses_distinct(candidates@, ordered_houses@);
    }
    let npc_list = copy_to_vec(npcs);
    let ordered_npcs = sort_by_key_order(&npc_list);
    housing_snapshot_ordered(&ordered_houses, &ordered_npcs)
}

} // verus!
