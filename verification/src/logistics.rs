use vstd::prelude::*;
use crate::ai::{
    CONSTRUCTION_RESOURCE_DEPOSIT_BATCH_SIZE, DEFAULT_NPC_FOOD_INVENTORY_START_THRESHOLD,
    DEFAULT_NPC_FOOD_INVENTORY_TARGET,
};
use crate::buildings::{ConstructionProgress, remaining_of};
use crate::ai::RESOURCE_GATHER_TICKS_PER_UNIT;
use crate::components::{
    AiConstructBuilding, AiKeepEnoughFoodInInventory, CarriedResource, CarriedResourceStack,
    FoodPouch, ResourceNode, Wheelbarrow, stack_after_add, stack_after_consume, stack_contents,
    CARRIED_RESOURCE_CAPACITY, FOOD_POUCH_CAPACITY, WHEELBARROW_CAPACITY,
};
use crate::skills::{NpcSkills, SkillKind, clamp_skill};
use crate::entity::EntityId;
use crate::refining::{
    ReservationLedger, Reservation, SinkEndpoint, StockEndpoint, capped, conflicts, endpoint_entity,
    from_source, spec_endpoint_entity, sum_where, to_sink, to_sink_any_kind, without_worker,
};
use crate::resources::{ResourceAmounts, ResourceKind};

verus! {

/// Natural nodes feed construction one unit at a time.
pub const NATURAL_RESOURCE_CONSTRUCTION_BATCH_SIZE: u32 = 1;

/// Urgent food hauling from a source into an NPC's food pouch.
#[derive(Debug, Clone, Copy, PartialEq, Eq, Structural)]
pub struct AiFoodHaul {
    pub source: StockEndpoint,
    pub amount: u32,
    pub uses_wheelbarrow: bool,
}

impl AiFoodHaul {
    pub fn source(self) -> (r: StockEndpoint)
        ensures
            r == self.source,
    {
        self.source
    }

    pub fn amount(self) -> (r: u32)
        ensures
            r == self.amount,
    {
        self.amount
    }

    pub fn uses_wheelbarrow(self) -> (r: bool)
        ensures
            r == self.uses_wheelbarrow,
    {
        self.uses_wheelbarrow
    }
}

/// Where a construction haul stands.
#[derive(Debug, Clone, Copy, PartialEq, Eq, Structural)]
pub enum ConstructionHaulPhase {
    ToSource,
    Gathering { progress_ticks: u32 },
    ToBlueprint,
}

/// Bringing one batch of a kind to a blueprint, from a source or from what
/// the worker already carries.
#[derive(Debug, Clone, Copy, PartialEq, Eq, Structural)]
pub struct AiConstructionHaul {
    pub blueprint: EntityId,
    pub source: Option<StockEndpoint>,
    pub kind: ResourceKind,
    pub amount: u32,
    pub phase: ConstructionHaulPhase,
    pub uses_wheelbarrow: bool,
}

impl AiConstructionHaul {
    pub fn blueprint(self) -> (r: EntityId)
        ensures
            r == self.blueprint,
    {
        self.blueprint
    }

    pub fn source(self) -> (r: Option<StockEndpoint>)
        ensures
            r == self.source,
    {
        self.source
    }

    pub fn kind(self) -> (r: ResourceKind)
        ensures
            r == self.kind,
    {
        self.kind
    }

    pub fn amount(self) -> (r: u32)
        ensures
            r == self.amount,
    {
        self.amount
    }

    pub fn phase(self) -> (r: ConstructionHaulPhase)
        ensures
            r == self.phase,
    {
        self.phase
    }

    pub fn uses_wheelbarrow(self) -> (r: bool)
        ensures
            r == self.uses_wheelbarrow,
    {
        self.uses_wheelbarrow
    }
}

/// Where a building haul stands.
#[derive(Debug, Clone, Copy, PartialEq, Eq, Structural)]
pub enum BuildingHaulPhase {
    ToSource,
    Gathering { progress_ticks: u32 },
    ToSink,
}

/// Moving one batch of a kind from a source into a building.
#[derive(Debug, Clone, Copy, PartialEq, Eq, Structural)]
pub struct AiBuildingHaul {
    pub source: StockEndpoint,
    pub sink: SinkEndpoint,
    pub kind: ResourceKind,
    pub amount: u32,
    pub phase: BuildingHaulPhase,
    pub uses_wheelbarrow: bool,
}

impl AiBuildingHaul {
    pub fn source(self) -> (r: StockEndpoint)
        ensures
            r == self.source,
    {
        self.source
    }

    pub fn sink(self) -> (r: SinkEndpoint)
        ensures
            r == self.sink,
    {
        self.sink
    }

    pub fn kind(self) -> (r: ResourceKind)
        ensures
            r == self.kind,
    {
        self.kind
    }

    pub fn amount(self) -> (r: u32)
        ensures
            r == self.amount,
    {
        self.amount
    }

    pub fn phase(self) -> (r: BuildingHaulPhase)
        ensures
            r == self.phase,
    {
        self.phase
    }

    pub fn uses_wheelbarrow(self) -> (r: bool)
        ensures
            r == self.uses_wheelbarrow,
    {
        self.uses_wheelbarrow
    }
}

/// A loaded wheelbarrow whose haul was canceled, on its way to a storage.
#[derive(Debug, Clone, Copy, PartialEq, Eq, Structural)]
pub struct AiWheelbarrowRecovery {
    pub sink: Option<EntityId>,
}

impl AiWheelbarrowRecovery {
    pub fn sink(self) -> (r: Option<EntityId>)
        ensures
            r == self.sink,
    {
        self.sink
    }
}

impl Default for AiWheelbarrowRecovery {
    fn default() -> (r: Self)
        ensures
            r.sink is None,
    {
        Self { sink: None }
    }
}

/// A blueprint waiting for materials: its cost, progress, and the distance
/// from the worker to the nearest cell it is built from (`None` when none
/// can be reached).
#[derive(Debug, Clone, Copy, PartialEq, Eq, Structural)]
pub struct ConstructionDemand {
    pub entity: EntityId,
    pub cost: ResourceAmounts,
    pub progress: ConstructionProgress,
    pub goal_distance: Option<usize>,
}

/// A source holding some of a kind: how much it holds and the distance from
/// the worker to the nearest cell it is reached from (`None` when none can
/// be reached). Sources of a kind are listed in entity order.
#[derive(Debug, Clone, Copy, PartialEq, Eq, Structural)]
pub struct SourceOffer {
    pub kind: ResourceKind,
    pub endpoint: StockEndpoint,
    pub stock: u32,
    pub goal_distance: Option<usize>,
}

/// A possible construction haul.
#[derive(Debug, Clone, Copy, PartialEq, Eq, Structural)]
pub struct HaulCandidate {
    pub distance: usize,
    pub blueprint: EntityId,
    pub kind: ResourceKind,
    pub source: Option<StockEndpoint>,
    pub amount: u32,
    pub uses_wheelbarrow: bool,
}

pub open spec fn min2(a: int, b: int) -> int {
    if a < b { a } else { b }
}

/// What of a kind a blueprint still needs beyond what is already reserved
/// for it.
pub open spec fn unreserved_need(d: ConstructionDemand, kind: ResourceKind, claims: Seq<Reservation>) -> int {
    let need = remaining_of(d.cost, d.progress.deposited, kind) - capped(sum_where(claims, to_sink(SinkEndpoint::Blueprint(d.entity), kind))) as int;
    if need > 0 { need } else { 0 }
}

/// Batch size for a source: one unit from a natural node, a wheelbarrow
/// load from a warehouse, otherwise a carried batch.
pub open spec fn source_batch(endpoint: StockEndpoint) -> int {
    match endpoint {
        StockEndpoint::NaturalNode(_) => NATURAL_RESOURCE_CONSTRUCTION_BATCH_SIZE as int,
        StockEndpoint::Warehouse(_) => WHEELBARROW_CAPACITY as int,
        _ => min2(CONSTRUCTION_RESOURCE_DEPOSIT_BATCH_SIZE as int, CARRIED_RESOURCE_CAPACITY as int),
    }
}

/// The hauls of a kind for a blueprint from each source of that kind with
/// unreserved stock that the worker can reach, in source order.
pub open spec fn source_candidates(
    d: ConstructionDemand,
    kind: ResourceKind,
    need: int,
    sources: Seq<SourceOffer>,
    claims: Seq<Reservation>,
) -> Seq<HaulCandidate>
    decreases sources.len(),
{
    if sources.len() == 0 {
        seq![]
    } else {
        let s = sources.last();
        let reserved = capped(sum_where(claims, from_source(s.endpoint, kind))) as int;
        source_candidates(d, kind, need, sources.drop_last(), claims) + if s.kind != kind || s.stock <= reserved
            || s.goal_distance is None {
            seq![]
        } else {
            seq![HaulCandidate {
                distance: s.goal_distance.unwrap(),
                blueprint: d.entity,
                kind,
                source: Some(s.endpoint),
                amount: min2(min2(need, s.stock - reserved), source_batch(s.endpoint)) as u32,
                uses_wheelbarrow: s.endpoint is Warehouse,
            }]
        }
    }
}

/// The hauls of a kind for a blueprint: none when nothing is needed or the
/// worker can take nothing; the kind it already carries goes straight to
/// the blueprint; otherwise one per source.
pub open spec fn kind_candidates(
    d: ConstructionDemand,
    kind: ResourceKind,
    carried: ResourceAmounts,
    free: int,
    sources: Seq<SourceOffer>,
    claims: Seq<Reservation>,
) -> Seq<HaulCandidate> {
    let need = unreserved_need(d, kind, claims);
    let held = carried.amount(kind) as int;
    let room = if free > held { free } else { held };
    let amount = min2(min2(need, CARRIED_RESOURCE_CAPACITY as int), room);
    if need == 0 || amount == 0 {
        seq![]
    } else if held > 0 {
        match d.goal_distance {
            Some(dist) => seq![HaulCandidate {
                distance: dist,
                blueprint: d.entity,
                kind,
                source: None,
                amount: min2(amount, held) as u32,
                uses_wheelbarrow: false,
            }],
            None => seq![],
        }
    } else {
        source_candidates(d, kind, need, sources, claims)
    }
}

/// The hauls for every blueprint in order, each by kind in kind order.
pub open spec fn all_haul_candidates(
    demands: Seq<ConstructionDemand>,
    carried: ResourceAmounts,
    free: int,
    sources: Seq<SourceOffer>,
    claims: Seq<Reservation>,
) -> Seq<HaulCandidate>
    decreases demands.len(),
{
    if demands.len() == 0 {
        seq![]
    } else {
        let d = demands.last();
        all_haul_candidates(demands.drop_last(), carried, free, sources, claims)
            + kind_candidates(d, ResourceKind::Wood, carried, free, sources, claims)
            + kind_candidates(d, ResourceKind::Stone, carried, free, sources, claims)
            + kind_candidates(d, ResourceKind::Food, carried, free, sources, claims)
            + kind_candidates(d, ResourceKind::Gold, carried, free, sources, claims)
    }
}

/// Order on hauls: distance, blueprint bits, kind order, source entity bits
/// (zero without a source).
pub open spec fn haul_key_lt(a: HaulCandidate, b: HaulCandidate) -> bool {
    let sa: u64 = match a.source {
        Some(s) => spec_endpoint_entity(s).bits,
        None => 0,
    };
    let sb: u64 = match b.source {
        Some(s) => spec_endpoint_entity(s).bits,
        None => 0,
    };
    a.distance < b.distance || (a.distance == b.distance && (a.blueprint.bits < b.blueprint.bits || (
    a.blueprint.bits == b.blueprint.bits && (a.kind.ordinal() < b.kind.ordinal() || (a.kind.ordinal()
        == b.kind.ordinal() && sa < sb)))))
}

fn haul_key_less(a: HaulCandidate, b: HaulCandidate) -> (r: bool)
    ensures
        r == haul_key_lt(a, b),
{
    let sa: u64 = match a.source {
        Some(s) => endpoint_entity(s).bits,
        None => 0,
    };
    let sb: u64 = match b.source {
        Some(s) => endpoint_entity(s).bits,
        None => 0,
    };
    a.distance < b.distance || (a.distance == b.distance && (a.blueprint.bits < b.blueprint.bits || (
    a.blueprint.bits == b.blueprint.bits && (a.kind.index() < b.kind.index() || (a.kind.index()
        == b.kind.index() && sa < sb)))))
}

/// Position `i` holds the first candidate with the least key.
pub open spec fn first_least_haul(cands: Seq<HaulCandidate>, i: int) -> bool {
    &&& 0 <= i < cands.len()
    &&& forall|j: int| 0 <= j < cands.len() ==> !haul_key_lt(#[trigger] cands[j], cands[i])
    &&& forall|j: int| 0 <= j < i ==> haul_key_lt(cands[i], #[trigger] cands[j])
}

fn push_source_candidates(
    out: &mut Vec<HaulCandidate>,
    d: ConstructionDemand,
    kind: ResourceKind,
    need: u32,
    sources: &[SourceOffer],
    ledger: &ReservationLedger,
)
    ensures
        final(out)@ == old(out)@ + source_candidates(d, kind, need as int, sources@, ledger.spec_claims()),
{
    let ghost o0 = out@;
    let mut i: usize = 0;
    while i < sources.len()
        invariant
            0 <= i <= sources@.len(),
            out@ == o0 + source_candidates(d, kind, need as int, sources@.subrange(0, i as int), ledger.spec_claims()),
        decreases sources@.len() - i,
    {
        let s = sources[i];
        proof {
            let sub = sources@.subrange(0, i as int + 1);
            assert(sub.drop_last() =~= sources@.subrange(0, i as int));
            assert(sub.last() == s);
        }
        if s.kind == kind {
            let reserved = ledger.reserved_from(s.endpoint, kind);
            if s.stock > reserved {
                if let Some(dist) = s.goal_distance {
                    let available = s.stock - reserved;
                    let batch: u32 = match s.endpoint {
                        StockEndpoint::NaturalNode(_) => NATURAL_RESOURCE_CONSTRUCTION_BATCH_SIZE,
                        StockEndpoint::Warehouse(_) => WHEELBARROW_CAPACITY,
                        _ => if CONSTRUCTION_RESOURCE_DEPOSIT_BATCH_SIZE < CARRIED_RESOURCE_CAPACITY {
                            CONSTRUCTION_RESOURCE_DEPOSIT_BATCH_SIZE
                        } else {
                            CARRIED_RESOURCE_CAPACITY
                        },
                    };
                    let a = if need < available { need } else { available };
                    let amount = if a < batch { a } else { batch };
                    let uses_wheelbarrow = match s.endpoint {
                        StockEndpoint::Warehouse(_) => true,
                        _ => false,
                    };
                    out.push(HaulCandidate { distance: dist, blueprint: d.entity, kind, source: Some(s.endpoint), amount, uses_wheelbarrow });
                }
            }
        }
        i = i + 1;
    }
    proof {
        assert(sources@.subrange(0, sources@.len() as int) =~= sources@);
    }
}

fn push_kind_candidates(
    out: &mut Vec<HaulCandidate>,
    d: ConstructionDemand,
    kind: ResourceKind,
    carried: ResourceAmounts,
    free: u32,
    sources: &[SourceOffer],
    ledger: &ReservationLedger,
)
    ensures
        final(out)@ == old(out)@ + kind_candidates(d, kind, carried, free as int, sources@, ledger.spec_claims()),
{
    let reserved = ledger.reserved_to(SinkEndpoint::Blueprint(d.entity), kind);
    let remaining = d.progress.remaining(d.cost, kind);
    let need = if remaining > reserved { remaining - reserved } else { 0 };
    if need == 0 {
        return;
    }
    let held = carried.get(kind);
    let room = if free > held { free } else { held };
    let a = if need < CARRIED_RESOURCE_CAPACITY { need } else { CARRIED_RESOURCE_CAPACITY };
    let amount = if a < room { a } else { room };
    if amount == 0 {
        return;
    }
    if held > 0 {
        if let Some(dist) = d.goal_distance {
            let take = if amount < held { amount } else { held };
            out.push(HaulCandidate { distance: dist, blueprint: d.entity, kind, source: None, amount: take, uses_wheelbarrow: false });
        }
        return;
    }
    push_source_candidates(out, d, kind, need, sources, ledger);
}

/// The construction haul an idle worker at some position should take:
/// among all hauls (see `all_haul_candidates`), the first with the least
/// key. The goal distances in `demands` and `sources` are those from the
/// worker's position.
pub fn construction_haul_choice(
    demands: &[ConstructionDemand],
    carried: ResourceAmounts,
    free: u32,
    sources: &[SourceOffer],
    ledger: &ReservationLedger,
) -> (r: Option<HaulCandidate>)
    ensures
        ({
            let cands = all_haul_candidates(demands@, carried, free as int, sources@, ledger.spec_claims());
            &&& r is None <==> cands.len() == 0
            &&& r matches Some(c) ==> exists|i: int| first_least_haul(cands, i) && cands[i] == c
        }),
{
    let mut cands: Vec<HaulCandidate> = Vec::new();
    let mut i: usize = 0;
    while i < demands.len()
        invariant
            0 <= i <= demands@.len(),
            cands@ == all_haul_candidates(demands@.subrange(0, i as int), carried, free as int, sources@, ledger.spec_claims()),
        decreases demands@.len() - i,
    {
        let d = demands[i];
        let ghost c0 = cands@;
        push_kind_candidates(&mut cands, d, ResourceKind::Wood, carried, free, sources, ledger);
        push_kind_candidates(&mut cands, d, ResourceKind::Stone, carried, free, sources, ledger);
        push_kind_candidates(&mut cands, d, ResourceKind::Food, carried, free, sources, ledger);
        push_kind_candidates(&mut cands, d, ResourceKind::Gold, carried, free, sources, ledger);
        proof {
            let sub = demands@.subrange(0, i as int + 1);
            assert(sub.drop_last() =~= demands@.subrange(0, i as int));
            assert(sub.last() == d);
            assert(cands@ =~= all_haul_candidates(sub, carried, free as int, sources@, ledger.spec_claims()));
        }
        i = i + 1;
    }
    proof {
        assert(demands@.subrange(0, demands@.len() as int) =~= demands@);
    }
    if cands.len() == 0 {
        return None;
    }
    let mut best: usize = 0;
    let mut j: usize = 1;
    while j < cands.len()
        invariant
            1 <= j <= cands@.len(),
            best < j,
            forall|t: int| 0 <= t < j ==> !haul_key_lt(#[trigger] cands@[t], cands@[best as int]),
            forall|t: int| 0 <= t < best ==> haul_key_lt(cands@[best as int], #[trigger] cands@[t]),
        decreases cands@.len() - j,
    {
        if haul_key_less(cands[j], cands[best]) {
            best = j;
        }
        j = j + 1;
    }
    proof {
        assert(first_least_haul(cands@, best as int));
    }
    Some(cands[best])
}

/// Claims a chosen construction haul for a worker; when the ledger accepts
/// it, the worker's construction work (targeting the haul's kind) and the
/// haul, heading for the source or, without one, for the blueprint.
pub fn claim_construction_haul(
    ledger: &mut ReservationLedger,
    worker: EntityId,
    haul: HaulCandidate,
) -> (r: Option<(AiConstructBuilding, AiConstructionHaul)>)
    requires
        old(ledger).wf(),
    ensures
        final(ledger).wf(),
        ({
            let reservation = Reservation {
                worker,
                source: haul.source,
                sink: SinkEndpoint::Blueprint(haul.blueprint),
                kind: haul.kind,
                amount: haul.amount,
                task: haul.blueprint,
            };
            let accepted = forall|i: int|
                0 <= i < old(ledger).spec_claims().len() ==> !conflicts(#[trigger] old(ledger).spec_claims()[i], reservation);
            &&& r is Some <==> accepted
            &&& !accepted ==> final(ledger).spec_claims() == old(ledger).spec_claims()
            &&& accepted ==> exists|p: int| 0 <= p <= old(ledger).spec_claims().len()
                && final(ledger).spec_claims() == old(ledger).spec_claims().insert(p, reservation)
            &&& r matches Some((work, h)) ==> {
                &&& work == AiConstructBuilding { blueprint: haul.blueprint, target_kind: Some(haul.kind) }
                &&& h == AiConstructionHaul {
                    blueprint: haul.blueprint,
                    source: haul.source,
                    kind: haul.kind,
                    amount: haul.amount,
                    phase: if haul.source is Some { ConstructionHaulPhase::ToSource } else { ConstructionHaulPhase::ToBlueprint },
                    uses_wheelbarrow: haul.uses_wheelbarrow,
                }
            }
        }),
{
    let reservation = Reservation {
        worker,
        source: haul.source,
        sink: SinkEndpoint::Blueprint(haul.blueprint),
        kind: haul.kind,
        amount: haul.amount,
        task: haul.blueprint,
    };
    if !ledger.claim(reservation) {
        return None;
    }
    let mut work = AiConstructBuilding::new(haul.blueprint);
    work.set_target_kind(haul.kind);
    let phase = if haul.source.is_some() { ConstructionHaulPhase::ToSource } else { ConstructionHaulPhase::ToBlueprint };
    Some((work, AiConstructionHaul {
        blueprint: haul.blueprint,
        source: haul.source,
        kind: haul.kind,
        amount: haul.amount,
        phase,
        uses_wheelbarrow: haul.uses_wheelbarrow,
    }))
}


/// A food source (a warehouse, or a kitchen's output) with its food stock
/// and the distance from the NPC to the nearest cell it is reached from
/// (`None` when none can be reached).
#[derive(Debug, Clone, Copy, PartialEq, Eq, Structural)]
pub struct FoodOffer {
    pub endpoint: StockEndpoint,
    pub stock: u32,
    pub goal_distance: Option<usize>,
}

/// Food of an offer not yet reserved by other hauls.
pub open spec fn food_available(o: FoodOffer, claims: Seq<Reservation>) -> int {
    o.stock - capped(sum_where(claims, from_source(o.endpoint, ResourceKind::Food)))
}

/// An offer from a warehouse or a kitchen's output (the only food sources)
/// with unreserved food that the NPC can reach.
pub open spec fn food_viable(o: FoodOffer, claims: Seq<Reservation>) -> bool {
    (o.endpoint is Warehouse || o.endpoint is RefineryOutput) && food_available(o, claims) > 0 && o.goal_distance is Some
}

/// Order on food offers: distance, then entity bits.
pub open spec fn food_key_lt(a: FoodOffer, b: FoodOffer) -> bool {
    a.goal_distance.unwrap() < b.goal_distance.unwrap() || (a.goal_distance.unwrap() == b.goal_distance.unwrap()
        && spec_endpoint_entity(a.endpoint).bits < spec_endpoint_entity(b.endpoint).bits)
}

/// Position `i` holds the first viable offer with the least key.
pub open spec fn best_food_offer(offers: Seq<FoodOffer>, claims: Seq<Reservation>, i: int) -> bool {
    &&& 0 <= i < offers.len()
    &&& food_viable(offers[i], claims)
    &&& forall|j: int| 0 <= j < offers.len() && food_viable(#[trigger] offers[j], claims) ==> !food_key_lt(offers[j], offers[i])
    &&& forall|j: int| 0 <= j < i && food_viable(#[trigger] offers[j], claims) ==> food_key_lt(offers[i], offers[j])
}

/// The haul taking up to `amount` of food from an offer; warehouse loads
/// go by wheelbarrow.
pub open spec fn food_haul_from(o: FoodOffer, amount: u32, claims: Seq<Reservation>) -> AiFoodHaul {
    AiFoodHaul {
        source: o.endpoint,
        amount: min2(amount as int, food_available(o, claims)) as u32,
        uses_wheelbarrow: o.endpoint is Warehouse,
    }
}

/// What choosing a food source for `amount` may give: nothing when nothing
/// is wanted or no offer is viable, otherwise the haul from the best offer.
pub open spec fn food_choice(offers: Seq<FoodOffer>, amount: u32, claims: Seq<Reservation>, r: Option<AiFoodHaul>) -> bool {
    if amount == 0 || !(exists|i: int| 0 <= i < offers.len() && food_viable(#[trigger] offers[i], claims)) {
        r is None
    } else {
        exists|i: int| best_food_offer(offers, claims, i) && r == Some(food_haul_from(offers[i], amount, claims))
    }
}

/// A food haul comes from the nearest viable source: one the NPC can
/// reach, with food not yet reserved, whose distance is no greater than
/// any other viable source's, and among equally near ones the lowest
/// entity; it takes as much as is wanted and unreserved there.
pub proof fn law_food_source_is_nearest(
    offers: Seq<FoodOffer>,
    amount: u32,
    claims: Seq<Reservation>,
    r: Option<AiFoodHaul>,
)
    requires
        food_choice(offers, amount, claims, r),
    ensures
        r matches Some(h) ==> exists|i: int| {
            &&& 0 <= i < offers.len()
            &&& food_viable(#[trigger] offers[i], claims)
            &&& h.source == offers[i].endpoint
            &&& h.amount == min2(amount as int, food_available(offers[i], claims))
            &&& forall|j: int| 0 <= j < offers.len() && food_viable(#[trigger] offers[j], claims) ==> {
                &&& offers[i].goal_distance.unwrap() <= offers[j].goal_distance.unwrap()
                &&& offers[i].goal_distance.unwrap() == offers[j].goal_distance.unwrap()
                    ==> spec_endpoint_entity(offers[i].endpoint).bits <= spec_endpoint_entity(offers[j].endpoint).bits
            }
        },
{
    if let Some(h) = r {
        let i = choose|i: int| best_food_offer(offers, claims, i) && r == Some(food_haul_from(offers[i], amount, claims));
        assert forall|j: int| 0 <= j < offers.len() && food_viable(#[trigger] offers[j], claims) implies {
            &&& offers[i].goal_distance.unwrap() <= offers[j].goal_distance.unwrap()
            &&& offers[i].goal_distance.unwrap() == offers[j].goal_distance.unwrap()
                ==> spec_endpoint_entity(offers[i].endpoint).bits <= spec_endpoint_entity(offers[j].endpoint).bits
        } by {
            assert(!food_key_lt(offers[j], offers[i]));
        }
        assert(food_viable(offers[i], claims));
    }
}

fn food_key_less(a: FoodOffer, b: FoodOffer) -> (r: bool)
    requires
        a.goal_distance is Some,
        b.goal_distance is Some,
    ensures
        r == food_key_lt(a, b),
{
    let da = a.goal_distance.unwrap();
    let db = b.goal_distance.unwrap();
    da < db || (da == db && endpoint_entity(a.endpoint).bits < endpoint_entity(b.endpoint).bits)
}

/// Picks the food source for a haul of up to `amount` (see `food_choice`);
/// only warehouses and kitchen outputs are ever chosen.
pub fn choose_food_source(offers: &[FoodOffer], amount: u32, ledger: &ReservationLedger) -> (r: Option<AiFoodHaul>)
    ensures
        food_choice(offers@, amount, ledger.spec_claims(), r),
        r matches Some(h) ==> h.source is Warehouse || h.source is RefineryOutput,
{
    if amount == 0 {
        return None;
    }
    let ghost claims = ledger.spec_claims();
    let mut best: Option<usize> = None;
    let mut i: usize = 0;
    while i < offers.len()
        invariant
            0 <= i <= offers@.len(),
            claims == ledger.spec_claims(),
            best is None ==> forall|j: int| 0 <= j < i ==> !food_viable(#[trigger] offers@[j], claims),
            best matches Some(b) ==> {
                &&& b < i
                &&& food_viable(offers@[b as int], claims)
                &&& forall|j: int| 0 <= j < i && food_viable(#[trigger] offers@[j], claims) ==> !food_key_lt(offers@[j], offers@[b as int])
                &&& forall|j: int| 0 <= j < b && food_viable(#[trigger] offers@[j], claims) ==> food_key_lt(offers@[b as int], offers@[j])
            },
        decreases offers@.len() - i,
    {
        let o = offers[i];
        let reserved = ledger.reserved_from(o.endpoint, ResourceKind::Food);
        let food_source = match o.endpoint {
            StockEndpoint::Warehouse(_) | StockEndpoint::RefineryOutput(_) => true,
            _ => false,
        };
        if food_source && o.stock > reserved && o.goal_distance.is_some() {
            match best {
                None => {
                    best = Some(i);
                },
                Some(b) => {
                    if food_key_less(o, offers[b]) {
                        best = Some(i);
                    }
                },
            }
        }
        i = i + 1;
    }
    match best {
        None => None,
        Some(b) => {
            let o = offers[b];
            let available = o.stock - ledger.reserved_from(o.endpoint, ResourceKind::Food);
            let take = if amount < available { amount } else { available };
            let uses_wheelbarrow = match o.endpoint {
                StockEndpoint::Warehouse(_) => true,
                _ => false,
            };
            let r = Some(AiFoodHaul { source: o.endpoint, amount: take, uses_wheelbarrow });
            proof {
                assert(best_food_offer(offers@, claims, b as int));
                assert(r == Some(food_haul_from(offers@[b as int], amount, claims)));
            }
            r
        },
    }
}

/// The food level at which an NPC starts refilling its pouch.
pub open spec fn food_start(goal: Option<AiKeepEnoughFoodInInventory>) -> u32 {
    match goal {
        Some(g) => g.spec_start_threshold(),
        None => DEFAULT_NPC_FOOD_INVENTORY_START_THRESHOLD,
    }
}

/// The food level an NPC refills its pouch to.
pub open spec fn food_target(goal: Option<AiKeepEnoughFoodInInventory>) -> u32 {
    match goal {
        Some(g) => g.spec_target(),
        None => DEFAULT_NPC_FOOD_INVENTORY_TARGET,
    }
}

/// Food an NPC still wants: up to its target, within the pouch's room.
pub open spec fn food_want(pouch: FoodPouch, goal: Option<AiKeepEnoughFoodInInventory>) -> u32 {
    let carried = pouch.spec_amount() as int;
    let target = food_target(goal) as int;
    min2(if target > carried { target - carried } else { 0 }, FOOD_POUCH_CAPACITY - carried) as u32
}

/// Food a haul's source still holds: only warehouses and refinery outputs
/// count as food sources.
pub open spec fn food_source_stock(source: StockEndpoint, stock: u32) -> u32 {
    match source {
        StockEndpoint::Warehouse(_) | StockEndpoint::RefineryOutput(_) => stock,
        _ => 0,
    }
}

/// What urgent food hauling does for one NPC this tick.
#[derive(Debug, Clone, Copy, PartialEq, Eq, Structural)]
pub enum FoodHaulDecision {
    /// Nothing to do.
    Skip,
    /// End the search and its haul.
    Stop,
    /// Go on with this haul; `begin_search` when the NPC starts searching
    /// for food now (preempting other work), `newly_chosen` when the haul
    /// was chosen now and must be reserved.
    Haul { haul: AiFoodHaul, begin_search: bool, newly_chosen: bool },
}

/// The food hauling decision for an NPC: a searching NPC that reached its
/// target (or has a full pouch) stops; a non-searching NPC above its start
/// threshold is skipped; an existing haul whose source still holds enough
/// goes on; otherwise a source is chosen for the food still wanted (capped
/// by the pouch's free room), and with none a searching NPC stops.
pub fn food_haul_decision(
    searching: bool,
    pouch: FoodPouch,
    goal: Option<AiKeepEnoughFoodInInventory>,
    current: Option<AiFoodHaul>,
    current_source_stock: u32,
    offers: &[FoodOffer],
    ledger: &ReservationLedger,
) -> (r: FoodHaulDecision)
    ensures
        ({
            let carried = pouch.spec_amount() as int;
            let free = FOOD_POUCH_CAPACITY - carried;
            let target = food_target(goal) as int;
            let keep = (current matches Some(h) && food_source_stock(h.source, current_source_stock) >= h.amount);
            let want = food_want(pouch, goal);
            if searching && (carried >= target || free == 0) {
                r == FoodHaulDecision::Stop
            } else if !searching && carried > food_start(goal) {
                r == FoodHaulDecision::Skip
            } else if keep {
                r == FoodHaulDecision::Haul { haul: current.unwrap(), begin_search: !searching, newly_chosen: false }
            } else {
                exists|c: Option<AiFoodHaul>| #![trigger food_choice(offers@, want, ledger.spec_claims(), c)]
                    food_choice(offers@, want, ledger.spec_claims(), c) && match c {
                    None => r == if searching { FoodHaulDecision::Stop } else { FoodHaulDecision::Skip },
                    Some(h) => r == FoodHaulDecision::Haul { haul: h, begin_search: !searching, newly_chosen: true },
                }
            }
        }),
{
    let start = match goal {
        Some(g) => g.start_threshold(),
        None => DEFAULT_NPC_FOOD_INVENTORY_START_THRESHOLD,
    };
    let target = match goal {
        Some(g) => g.target(),
        None => DEFAULT_NPC_FOOD_INVENTORY_TARGET,
    };
    let carried = pouch.amount();
    let free = pouch.free_size();
    if searching && (carried >= target || free == 0) {
        return FoodHaulDecision::Stop;
    }
    if !searching && carried > start {
        return FoodHaulDecision::Skip;
    }
    if let Some(h) = current {
        let stock = match h.source {
            StockEndpoint::Warehouse(_) | StockEndpoint::RefineryOutput(_) => current_source_stock,
            _ => 0,
        };
        if stock >= h.amount {
            return FoodHaulDecision::Haul { haul: h, begin_search: !searching, newly_chosen: false };
        }
    }
    let short = if target > carried { target - carried } else { 0 };
    let want = if short < free { short } else { free };
    let c = choose_food_source(offers, want, ledger);
    proof {
        assert(food_want(pouch, goal) == want);
        assert(food_choice(offers@, food_want(pouch, goal), ledger.spec_claims(), c));
    }
    match c {
        None => if searching { FoodHaulDecision::Stop } else { FoodHaulDecision::Skip },
        Some(h) => FoodHaulDecision::Haul { haul: h, begin_search: !searching, newly_chosen: true },
    }
}

/// Reserves a newly chosen food haul for an NPC: its other reservations go,
/// and the haul's food is reserved from the source into its pouch (which
/// nothing else can then block).
pub fn reserve_food_haul(ledger: &mut ReservationLedger, npc: EntityId, haul: AiFoodHaul)
    requires
        old(ledger).wf(),
    ensures
        final(ledger).wf(),
        ({
            let kept = without_worker(old(ledger).spec_claims(), npc);
            exists|p: int| 0 <= p <= kept.len() && final(ledger).spec_claims() == kept.insert(p, Reservation {
                worker: npc,
                source: Some(haul.source),
                sink: SinkEndpoint::FoodPouch(npc),
                kind: ResourceKind::Food,
                amount: haul.amount,
                task: npc,
            })
        }),
{
    ledger.release_worker(npc);
    let reservation = Reservation {
        worker: npc,
        source: Some(haul.source),
        sink: SinkEndpoint::FoodPouch(npc),
        kind: ResourceKind::Food,
        amount: haul.amount,
        task: npc,
    };
    proof {
        let kept = without_worker(old(ledger).spec_claims(), npc);
        assert forall|i: int| 0 <= i < ledger.spec_claims().len() implies !conflicts(#[trigger] ledger.spec_claims()[i], reservation) by {
            old(ledger).spec_claims().lemma_filter_pred(|c: Reservation| c.worker != npc, i);
        }
    }
    let ok = ledger.claim(reservation);
    assert(ok);
}

/// Whether a source gives up `amount` of its stock: natural nodes never do
/// (they are gathered); other sources do when they exist and hold enough.
pub open spec fn withdraw_ok(source: StockEndpoint, stock: Option<u32>, amount: u32) -> bool {
    &&& !(source is NaturalNode)
    &&& stock matches Some(s) && s >= amount
}

fn withdraw_stock(source: StockEndpoint, stock: &mut Option<u32>, amount: u32) -> (r: bool)
    ensures
        r == withdraw_ok(source, *old(stock), amount),
        r ==> *final(stock) == Some((old(stock).unwrap() - amount) as u32),
        !r ==> *final(stock) == *old(stock),
{
    if let StockEndpoint::NaturalNode(_) = source {
        return false;
    }
    match *stock {
        Some(s) => {
            if s >= amount {
                *stock = Some(s - amount);
                true
            } else {
                false
            }
        },
        None => false,
    }
}

/// What a food haul does once its source is known.
#[derive(Debug, Clone, Copy, PartialEq, Eq, Structural)]
pub enum FoodHaulStep {
    /// Walk to the source.
    Route,
    /// The haul ends, and the search with it.
    Finish,
    /// Food was collected but the target is not reached: the haul ends and
    /// the search goes on.
    Refill,
}

/// One step of a food haul: without cells to reach the source it finishes;
/// away from them it routes; at the source it moves the haul's food from
/// the source (`source_stock`, `None` when the source is gone) into the
/// pouch when the pouch has room and the source enough, and finishes or,
/// below the target with room left, refills.
pub fn food_haul_arrival(
    at_goal: bool,
    goals_empty: bool,
    haul: AiFoodHaul,
    target: u32,
    pouch: &mut FoodPouch,
    source_stock: &mut Option<u32>,
) -> (r: FoodHaulStep)
    ensures
        !at_goal ==> *final(pouch) == *old(pouch) && *final(source_stock) == *old(source_stock) && r == if goals_empty {
            FoodHaulStep::Finish
        } else {
            FoodHaulStep::Route
        },
        at_goal ==> {
            let ok = haul.amount <= FOOD_POUCH_CAPACITY - old(pouch).spec_amount() && withdraw_ok(haul.source, *old(source_stock), haul.amount);
            let now = old(pouch).spec_amount() + haul.amount;
            &&& !ok ==> r == FoodHaulStep::Finish && *final(pouch) == *old(pouch) && *final(source_stock) == *old(source_stock)
            &&& ok ==> final(pouch).spec_amount() == now
                && *final(source_stock) == Some((old(source_stock).unwrap() - haul.amount) as u32)
                && r == if now >= target || now == FOOD_POUCH_CAPACITY { FoodHaulStep::Finish } else { FoodHaulStep::Refill }
        },
{
    if !at_goal {
        return if goals_empty { FoodHaulStep::Finish } else { FoodHaulStep::Route };
    }
    if pouch.free_size() < haul.amount {
        return FoodHaulStep::Finish;
    }
    if !withdraw_stock(haul.source, source_stock, haul.amount) {
        return FoodHaulStep::Finish;
    }
    let added = pouch.add(haul.amount);
    assert(added);
    if pouch.amount() >= target || pouch.free_size() == 0 {
        FoodHaulStep::Finish
    } else {
        FoodHaulStep::Refill
    }
}


/// The load of the container a haul uses: the worker's wheelbarrow (`None`
/// when it has none) or its hands.
pub open spec fn used_load(uses_wheelbarrow: bool, carried: CarriedResource, wheelbarrow: Option<Wheelbarrow>) -> Option<
    Option<CarriedResourceStack>,
> {
    if uses_wheelbarrow {
        match wheelbarrow {
            Some(w) => Some(w.load()),
            None => None,
        }
    } else {
        Some(carried.load())
    }
}

/// Capacity of the container a haul uses.
pub open spec fn used_capacity(uses_wheelbarrow: bool) -> u32 {
    if uses_wheelbarrow { WHEELBARROW_CAPACITY } else { CARRIED_RESOURCE_CAPACITY }
}

/// Units of a kind in the container a haul uses (zero without one).
pub open spec fn used_amount(uses_wheelbarrow: bool, carried: CarriedResource, wheelbarrow: Option<Wheelbarrow>, kind: ResourceKind) -> u32 {
    match used_load(uses_wheelbarrow, carried, wheelbarrow) {
        Some(l) => stack_contents(l).amount(kind),
        None => 0,
    }
}

/// The container a haul does not use is untouched, and a wheelbarrow is
/// neither gained nor lost.
pub open spec fn other_container_same(
    uses_wheelbarrow: bool,
    c0: CarriedResource,
    w0: Option<Wheelbarrow>,
    c1: CarriedResource,
    w1: Option<Wheelbarrow>,
) -> bool {
    if uses_wheelbarrow { c1 == c0 && (w1 is Some <==> w0 is Some) } else { w1 == w0 }
}

/// The used container's load after adding, when the addition is accepted.
pub open spec fn cargo_after_add(
    uses_wheelbarrow: bool,
    carried: CarriedResource,
    wheelbarrow: Option<Wheelbarrow>,
    kind: ResourceKind,
    amount: u32,
) -> Option<Option<CarriedResourceStack>> {
    match used_load(uses_wheelbarrow, carried, wheelbarrow) {
        Some(l) => stack_after_add(l, kind, amount, used_capacity(uses_wheelbarrow)),
        None => None,
    }
}

/// The used container's load after removing, when the removal is accepted.
pub open spec fn cargo_after_consume(
    uses_wheelbarrow: bool,
    carried: CarriedResource,
    wheelbarrow: Option<Wheelbarrow>,
    kind: ResourceKind,
    amount: u32,
) -> Option<Option<CarriedResourceStack>> {
    match used_load(uses_wheelbarrow, carried, wheelbarrow) {
        Some(l) => stack_after_consume(l, kind, amount),
        None => None,
    }
}

fn cargo_add(
    uses_wheelbarrow: bool,
    carried: &mut CarriedResource,
    wheelbarrow: &mut Option<Wheelbarrow>,
    kind: ResourceKind,
    amount: u32,
) -> (r: bool)
    ensures
        r == (cargo_after_add(uses_wheelbarrow, *old(carried), *old(wheelbarrow), kind, amount) is Some),
        r ==> used_load(uses_wheelbarrow, *final(carried), *final(wheelbarrow)) == cargo_after_add(
            uses_wheelbarrow,
            *old(carried),
            *old(wheelbarrow),
            kind,
            amount,
        ) && other_container_same(uses_wheelbarrow, *old(carried), *old(wheelbarrow), *final(carried), *final(wheelbarrow)),
        !r ==> *final(carried) == *old(carried) && *final(wheelbarrow) == *old(wheelbarrow),
{
    if uses_wheelbarrow {
        match *wheelbarrow {
            Some(w0) => {
                let mut w = w0;
                if w.add(kind, amount) {
                    *wheelbarrow = Some(w);
                    true
                } else {
                    false
                }
            },
            None => false,
        }
    } else {
        let c0 = *carried;
        let mut c = c0;
        if c.add(kind, amount) {
            *carried = c;
            true
        } else {
            false
        }
    }
}

fn cargo_consume(
    uses_wheelbarrow: bool,
    carried: &mut CarriedResource,
    wheelbarrow: &mut Option<Wheelbarrow>,
    kind: ResourceKind,
    amount: u32,
) -> (r: bool)
    ensures
        r == (cargo_after_consume(uses_wheelbarrow, *old(carried), *old(wheelbarrow), kind, amount) is Some),
        r ==> used_load(uses_wheelbarrow, *final(carried), *final(wheelbarrow)) == cargo_after_consume(
            uses_wheelbarrow,
            *old(carried),
            *old(wheelbarrow),
            kind,
            amount,
        ) && other_container_same(uses_wheelbarrow, *old(carried), *old(wheelbarrow), *final(carried), *final(wheelbarrow)),
        !r ==> *final(carried) == *old(carried) && *final(wheelbarrow) == *old(wheelbarrow),
{
    if uses_wheelbarrow {
        match *wheelbarrow {
            Some(w0) => {
                let mut w = w0;
                if w.consume(kind, amount) {
                    *wheelbarrow = Some(w);
                    true
                } else {
                    false
                }
            },
            None => false,
        }
    } else {
        let c0 = *carried;
        let mut c = c0;
        if c.consume(kind, amount) {
            *carried = c;
            true
        } else {
            false
        }
    }
}

fn cargo_amount(uses_wheelbarrow: bool, carried: CarriedResource, wheelbarrow: Option<Wheelbarrow>, kind: ResourceKind) -> (r: u32)
    ensures
        r == used_amount(uses_wheelbarrow, carried, wheelbarrow, kind),
{
    if uses_wheelbarrow {
        match wheelbarrow {
            Some(w) => w.contents().get(kind),
            None => 0,
        }
    } else {
        carried.contents().get(kind)
    }
}

/// Skills after a gatherer earns `xp` in a skill: unchanged without skills.
pub open spec fn skills_after_xp(before: Option<NpcSkills>, after: Option<NpcSkills>, skill: SkillKind, xp: u32) -> bool {
    match before {
        Some(sk) => after matches Some(a) && a.skill(skill) == clamp_skill(sk.skill(skill) + xp) && forall|k: SkillKind|
            k != skill ==> #[trigger] a.skill(k) == sk.skill(k),
        None => after is None,
    }
}

fn credit_gathering(skills: &mut Option<NpcSkills>, kind: ResourceKind, xp: u32)
    ensures
        skills_after_xp(*old(skills), *final(skills), SkillKind::gathering_skill(kind), xp),
{
    match *skills {
        Some(sk0) => {
            let mut sk = sk0;
            sk.add_xp(SkillKind::for_gathered_resource(kind), xp);
            *skills = Some(sk);
        },
        None => {},
    }
}

/// What a haul does this tick.
#[derive(Debug, Clone, Copy, PartialEq, Eq, Structural)]
pub enum HaulStep {
    /// The haul ends (its reservation is released).
    Clear,
    /// Walk toward the current goal.
    Route,
    /// The haul goes on (its phase may have changed); `node_depleted` when
    /// the gathered natural node was emptied and must go.
    Continue { node_depleted: bool },
}

/// One tick of a construction haul. It ends when the worker searches for
/// food or the blueprint is gone (`cost` is `None`). Heading to its source
/// it routes until it reaches it (a worker's own cargo is always at hand),
/// starts gathering at a natural node, and otherwise takes the amount from
/// the source into its container, ending when either fails. Gathering
/// ticks until one unit is taken from the node into the worker's hands (the
/// gathering skill gains a point). At the blueprint it deposits what it
/// carries, up to the haul's amount and what is still owed, and ends.
pub fn construction_haul_step(
    haul: &mut AiConstructionHaul,
    worker: EntityId,
    searching_food: bool,
    cost: Option<ResourceAmounts>,
    at_goal: bool,
    goals_empty: bool,
    source_stock: &mut Option<u32>,
    node: &mut Option<ResourceNode>,
    carried: &mut CarriedResource,
    wheelbarrow: &mut Option<Wheelbarrow>,
    skills: &mut Option<NpcSkills>,
    progress: &mut Option<ConstructionProgress>,
) -> (r: HaulStep)
    ensures
        ({
            let h = *old(haul);
            let route_or_clear = if goals_empty { HaulStep::Clear } else { HaulStep::Route };
            let unchanged_stock = *final(source_stock) == *old(source_stock) && *final(node) == *old(node);
            let unchanged_cargo = *final(carried) == *old(carried) && *final(wheelbarrow) == *old(wheelbarrow);
            let unchanged_rest = *final(skills) == *old(skills) && *final(progress) == *old(progress);
            let unchanged = unchanged_stock && unchanged_cargo && unchanged_rest;
            if searching_food || cost is None {
                r == HaulStep::Clear && unchanged && *final(haul) == h
            } else {
                match h.phase {
                    ConstructionHaulPhase::ToSource => match h.source {
                        None => r == HaulStep::Continue { node_depleted: false } && unchanged
                            && *final(haul) == (AiConstructionHaul { phase: ConstructionHaulPhase::ToBlueprint, ..h }),
                        Some(src) => if !at_goal && src != StockEndpoint::CarriedResource(worker) {
                            r == route_or_clear && unchanged && *final(haul) == h
                        } else if src is NaturalNode {
                            r == HaulStep::Continue { node_depleted: false } && unchanged
                                && *final(haul) == (AiConstructionHaul {
                                phase: ConstructionHaulPhase::Gathering { progress_ticks: 0 },
                                ..h
                            })
                        } else {
                            construction_load_outcome(h, worker, r, *old(source_stock), *final(source_stock), *old(carried),
                                *old(wheelbarrow), *final(carried), *final(wheelbarrow), *final(haul))
                                && *final(node) == *old(node) && unchanged_rest
                        },
                    },
                    ConstructionHaulPhase::Gathering { progress_ticks } => {
                        let valid = (h.source matches Some(StockEndpoint::NaturalNode(_))
                            && *old(node) matches Some(n) && n.kind == h.kind && n.quantity > 0);
                        let next: int = if progress_ticks == u32::MAX { u32::MAX as int } else { progress_ticks + 1 };
                        if !valid {
                            r == HaulStep::Clear && unchanged && *final(haul) == h
                        } else if next < RESOURCE_GATHER_TICKS_PER_UNIT {
                            r == HaulStep::Continue { node_depleted: false } && unchanged
                                && *final(haul) == (AiConstructionHaul {
                                phase: ConstructionHaulPhase::Gathering { progress_ticks: next as u32 },
                                ..h
                            })
                        } else if stack_after_add(old(carried).load(), h.kind, 1, CARRIED_RESOURCE_CAPACITY) is None {
                            r == HaulStep::Clear && unchanged && *final(haul) == h
                        } else {
                            let n = old(node).unwrap();
                            &&& Some(final(carried).load()) == stack_after_add(old(carried).load(), h.kind, 1, CARRIED_RESOURCE_CAPACITY)
                            &&& *final(wheelbarrow) == *old(wheelbarrow)
                            &&& *final(node) == Some(ResourceNode { quantity: (n.quantity - 1) as u32, ..n })
                            &&& *final(source_stock) == *old(source_stock)
                            &&& skills_after_xp(*old(skills), *final(skills), SkillKind::gathering_skill(h.kind), 1)
                            &&& *final(progress) == *old(progress)
                            &&& *final(haul) == (AiConstructionHaul { phase: ConstructionHaulPhase::ToBlueprint, ..h })
                            &&& r == HaulStep::Continue { node_depleted: n.quantity == 1 }
                        }
                    },
                    ConstructionHaulPhase::ToBlueprint => if !at_goal {
                        r == route_or_clear && unchanged && *final(haul) == h
                    } else {
                        &&& r == HaulStep::Clear
                        &&& *final(haul) == h
                        &&& unchanged_stock
                        &&& *final(skills) == *old(skills)
                        &&& construction_deposit_outcome(h, cost.unwrap(), *old(progress), *final(progress), *old(carried),
                            *old(wheelbarrow), *final(carried), *final(wheelbarrow))
                    },
                }
            }
        }),
{
    if searching_food {
        return HaulStep::Clear;
    }
    let cost = match cost {
        Some(c) => c,
        None => {
            return HaulStep::Clear;
        },
    };
    let h = *haul;
    match h.phase {
        ConstructionHaulPhase::ToSource => {
            let src = match h.source {
                Some(s) => s,
                None => {
                    *haul = AiConstructionHaul { phase: ConstructionHaulPhase::ToBlueprint, ..h };
                    return HaulStep::Continue { node_depleted: false };
                },
            };
            if !at_goal && src != StockEndpoint::CarriedResource(worker) {
                return if goals_empty { HaulStep::Clear } else { HaulStep::Route };
            }
            if let StockEndpoint::NaturalNode(_) = src {
                *haul = AiConstructionHaul { phase: ConstructionHaulPhase::Gathering { progress_ticks: 0 }, ..h };
                return HaulStep::Continue { node_depleted: false };
            }
            if src == StockEndpoint::CarriedResource(worker) {
                let c0 = *carried;
                let mut c = c0;
                if !c.consume(h.kind, h.amount) {
                    return HaulStep::Clear;
                }
                *carried = c;
            } else if !withdraw_stock(src, source_stock, h.amount) {
                return HaulStep::Clear;
            }
            if cargo_add(h.uses_wheelbarrow, carried, wheelbarrow, h.kind, h.amount) {
                *haul = AiConstructionHaul { phase: ConstructionHaulPhase::ToBlueprint, ..h };
                HaulStep::Continue { node_depleted: false }
            } else {
                HaulStep::Clear
            }
        },
        ConstructionHaulPhase::Gathering { progress_ticks } => {
            let valid = match h.source {
                Some(StockEndpoint::NaturalNode(_)) => match *node {
                    Some(n) => n.kind == h.kind && n.quantity > 0,
                    None => false,
                },
                _ => false,
            };
            if !valid {
                return HaulStep::Clear;
            }
            let n = node.unwrap();
            let next = progress_ticks.saturating_add(1);
            if next < RESOURCE_GATHER_TICKS_PER_UNIT {
                *haul = AiConstructionHaul { phase: ConstructionHaulPhase::Gathering { progress_ticks: next }, ..h };
                return HaulStep::Continue { node_depleted: false };
            }
            let c0 = *carried;
            let mut c = c0;
            if !c.add(h.kind, 1) {
                return HaulStep::Clear;
            }
            *carried = c;
            *node = Some(ResourceNode { quantity: n.quantity - 1, ..n });
            credit_gathering(skills, h.kind, 1);
            *haul = AiConstructionHaul { phase: ConstructionHaulPhase::ToBlueprint, ..h };
            HaulStep::Continue { node_depleted: n.quantity == 1 }
        },
        ConstructionHaulPhase::ToBlueprint => {
            if !at_goal {
                return if goals_empty { HaulStep::Clear } else { HaulStep::Route };
            }
            let held = cargo_amount(h.uses_wheelbarrow, *carried, *wheelbarrow, h.kind);
            match *progress {
                Some(p0) => {
                    let owed = p0.remaining(cost, h.kind);
                    let a = if held < h.amount { held } else { h.amount };
                    let amount = if a < owed { a } else { owed };
                    if amount > 0 && cargo_consume(h.uses_wheelbarrow, carried, wheelbarrow, h.kind, amount) {
                        let mut p = p0;
                        p.deposit(h.kind, amount, cost);
                        *progress = Some(p);
                    }
                },
                None => {},
            }
            HaulStep::Clear
        },
    }
}

/// Taking a construction haul's load from its (non-natural) source: the
/// worker's own hands when the source is its cargo, otherwise the source's
/// stock; then into the haul's container. Both succeeding sends the haul to
/// the blueprint; otherwise it ends, and a taken load is not put back.
pub open spec fn construction_load_outcome(
    h: AiConstructionHaul,
    worker: EntityId,
    r: HaulStep,
    s0: Option<u32>,
    s1: Option<u32>,
    c0: CarriedResource,
    w0: Option<Wheelbarrow>,
    c1: CarriedResource,
    w1: Option<Wheelbarrow>,
    h1: AiConstructionHaul,
) -> bool {
    let src = h.source.unwrap();
    if src == StockEndpoint::CarriedResource(worker) {
        let taken = stack_after_consume(c0.load(), h.kind, h.amount);
        match taken {
            None => r == HaulStep::Clear && c1 == c0 && w1 == w0 && s1 == s0 && h1 == h,
            Some(l) => {
                let used: Option<Option<CarriedResourceStack>> = if h.uses_wheelbarrow {
                    match w0 {
                        Some(w) => Some(w.load()),
                        None => None,
                    }
                } else {
                    Some(l)
                };
                let added = match used {
                    Some(u) => stack_after_add(u, h.kind, h.amount, used_capacity(h.uses_wheelbarrow)),
                    None => None,
                };
                &&& s1 == s0
                &&& match added {
                    None => r == HaulStep::Clear && c1.load() == l && w1 == w0 && h1 == h,
                    Some(l2) => {
                        &&& r == HaulStep::Continue { node_depleted: false }
                        &&& used_load(h.uses_wheelbarrow, c1, w1) == Some(l2)
                        &&& if h.uses_wheelbarrow { c1.load() == l && (w1 is Some <==> w0 is Some) } else { w1 == w0 }
                        &&& h1 == (AiConstructionHaul { phase: ConstructionHaulPhase::ToBlueprint, ..h })
                    },
                }
            },
        }
    } else if !withdraw_ok(src, s0, h.amount) {
        r == HaulStep::Clear && c1 == c0 && w1 == w0 && s1 == s0 && h1 == h
    } else {
        &&& s1 == Some((s0.unwrap() - h.amount) as u32)
        &&& match cargo_after_add(h.uses_wheelbarrow, c0, w0, h.kind, h.amount) {
            None => r == HaulStep::Clear && c1 == c0 && w1 == w0 && h1 == h,
            Some(l2) => r == HaulStep::Continue { node_depleted: false } && used_load(h.uses_wheelbarrow, c1, w1) == Some(l2)
                && other_container_same(h.uses_wheelbarrow, c0, w0, c1, w1)
                && h1 == (AiConstructionHaul { phase: ConstructionHaulPhase::ToBlueprint, ..h }),
        }
    }
}

/// Depositing at the blueprint: the least of what the container holds of
/// the kind, the haul's amount and what is still owed; nothing without
/// progress or when that is zero.
pub open spec fn construction_deposit_outcome(
    h: AiConstructionHaul,
    cost: ResourceAmounts,
    p0: Option<ConstructionProgress>,
    p1: Option<ConstructionProgress>,
    c0: CarriedResource,
    w0: Option<Wheelbarrow>,
    c1: CarriedResource,
    w1: Option<Wheelbarrow>,
) -> bool {
    match p0 {
        None => p1 == p0 && c1 == c0 && w1 == w0,
        Some(p) => {
            let amount = min2(
                min2(used_amount(h.uses_wheelbarrow, c0, w0, h.kind) as int, h.amount as int),
                remaining_of(cost, p.deposited, h.kind),
            );
            if amount > 0 && cargo_after_consume(h.uses_wheelbarrow, c0, w0, h.kind, amount as u32) is Some {
                &&& used_load(h.uses_wheelbarrow, c1, w1) == cargo_after_consume(h.uses_wheelbarrow, c0, w0, h.kind, amount as u32)
                &&& other_container_same(h.uses_wheelbarrow, c0, w0, c1, w1)
                &&& p1 == Some(ConstructionProgress {
                    deposited: p.deposited.with_amount(h.kind, (p.deposited.amount(h.kind) + amount) as u32),
                })
            } else {
                p1 == p0 && c1 == c0 && w1 == w0
            }
        },
    }
}


/// Whether a worker's wheelbarrow holds a load.
pub open spec fn spec_wheelbarrow_loaded(wheelbarrow: Option<Wheelbarrow>) -> bool {
    wheelbarrow matches Some(w) && w.load() is Some
}

pub fn wheelbarrow_loaded(wheelbarrow: Option<Wheelbarrow>) -> (r: bool)
    ensures
        r == spec_wheelbarrow_loaded(wheelbarrow),
{
    match wheelbarrow {
        Some(w) => w.stack().is_some(),
        None => false,
    }
}

/// What a building haul does this tick.
#[derive(Debug, Clone, Copy, PartialEq, Eq, Structural)]
pub enum BuildingHaulStep {
    /// The haul ends; the wheelbarrow goes too when `drop_wheelbarrow`.
    Clear { drop_wheelbarrow: bool },
    /// The haul ends and its loaded wheelbarrow is taken to storage.
    Recover,
    /// Walk toward the current goal.
    Route,
    /// The haul goes on (its phase may have changed); `stop_moving` when the
    /// worker reached its goal, `node_depleted` when the gathered natural
    /// node was emptied and must go.
    Continue { stop_moving: bool, node_depleted: bool },
    /// The load left the worker's container: it goes into the sink and the
    /// haul ends, wheelbarrow included.
    Deliver,
}

/// A building haul that cannot deliver: a loaded wheelbarrow is recovered,
/// otherwise the haul ends keeping the worker's wheelbarrow.
pub open spec fn recover_or_clear(h: AiBuildingHaul, wheelbarrow: Option<Wheelbarrow>) -> BuildingHaulStep {
    if h.uses_wheelbarrow && spec_wheelbarrow_loaded(wheelbarrow) {
        BuildingHaulStep::Recover
    } else {
        BuildingHaulStep::Clear { drop_wheelbarrow: false }
    }
}

/// Loading a building haul from its (non-natural) source: the stock is
/// taken, then put into the haul's container; when the container refuses,
/// the stock is put back where the source takes it back (`restorable`).
pub open spec fn building_load_outcome(
    h: AiBuildingHaul,
    restorable: bool,
    r: BuildingHaulStep,
    s0: Option<u32>,
    s1: Option<u32>,
    c0: CarriedResource,
    w0: Option<Wheelbarrow>,
    c1: CarriedResource,
    w1: Option<Wheelbarrow>,
    h1: AiBuildingHaul,
) -> bool {
    if !withdraw_ok(h.source, s0, h.amount) {
        r == BuildingHaulStep::Clear { drop_wheelbarrow: true } && s1 == s0 && c1 == c0 && w1 == w0
    } else {
        match cargo_after_add(h.uses_wheelbarrow, c0, w0, h.kind, h.amount) {
            None => r == BuildingHaulStep::Clear { drop_wheelbarrow: true } && c1 == c0 && w1 == w0 && s1 == if restorable {
                s0
            } else {
                Some((s0.unwrap() - h.amount) as u32)
            },
            Some(l) => {
                &&& r == BuildingHaulStep::Continue { stop_moving: true, node_depleted: false }
                &&& s1 == Some((s0.unwrap() - h.amount) as u32)
                &&& used_load(h.uses_wheelbarrow, c1, w1) == Some(l)
                &&& other_container_same(h.uses_wheelbarrow, c0, w0, c1, w1)
                &&& h1 == (AiBuildingHaul { phase: BuildingHaulPhase::ToSink, ..h })
            },
        }
    }
}

/// One tick of a building haul. Heading to its source it ends (dropping
/// the wheelbarrow) when the source is inactive, holds less than the haul
/// (`source_stock`, `None` when the source is gone), or cannot be reached;
/// at the source it starts gathering a natural node or loads (see
/// `building_load_outcome`). Gathering needs the worker beside a node of
/// the kind holding the whole amount; when done the amount goes from the
/// node into the haul's container and the gathering skill gains that much.
/// Heading to its sink, a sink that no longer accepts the load or cannot be
/// reached sends a loaded wheelbarrow to recovery (or ends the haul); at
/// the sink the load leaves the container to be delivered.
pub fn building_haul_step(
    haul: &mut AiBuildingHaul,
    source_active: bool,
    source_stock: &mut Option<u32>,
    restorable: bool,
    at_goal: bool,
    goals_empty: bool,
    beside_node: bool,
    node: &mut Option<ResourceNode>,
    carried: &mut CarriedResource,
    wheelbarrow: &mut Option<Wheelbarrow>,
    skills: &mut Option<NpcSkills>,
    sink_accepts: bool,
) -> (r: BuildingHaulStep)
    ensures
        ({
            let h = *old(haul);
            let unchanged_stock = *final(source_stock) == *old(source_stock) && *final(node) == *old(node);
            let unchanged_cargo = *final(carried) == *old(carried) && *final(wheelbarrow) == *old(wheelbarrow);
            let unchanged = unchanged_stock && unchanged_cargo && *final(skills) == *old(skills);
            let held = match *old(source_stock) {
                Some(s) => s,
                None => 0,
            };
            match h.phase {
                BuildingHaulPhase::ToSource => if !source_active || held < h.amount || goals_empty {
                    r == BuildingHaulStep::Clear { drop_wheelbarrow: true } && unchanged && *final(haul) == h
                } else if !at_goal {
                    r == BuildingHaulStep::Route && unchanged && *final(haul) == h
                } else if h.source is NaturalNode {
                    r == BuildingHaulStep::Continue { stop_moving: true, node_depleted: false } && unchanged
                        && *final(haul) == (AiBuildingHaul {
                        phase: BuildingHaulPhase::Gathering { progress_ticks: 0 },
                        ..h
                    })
                } else {
                    &&& building_load_outcome(h, restorable, r, *old(source_stock), *final(source_stock), *old(carried),
                        *old(wheelbarrow), *final(carried), *final(wheelbarrow), *final(haul))
                    &&& r is Clear ==> *final(haul) == h
                    &&& *final(node) == *old(node)
                    &&& *final(skills) == *old(skills)
                },
                BuildingHaulPhase::Gathering { progress_ticks } => {
                    let valid = h.source is NaturalNode && beside_node && (*old(node) matches Some(n) && n.kind == h.kind
                        && n.quantity >= h.amount);
                    let next: int = if progress_ticks == u32::MAX { u32::MAX as int } else { progress_ticks + 1 };
                    if !valid {
                        r == BuildingHaulStep::Clear { drop_wheelbarrow: true } && unchanged && *final(haul) == h
                    } else if next < RESOURCE_GATHER_TICKS_PER_UNIT {
                        r == BuildingHaulStep::Continue { stop_moving: false, node_depleted: false } && unchanged
                            && *final(haul) == (AiBuildingHaul {
                            phase: BuildingHaulPhase::Gathering { progress_ticks: next as u32 },
                            ..h
                        })
                    } else {
                        match cargo_after_add(h.uses_wheelbarrow, *old(carried), *old(wheelbarrow), h.kind, h.amount) {
                            None => r == BuildingHaulStep::Clear { drop_wheelbarrow: true } && unchanged && *final(haul) == h,
                            Some(l) => {
                                let n = old(node).unwrap();
                                &&& used_load(h.uses_wheelbarrow, *final(carried), *final(wheelbarrow)) == Some(l)
                                &&& other_container_same(h.uses_wheelbarrow, *old(carried), *old(wheelbarrow), *final(carried),
                                    *final(wheelbarrow))
                                &&& *final(node) == Some(ResourceNode { quantity: (n.quantity - h.amount) as u32, ..n })
                                &&& *final(source_stock) == *old(source_stock)
                                &&& skills_after_xp(*old(skills), *final(skills), SkillKind::gathering_skill(h.kind), h.amount)
                                &&& *final(haul) == (AiBuildingHaul { phase: BuildingHaulPhase::ToSink, ..h })
                                &&& r == BuildingHaulStep::Continue { stop_moving: false, node_depleted: n.quantity == h.amount }
                            },
                        }
                    }
                },
                BuildingHaulPhase::ToSink => {
                    &&& *final(haul) == h
                    &&& unchanged_stock
                    &&& *final(skills) == *old(skills)
                    &&& if !sink_accepts || goals_empty {
                        r == recover_or_clear(h, *old(wheelbarrow)) && unchanged_cargo
                    } else if !at_goal {
                        r == BuildingHaulStep::Route && unchanged_cargo
                    } else {
                        match cargo_after_consume(h.uses_wheelbarrow, *old(carried), *old(wheelbarrow), h.kind, h.amount) {
                            None => r == recover_or_clear(h, *old(wheelbarrow)) && unchanged_cargo,
                            Some(l) => r == BuildingHaulStep::Deliver && used_load(h.uses_wheelbarrow, *final(carried),
                                *final(wheelbarrow)) == Some(l) && other_container_same(h.uses_wheelbarrow, *old(carried),
                                *old(wheelbarrow), *final(carried), *final(wheelbarrow)),
                        }
                    }
                },
            }
        }),
{
    let h = *haul;
    match h.phase {
        BuildingHaulPhase::ToSource => {
            let held = match *source_stock {
                Some(s) => s,
                None => 0,
            };
            if !source_active || held < h.amount || goals_empty {
                return BuildingHaulStep::Clear { drop_wheelbarrow: true };
            }
            if !at_goal {
                return BuildingHaulStep::Route;
            }
            if let StockEndpoint::NaturalNode(_) = h.source {
                *haul = AiBuildingHaul { phase: BuildingHaulPhase::Gathering { progress_ticks: 0 }, ..h };
                return BuildingHaulStep::Continue { stop_moving: true, node_depleted: false };
            }
            if !withdraw_stock(h.source, source_stock, h.amount) {
                return BuildingHaulStep::Clear { drop_wheelbarrow: true };
            }
            if cargo_add(h.uses_wheelbarrow, carried, wheelbarrow, h.kind, h.amount) {
                *haul = AiBuildingHaul { phase: BuildingHaulPhase::ToSink, ..h };
                BuildingHaulStep::Continue { stop_moving: true, node_depleted: false }
            } else {
                if restorable {
                    let left = source_stock.unwrap();
                    *source_stock = Some(left + h.amount);
                }
                BuildingHaulStep::Clear { drop_wheelbarrow: true }
            }
        },
        BuildingHaulPhase::Gathering { progress_ticks } => {
            let valid = match h.source {
                StockEndpoint::NaturalNode(_) => beside_node && match *node {
                    Some(n) => n.kind == h.kind && n.quantity >= h.amount,
                    None => false,
                },
                _ => false,
            };
            if !valid {
                return BuildingHaulStep::Clear { drop_wheelbarrow: true };
            }
            let n = node.unwrap();
            let next = progress_ticks.saturating_add(1);
            if next < RESOURCE_GATHER_TICKS_PER_UNIT {
                *haul = AiBuildingHaul { phase: BuildingHaulPhase::Gathering { progress_ticks: next }, ..h };
                return BuildingHaulStep::Continue { stop_moving: false, node_depleted: false };
            }
            if !cargo_add(h.uses_wheelbarrow, carried, wheelbarrow, h.kind, h.amount) {
                return BuildingHaulStep::Clear { drop_wheelbarrow: true };
            }
            *node = Some(ResourceNode { quantity: n.quantity - h.amount, ..n });
            credit_gathering(skills, h.kind, h.amount);
            *haul = AiBuildingHaul { phase: BuildingHaulPhase::ToSink, ..h };
            BuildingHaulStep::Continue { stop_moving: false, node_depleted: n.quantity == h.amount }
        },
        BuildingHaulPhase::ToSink => {
            let loaded = wheelbarrow_loaded(*wheelbarrow);
            let fallback = if h.uses_wheelbarrow && loaded {
                BuildingHaulStep::Recover
            } else {
                BuildingHaulStep::Clear { drop_wheelbarrow: false }
            };
            if !sink_accepts || goals_empty {
                return fallback;
            }
            if !at_goal {
                return BuildingHaulStep::Route;
            }
            if cargo_consume(h.uses_wheelbarrow, carried, wheelbarrow, h.kind, h.amount) {
                BuildingHaulStep::Deliver
            } else {
                fallback
            }
        },
    }
}


/// A storage building a recovered wheelbarrow could unload into:
/// `takes_kind` when it is a storage building, active, and allows the
/// load's kind; its free room; and the distance from the worker to the
/// nearest cell it is reached from (`None` when none can be reached).
#[derive(Debug, Clone, Copy, PartialEq, Eq, Structural)]
pub struct StorageOffer {
    pub entity: EntityId,
    pub takes_kind: bool,
    pub free: u32,
    pub goal_distance: Option<usize>,
}

/// Room of a storage left after the capacity already reserved into it.
pub open spec fn storage_room(o: StorageOffer, claims: Seq<Reservation>) -> int {
    let reserved = capped(sum_where(claims, to_sink_any_kind(SinkEndpoint::Storage(o.entity)))) as int;
    if o.free > reserved { o.free - reserved } else { 0 }
}

/// A storage that can take `amount` and that the worker can reach.
pub open spec fn storage_viable(o: StorageOffer, amount: u32, claims: Seq<Reservation>) -> bool {
    o.takes_kind && storage_room(o, claims) >= amount && o.goal_distance is Some
}

/// Order on storages: distance, then entity bits.
pub open spec fn storage_key_lt(a: StorageOffer, b: StorageOffer) -> bool {
    a.goal_distance.unwrap() < b.goal_distance.unwrap() || (a.goal_distance.unwrap() == b.goal_distance.unwrap()
        && a.entity.bits < b.entity.bits)
}

/// Position `i` holds the first viable storage with the least key.
pub open spec fn best_storage(offers: Seq<StorageOffer>, amount: u32, claims: Seq<Reservation>, i: int) -> bool {
    &&& 0 <= i < offers.len()
    &&& storage_viable(offers[i], amount, claims)
    &&& forall|j: int| 0 <= j < offers.len() && storage_viable(#[trigger] offers[j], amount, claims) ==> !storage_key_lt(offers[j], offers[i])
    &&& forall|j: int| 0 <= j < i && storage_viable(#[trigger] offers[j], amount, claims) ==> storage_key_lt(offers[i], offers[j])
}

/// The nearest storage that can take a wheelbarrow's load of `amount`.
pub fn recovery_storage_choice(offers: &[StorageOffer], amount: u32, ledger: &ReservationLedger) -> (r: Option<EntityId>)
    ensures
        r is None <==> !exists|i: int| 0 <= i < offers@.len() && storage_viable(#[trigger] offers@[i], amount, ledger.spec_claims()),
        r matches Some(e) ==> exists|i: int| best_storage(offers@, amount, ledger.spec_claims(), i) && offers@[i].entity == e,
{
    let ghost claims = ledger.spec_claims();
    let mut best: Option<usize> = None;
    let mut i: usize = 0;
    while i < offers.len()
        invariant
            0 <= i <= offers@.len(),
            claims == ledger.spec_claims(),
            best is None ==> forall|j: int| 0 <= j < i ==> !storage_viable(#[trigger] offers@[j], amount, claims),
            best matches Some(b) ==> {
                &&& b < i
                &&& storage_viable(offers@[b as int], amount, claims)
                &&& forall|j: int| 0 <= j < i && storage_viable(#[trigger] offers@[j], amount, claims) ==> !storage_key_lt(offers@[j], offers@[b as int])
                &&& forall|j: int| 0 <= j < b && storage_viable(#[trigger] offers@[j], amount, claims) ==> storage_key_lt(offers@[b as int], offers@[j])
            },
        decreases offers@.len() - i,
    {
        let o = offers[i];
        let reserved = ledger.reserved_capacity_to(SinkEndpoint::Storage(o.entity));
        let room = if o.free > reserved { o.free - reserved } else { 0 };
        if o.takes_kind && room >= amount && o.goal_distance.is_some() {
            match best {
                None => {
                    best = Some(i);
                },
                Some(b) => {
                    let ob = offers[b];
                    let d = o.goal_distance.unwrap();
                    let db = ob.goal_distance.unwrap();
                    if d < db || (d == db && o.entity.bits < ob.entity.bits) {
                        best = Some(i);
                    }
                },
            }
        }
        i = i + 1;
    }
    match best {
        None => None,
        Some(b) => {
            proof {
                assert(best_storage(offers@, amount, claims, b as int));
            }
            Some(offers[b].entity)
        },
    }
}

/// Choosing a destination for a recovered load with the claims `mid` held:
/// none without a viable storage; otherwise the best one is reserved, and
/// becomes the destination when the ledger accepts.
pub open spec fn recovery_choice(
    offers: Seq<StorageOffer>,
    load: CarriedResourceStack,
    worker: EntityId,
    mid: Seq<Reservation>,
    sink: Option<EntityId>,
    claims: Seq<Reservation>,
) -> bool {
    if !exists|i: int| 0 <= i < offers.len() && storage_viable(#[trigger] offers[i], load.amount, mid) {
        sink is None && claims == mid
    } else {
        exists|i: int| #![trigger best_storage(offers, load.amount, mid, i)]
            best_storage(offers, load.amount, mid, i) && {
            let e = offers[i].entity;
            let reservation = Reservation {
                worker,
                source: None,
                sink: SinkEndpoint::Storage(e),
                kind: load.kind,
                amount: load.amount,
                task: e,
            };
            let accepted = forall|k: int| 0 <= k < mid.len() ==> !conflicts(#[trigger] mid[k], reservation);
            &&& accepted ==> sink == Some(e) && exists|p: int| 0 <= p <= mid.len() && claims == mid.insert(p, reservation)
            &&& !accepted ==> sink is None && claims == mid
        }
    }
}

/// Settles where a recovered wheelbarrow unloads. A destination that no
/// longer accepts the load is dropped (with the worker's reservations);
/// without one, the best storage for the load (see `recovery_storage_choice`)
/// is reserved, and kept when the ledger accepts. Returns whether the
/// recovery has a destination.
#[verifier::spinoff_prover]
pub fn settle_recovery_sink(
    recovery: &mut AiWheelbarrowRecovery,
    worker: EntityId,
    load: CarriedResourceStack,
    sink_accepts: bool,
    offers: &[StorageOffer],
    ledger: &mut ReservationLedger,
) -> (r: bool)
    requires
        old(ledger).wf(),
    ensures
        final(ledger).wf(),
        r == final(recovery).sink is Some,
        ({
            let dropped = old(recovery).sink is Some && !sink_accepts;
            let mid = if dropped {
                without_worker(old(ledger).spec_claims(), worker)
            } else {
                old(ledger).spec_claims()
            };
            if old(recovery).sink is Some && !dropped {
                *final(recovery) == *old(recovery) && final(ledger).spec_claims() == mid
            } else {
                recovery_choice(offers@, load, worker, mid, final(recovery).sink, final(ledger).spec_claims())
            }
        }),
{
    let ghost dropped = old(recovery).sink is Some && !sink_accepts;
    let ghost mid = if dropped {
        without_worker(old(ledger).spec_claims(), worker)
    } else {
        old(ledger).spec_claims()
    };
    if recovery.sink.is_some() && !sink_accepts {
        ledger.release_worker(worker);
        recovery.sink = None;
    }
    assert(ledger.spec_claims() == mid);
    if recovery.sink.is_some() {
        return true;
    }
    let choice = recovery_storage_choice(offers, load.amount, ledger);
    match choice {
        None => {
            assert(!exists|i: int| 0 <= i < offers@.len() && storage_viable(#[trigger] offers@[i], load.amount, mid));
            false
        },
        Some(e) => {
            let reservation = Reservation {
                worker,
                source: None,
                sink: SinkEndpoint::Storage(e),
                kind: load.kind,
                amount: load.amount,
                task: e,
            };
            if ledger.claim(reservation) {
                recovery.sink = Some(e);
                true
            } else {
                false
            }
        },
    }
}

/// What a recovered wheelbarrow does once its destination is settled.
#[derive(Debug, Clone, Copy, PartialEq, Eq, Structural)]
pub enum RecoveryStep {
    /// Nothing to do this tick.
    Wait,
    /// Walk to the destination.
    Route,
    /// The load left the wheelbarrow and goes into the destination; the
    /// recovery ends (reservation, wheelbarrow and movement go).
    Unload,
}

/// At the destination the load leaves the wheelbarrow when the storage
/// takes it (`storage_takes`); away from it the worker walks there while
/// cells to reach it exist.
pub fn recovery_arrival(at_goal: bool, goals_empty: bool, storage_takes: bool, wheelbarrow: &mut Wheelbarrow) -> (r: RecoveryStep)
    ensures
        !at_goal ==> final(wheelbarrow).load() == old(wheelbarrow).load() && r == if goals_empty {
            RecoveryStep::Wait
        } else {
            RecoveryStep::Route
        },
        at_goal ==> match old(wheelbarrow).load() {
            Some(l) => if storage_takes {
                r == RecoveryStep::Unload && final(wheelbarrow).load() is None
            } else {
                r == RecoveryStep::Wait && final(wheelbarrow).load() == old(wheelbarrow).load()
            },
            None => r == RecoveryStep::Wait && final(wheelbarrow).load() == old(wheelbarrow).load(),
        },
{
    if !at_goal {
        return if goals_empty { RecoveryStep::Wait } else { RecoveryStep::Route };
    }
    match wheelbarrow.stack() {
        Some(l) => {
            if storage_takes && wheelbarrow.consume(l.kind, l.amount) {
                RecoveryStep::Unload
            } else {
                RecoveryStep::Wait
            }
        },
        None => RecoveryStep::Wait,
    }
}

/// How cancelling the work involving a building ends a building haul that
/// uses it as source or sink (`None` when it does not): a loaded
/// wheelbarrow is recovered, otherwise the haul ends, dropping its
/// wheelbarrow.
pub fn building_haul_cancellation(haul: AiBuildingHaul, building: EntityId, wheelbarrow: Option<Wheelbarrow>) -> (r: Option<
    BuildingHaulStep,
>)
    ensures
        r == if spec_endpoint_entity(haul.source) == building || crate::refining::spec_sink_entity(haul.sink) == building {
            Some(
                if haul.uses_wheelbarrow && spec_wheelbarrow_loaded(wheelbarrow) {
                    BuildingHaulStep::Recover
                } else {
                    BuildingHaulStep::Clear { drop_wheelbarrow: haul.uses_wheelbarrow }
                },
            )
        } else {
            None
        },
{
    if endpoint_entity(haul.source) == building || crate::refining::sink_entity(haul.sink) == building {
        if haul.uses_wheelbarrow && wheelbarrow_loaded(wheelbarrow) {
            Some(BuildingHaulStep::Recover)
        } else {
            Some(BuildingHaulStep::Clear { drop_wheelbarrow: haul.uses_wheelbarrow })
        }
    } else {
        None
    }
}

/// Whether a construction haul takes from the building.
pub fn construction_haul_involves(haul: AiConstructionHaul, building: EntityId) -> (r: bool)
    ensures
        r == (haul.source matches Some(s) && spec_endpoint_entity(s) == building),
{
    match haul.source {
        Some(s) => endpoint_entity(s) == building,
        None => false,
    }
}

/// Whether a food haul takes from the building.
pub fn food_haul_involves(haul: AiFoodHaul, building: EntityId) -> (r: bool)
    ensures
        r == (spec_endpoint_entity(haul.source) == building),
{
    endpoint_entity(haul.source) == building
}


/// A building wanting a kind delivered: a storage pulling a kind from
/// refineries, or a refinery's input for one of its recipes; with its free
/// room before reservations.
#[derive(Debug, Clone, Copy, PartialEq, Eq, Structural)]
pub struct SupplyDemand {
    pub sink: SinkEndpoint,
    pub kind: ResourceKind,
    pub free: u32,
}

/// A building haul candidate.
#[derive(Debug, Clone, Copy, PartialEq, Eq, Structural)]
pub struct BuildingHaulCandidate {
    pub distance: usize,
    pub source: StockEndpoint,
    pub sink: SinkEndpoint,
    pub kind: ResourceKind,
    pub amount: u32,
    pub uses_wheelbarrow: bool,
}

/// Pulls into storage, and supplies out of a warehouse, go by wheelbarrow.
pub open spec fn supply_uses_wheelbarrow(source: StockEndpoint, sink: SinkEndpoint) -> bool {
    sink is Storage || source is Warehouse
}

/// Load size of a supply haul: a wheelbarrow load, one unit from a natural
/// node, otherwise what the hands carry.
pub open spec fn supply_capacity(source: StockEndpoint, sink: SinkEndpoint) -> int {
    if supply_uses_wheelbarrow(source, sink) {
        WHEELBARROW_CAPACITY as int
    } else if source is NaturalNode {
        1
    } else {
        CARRIED_RESOURCE_CAPACITY as int
    }
}

/// Room of a demand's sink left after the capacity reserved into it.
pub open spec fn demand_room(d: SupplyDemand, claims: Seq<Reservation>) -> int {
    let reserved = capped(sum_where(claims, to_sink_any_kind(d.sink))) as int;
    if d.free > reserved { d.free - reserved } else { 0 }
}

/// Stock of an offer not reserved by other hauls.
pub open spec fn offer_available(o: SourceOffer, claims: Seq<Reservation>) -> int {
    let reserved = capped(sum_where(claims, from_source(o.endpoint, o.kind))) as int;
    if o.stock > reserved { o.stock - reserved } else { 0 }
}

/// The candidates for one demand, one per reachable offer of its kind with
/// unreserved stock, in offer order.
pub open spec fn supply_candidates(d: SupplyDemand, room: int, offers: Seq<SourceOffer>, claims: Seq<Reservation>) -> Seq<
    BuildingHaulCandidate,
>
    decreases offers.len(),
{
    if offers.len() == 0 {
        seq![]
    } else {
        let o = offers.last();
        let available = offer_available(o, claims);
        supply_candidates(d, room, offers.drop_last(), claims) + if o.kind != d.kind || available == 0
            || o.goal_distance is None {
            seq![]
        } else {
            seq![BuildingHaulCandidate {
                distance: o.goal_distance.unwrap(),
                source: o.endpoint,
                sink: d.sink,
                kind: d.kind,
                amount: min2(min2(available, room), supply_capacity(o.endpoint, d.sink)) as u32,
                uses_wheelbarrow: supply_uses_wheelbarrow(o.endpoint, d.sink),
            }]
        }
    }
}

/// The candidates of every demand with room left, in demand order.
pub open spec fn all_supply_candidates(demands: Seq<SupplyDemand>, offers: Seq<SourceOffer>, claims: Seq<Reservation>) -> Seq<
    BuildingHaulCandidate,
>
    decreases demands.len(),
{
    if demands.len() == 0 {
        seq![]
    } else {
        let d = demands.last();
        let room = demand_room(d, claims);
        all_supply_candidates(demands.drop_last(), offers, claims) + if room == 0 {
            seq![]
        } else {
            supply_candidates(d, room, offers, claims)
        }
    }
}

/// Order on building hauls: distance, source entity bits, sink entity bits,
/// kind order.
pub open spec fn supply_key_lt(a: BuildingHaulCandidate, b: BuildingHaulCandidate) -> bool {
    let sa = spec_endpoint_entity(a.source).bits;
    let sb = spec_endpoint_entity(b.source).bits;
    let ka = crate::refining::spec_sink_entity(a.sink).bits;
    let kb = crate::refining::spec_sink_entity(b.sink).bits;
    a.distance < b.distance || (a.distance == b.distance && (sa < sb || (sa == sb && (ka < kb || (ka == kb
        && a.kind.ordinal() < b.kind.ordinal())))))
}

/// Position `i` holds the first candidate with the least key.
pub open spec fn first_least_supply(cands: Seq<BuildingHaulCandidate>, i: int) -> bool {
    &&& 0 <= i < cands.len()
    &&& forall|j: int| 0 <= j < cands.len() ==> !supply_key_lt(#[trigger] cands[j], cands[i])
    &&& forall|j: int| 0 <= j < i ==> supply_key_lt(cands[i], #[trigger] cands[j])
}

fn supply_key_less(a: BuildingHaulCandidate, b: BuildingHaulCandidate) -> (r: bool)
    ensures
        r == supply_key_lt(a, b),
{
    let sa = endpoint_entity(a.source).bits;
    let sb = endpoint_entity(b.source).bits;
    let ka = crate::refining::sink_entity(a.sink).bits;
    let kb = crate::refining::sink_entity(b.sink).bits;
    a.distance < b.distance || (a.distance == b.distance && (sa < sb || (sa == sb && (ka < kb || (ka == kb
        && a.kind.index() < b.kind.index())))))
}

fn push_supply_candidates(
    out: &mut Vec<BuildingHaulCandidate>,
    d: SupplyDemand,
    room: u32,
    offers: &[SourceOffer],
    ledger: &ReservationLedger,
)
    ensures
        final(out)@ == old(out)@ + supply_candidates(d, room as int, offers@, ledger.spec_claims()),
{
    let ghost o0 = out@;
    let mut i: usize = 0;
    while i < offers.len()
        invariant
            0 <= i <= offers@.len(),
            out@ == o0 + supply_candidates(d, room as int, offers@.subrange(0, i as int), ledger.spec_claims()),
        decreases offers@.len() - i,
    {
        let o = offers[i];
        proof {
            let sub = offers@.subrange(0, i as int + 1);
            assert(sub.drop_last() =~= offers@.subrange(0, i as int));
            assert(sub.last() == o);
        }
        if o.kind == d.kind {
            let reserved = ledger.reserved_from(o.endpoint, o.kind);
            let available = if o.stock > reserved { o.stock - reserved } else { 0 };
            if available > 0 {
                if let Some(dist) = o.goal_distance {
                    let uses_wheelbarrow = match (o.endpoint, d.sink) {
                        (_, SinkEndpoint::Storage(_)) => true,
                        (StockEndpoint::Warehouse(_), _) => true,
                        _ => false,
                    };
                    let capacity: u32 = if uses_wheelbarrow {
                        WHEELBARROW_CAPACITY
                    } else {
                        match o.endpoint {
                            StockEndpoint::NaturalNode(_) => 1,
                            _ => CARRIED_RESOURCE_CAPACITY,
                        }
                    };
                    let a = if available < room { available } else { room };
                    let amount = if a < capacity { a } else { capacity };
                    out.push(BuildingHaulCandidate { distance: dist, source: o.endpoint, sink: d.sink, kind: d.kind, amount, uses_wheelbarrow });
                }
            }
        }
        i = i + 1;
    }
    proof {
        assert(offers@.subrange(0, offers@.len() as int) =~= offers@);
    }
}

/// The building haul an idle, empty-handed worker should take: among all
/// candidates (see `all_supply_candidates`), the first with the least key.
/// Goal distances in `offers` are those from the worker's position.
pub fn building_haul_choice(demands: &[SupplyDemand], offers: &[SourceOffer], ledger: &ReservationLedger) -> (r: Option<
    BuildingHaulCandidate,
>)
    ensures
        ({
            let cands = all_supply_candidates(demands@, offers@, ledger.spec_claims());
            &&& r is None <==> cands.len() == 0
            &&& r matches Some(c) ==> exists|i: int| first_least_supply(cands, i) && cands[i] == c
        }),
{
    let mut cands: Vec<BuildingHaulCandidate> = Vec::new();
    let mut i: usize = 0;
    while i < demands.len()
        invariant
            0 <= i <= demands@.len(),
            cands@ == all_supply_candidates(demands@.subrange(0, i as int), offers@, ledger.spec_claims()),
        decreases demands@.len() - i,
    {
        let d = demands[i];
        proof {
            let sub = demands@.subrange(0, i as int + 1);
            assert(sub.drop_last() =~= demands@.subrange(0, i as int));
            assert(sub.last() == d);
        }
        let reserved = ledger.reserved_capacity_to(d.sink);
        let room = if d.free > reserved { d.free - reserved } else { 0 };
        if room > 0 {
            push_supply_candidates(&mut cands, d, room, offers, ledger);
        }
        i = i + 1;
    }
    proof {
        assert(demands@.subrange(0, demands@.len() as int) =~= demands@);
    }
    if cands.len() == 0 {
        return None;
    }
    let mut best: usize = 0;
    let mut j: usize = 1;
    while j < cands.len()
        invariant
            1 <= j <= cands@.len(),
            best < j,
            forall|t: int| 0 <= t < j ==> !supply_key_lt(#[trigger] cands@[t], cands@[best as int]),
            forall|t: int| 0 <= t < best ==> supply_key_lt(cands@[best as int], #[trigger] cands@[t]),
        decreases cands@.len() - j,
    {
        if supply_key_less(cands[j], cands[best]) {
            best = j;
        }
        j = j + 1;
    }
    proof {
        assert(first_least_supply(cands@, best as int));
    }
    Some(cands[best])
}

/// Claims a chosen building haul for a worker (reserving the source's stock
/// and the sink's room for the sink's building); when the ledger accepts,
/// the haul heading for its source.
pub fn claim_building_haul(ledger: &mut ReservationLedger, worker: EntityId, c: BuildingHaulCandidate) -> (r: Option<
    AiBuildingHaul,
>)
    requires
        old(ledger).wf(),
    ensures
        final(ledger).wf(),
        ({
            let reservation = Reservation {
                worker,
                source: Some(c.source),
                sink: c.sink,
                kind: c.kind,
                amount: c.amount,
                task: crate::refining::spec_sink_entity(c.sink),
            };
            let accepted = forall|i: int|
                0 <= i < old(ledger).spec_claims().len() ==> !conflicts(#[trigger] old(ledger).spec_claims()[i], reservation);
            &&& r is Some <==> accepted
            &&& !accepted ==> final(ledger).spec_claims() == old(ledger).spec_claims()
            &&& accepted ==> exists|p: int| 0 <= p <= old(ledger).spec_claims().len()
                && final(ledger).spec_claims() == old(ledger).spec_claims().insert(p, reservation)
            &&& r matches Some(h) ==> h == AiBuildingHaul {
                source: c.source,
                sink: c.sink,
                kind: c.kind,
                amount: c.amount,
                phase: BuildingHaulPhase::ToSource,
                uses_wheelbarrow: c.uses_wheelbarrow,
            }
        }),
{
    let reservation = Reservation {
        worker,
        source: Some(c.source),
        sink: c.sink,
        kind: c.kind,
        amount: c.amount,
        task: crate::refining::sink_entity(c.sink),
    };
    if !ledger.claim(reservation) {
        return None;
    }
    Some(AiBuildingHaul {
        source: c.source,
        sink: c.sink,
        kind: c.kind,
        amount: c.amount,
        phase: BuildingHaulPhase::ToSource,
        uses_wheelbarrow: c.uses_wheelbarrow,
    })
}


/// What happens to a worker's wheelbarrow when urgent food work preempts
/// its other work.
#[derive(Debug, Clone, Copy, PartialEq, Eq, Structural)]
pub enum WheelbarrowFate {
    /// The loaded wheelbarrow of an interrupted haul is taken to storage.
    Recover,
    /// The wheelbarrow is put away.
    Drop,
    /// Nothing changes (no wheelbarrow, or one already being recovered).
    Keep,
}

/// A loaded wheelbarrow of an interrupted building or construction haul is
/// recovered; any other wheelbarrow not already under recovery is put away.
pub fn preempted_wheelbarrow(wheelbarrow: Option<Wheelbarrow>, hauling: bool, recovering: bool) -> (r: WheelbarrowFate)
    ensures
        r == if spec_wheelbarrow_loaded(wheelbarrow) && hauling {
            WheelbarrowFate::Recover
        } else if wheelbarrow is Some && !recovering {
            WheelbarrowFate::Drop
        } else {
            WheelbarrowFate::Keep
        },
{
    if wheelbarrow_loaded(wheelbarrow) && hauling {
        WheelbarrowFate::Recover
    } else if wheelbarrow.is_some() && !recovering {
        WheelbarrowFate::Drop
    } else {
        WheelbarrowFate::Keep
    }
}

} // verus!
