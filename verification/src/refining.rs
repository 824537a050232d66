use vstd::prelude::*;
use crate::entity::EntityId;
use crate::resources::ResourceKind;

verus! {

pub const REFINERY_INPUT_CAPACITY: u32 = 100;

pub const REFINERY_OUTPUT_CAPACITY: u32 = 100;

pub const REFINING_TICKS_PER_UNIT: u32 = 60;

/// Where hauled stock comes from.
#[derive(Debug, Clone, Copy, PartialEq, Eq, Hash, Structural)]
pub enum StockEndpoint {
    NaturalNode(EntityId),
    NpcInventory(EntityId),
    CarriedResource(EntityId),
    Warehouse(EntityId),
    Farm(EntityId),
    ForesterLodge(EntityId),
    RefineryInput(EntityId),
    RefineryOutput(EntityId),
}

/// Where hauled stock goes.
#[derive(Debug, Clone, Copy, PartialEq, Eq, Hash, Structural)]
pub enum SinkEndpoint {
    Blueprint(EntityId),
    NpcInventory(EntityId),
    FoodPouch(EntityId),
    Storage(EntityId),
    RefineryInput(EntityId),
    RefineryOutput(EntityId),
}

/// The entity behind a source.
pub open spec fn spec_endpoint_entity(endpoint: StockEndpoint) -> EntityId {
    match endpoint {
        StockEndpoint::NaturalNode(e) => e,
        StockEndpoint::NpcInventory(e) => e,
        StockEndpoint::CarriedResource(e) => e,
        StockEndpoint::Warehouse(e) => e,
        StockEndpoint::Farm(e) => e,
        StockEndpoint::ForesterLodge(e) => e,
        StockEndpoint::RefineryInput(e) => e,
        StockEndpoint::RefineryOutput(e) => e,
    }
}

pub fn endpoint_entity(endpoint: StockEndpoint) -> (r: EntityId)
    ensures
        r == spec_endpoint_entity(endpoint),
{
    match endpoint {
        StockEndpoint::NaturalNode(e) | StockEndpoint::NpcInventory(e) | StockEndpoint::CarriedResource(e)
        | StockEndpoint::Warehouse(e) | StockEndpoint::Farm(e) | StockEndpoint::ForesterLodge(e)
        | StockEndpoint::RefineryInput(e) | StockEndpoint::RefineryOutput(e) => e,
    }
}

/// The entity behind a sink.
pub open spec fn spec_sink_entity(sink: SinkEndpoint) -> EntityId {
    match sink {
        SinkEndpoint::Blueprint(e) => e,
        SinkEndpoint::NpcInventory(e) => e,
        SinkEndpoint::FoodPouch(e) => e,
        SinkEndpoint::Storage(e) => e,
        SinkEndpoint::RefineryInput(e) => e,
        SinkEndpoint::RefineryOutput(e) => e,
    }
}

pub fn sink_entity(sink: SinkEndpoint) -> (r: EntityId)
    ensures
        r == spec_sink_entity(sink),
{
    match sink {
        SinkEndpoint::Blueprint(e) | SinkEndpoint::NpcInventory(e) | SinkEndpoint::FoodPouch(e)
        | SinkEndpoint::Storage(e) | SinkEndpoint::RefineryInput(e) | SinkEndpoint::RefineryOutput(e) => e,
    }
}

/// A worker's claim on stock moving from a source to a sink for a task.
#[derive(Debug, Clone, Copy, PartialEq, Eq, Structural)]
pub struct Reservation {
    pub worker: EntityId,
    pub source: Option<StockEndpoint>,
    pub sink: SinkEndpoint,
    pub kind: ResourceKind,
    pub amount: u32,
    pub task: EntityId,
}

/// Exact sum of the amounts of the claims `counts` selects.
pub open spec fn sum_where(claims: Seq<Reservation>, counts: spec_fn(Reservation) -> bool) -> int
    decreases claims.len(),
{
    if claims.len() == 0 {
        0
    } else {
        sum_where(claims.drop_last(), counts) + if counts(claims.last()) {
            claims.last().amount as int
        } else {
            0
        }
    }
}

/// A sum capped at `u32::MAX`.
pub open spec fn capped(v: int) -> u32 {
    if v > u32::MAX { u32::MAX } else { v as u32 }
}

pub open spec fn from_source(source: StockEndpoint, kind: ResourceKind) -> spec_fn(Reservation) -> bool {
    |c: Reservation| c.source == Some(source) && c.kind == kind
}

pub open spec fn from_source_except(worker: EntityId, source: StockEndpoint, kind: ResourceKind) -> spec_fn(Reservation) -> bool {
    |c: Reservation| c.worker != worker && c.source == Some(source) && c.kind == kind
}

pub open spec fn to_sink(sink: SinkEndpoint, kind: ResourceKind) -> spec_fn(Reservation) -> bool {
    |c: Reservation| c.sink == sink && c.kind == kind
}

pub open spec fn to_sink_any_kind(sink: SinkEndpoint) -> spec_fn(Reservation) -> bool {
    |c: Reservation| c.sink == sink
}

/// The claims of every worker but one, in order.
pub open spec fn without_worker(claims: Seq<Reservation>, worker: EntityId) -> Seq<Reservation> {
    claims.filter(|c: Reservation| c.worker != worker)
}

/// Claims ordered by worker, each worker at most once.
pub open spec fn workers_increasing(claims: Seq<Reservation>) -> bool {
    forall|i: int, j: int| 0 <= i < j < claims.len() ==> (#[trigger] claims[i]).worker.bits < (#[trigger] claims[j]).worker.bits
}

/// Whether a new reservation conflicts with a held one: same worker, or
/// the same task when the new one delivers to a refinery's output.
pub open spec fn conflicts(held: Reservation, new: Reservation) -> bool {
    held.worker == new.worker || (held.task == new.task && new.sink is RefineryOutput)
}

/// The reservations of all workers, ordered by worker (and task), one per
/// worker at most.
pub struct ReservationLedger {
    claims: Vec<Reservation>,
}

impl ReservationLedger {
    pub closed spec fn spec_claims(&self) -> Seq<Reservation> {
        self.claims@
    }

    /// One reservation per worker at most, ordered by worker.
    pub open spec fn wf(&self) -> bool {
        workers_increasing(self.spec_claims())
    }

    pub fn new() -> (r: Self)
        ensures
            r.spec_claims() == Seq::<Reservation>::empty(),
            r.wf(),
    {
        Self { claims: Vec::new() }
    }

    pub fn claims(&self) -> (r: &[Reservation])
        ensures
            r@ == self.spec_claims(),
    {
        self.claims.as_slice()
    }

    fn sum_claims(&self, source: Option<StockEndpoint>, sink: Option<SinkEndpoint>, kind: Option<ResourceKind>) -> (r: u32)
        ensures
            source is Some && kind is Some && sink is None ==> r == capped(
                sum_where(self.spec_claims(), from_source(source.unwrap(), kind.unwrap())),
            ),
            sink is Some && kind is Some && source is None ==> r == capped(
                sum_where(self.spec_claims(), to_sink(sink.unwrap(), kind.unwrap())),
            ),
            sink is Some && kind is None && source is None ==> r == capped(
                sum_where(self.spec_claims(), to_sink_any_kind(sink.unwrap())),
            ),
    {
        let ghost counts: spec_fn(Reservation) -> bool = |c: Reservation|
            (source is Some ==> c.source == source) && (sink is Some ==> Some(c.sink) == sink) && (kind is Some ==> Some(c.kind) == kind);
        let mut total: u32 = 0;
        let mut i: usize = 0;
        while i < self.claims.len()
            invariant
                0 <= i <= self.claims@.len(),
                forall|c: Reservation| #[trigger] counts(c) == ((source is Some ==> c.source == source) && (sink is Some
                    ==> Some(c.sink) == sink) && (kind is Some ==> Some(c.kind) == kind)),
                total == capped(sum_where(self.claims@.subrange(0, i as int), counts)),
                sum_where(self.claims@.subrange(0, i as int), counts) >= 0,
            decreases self.claims@.len() - i,
        {
            let c = self.claims[i];
            let source_ok = match source {
                Some(s) => match c.source {
                    Some(cs) => cs == s,
                    None => false,
                },
                None => true,
            };
            let sink_ok = match sink {
                Some(s) => c.sink == s,
                None => true,
            };
            let kind_ok = match kind {
                Some(k) => c.kind == k,
                None => true,
            };
            let counted = source_ok && sink_ok && kind_ok;
            proof {
                let sub = self.claims@.subrange(0, i as int + 1);
                assert(sub.drop_last() =~= self.claims@.subrange(0, i as int));
                assert(sub.last() == c);
                assert(source_ok == (source is Some ==> c.source == source));
                assert(sink_ok == (sink is Some ==> Some(c.sink) == sink));
                assert(kind_ok == (kind is Some ==> Some(c.kind) == kind));
                assert(counted == counts(c));
            }
            if counted {
                total = total.saturating_add(c.amount);
            }
            i = i + 1;
        }
        proof {
            assert(self.claims@.subrange(0, self.claims@.len() as int) =~= self.claims@);
            if source is Some && kind is Some && sink is None {
                assert(counts =~= from_source(source.unwrap(), kind.unwrap()));
            }
            if sink is Some && kind is Some && source is None {
                assert(counts =~= to_sink(sink.unwrap(), kind.unwrap()));
            }
            if sink is Some && kind is None && source is None {
                assert(counts =~= to_sink_any_kind(sink.unwrap()));
            }
        }
        total
    }

    /// Stock of a kind reserved out of a source (saturating sum).
    pub fn reserved_from(&self, source: StockEndpoint, kind: ResourceKind) -> (r: u32)
        ensures
            r == capped(sum_where(self.spec_claims(), from_source(source, kind))),
    {
        self.sum_claims(Some(source), None, Some(kind))
    }

    /// Stock of a kind reserved out of a source by workers other than the
    /// given one (saturating sum).
    pub fn reserved_from_excluding_worker(&self, worker: EntityId, source: StockEndpoint, kind: ResourceKind) -> (r: u32)
        ensures
            r == capped(sum_where(self.spec_claims(), from_source_except(worker, source, kind))),
    {
        let ghost counts = from_source_except(worker, source, kind);
        let mut total: u32 = 0;
        let mut i: usize = 0;
        while i < self.claims.len()
            invariant
                0 <= i <= self.claims@.len(),
                counts == from_source_except(worker, source, kind),
                total == capped(sum_where(self.claims@.subrange(0, i as int), counts)),
                sum_where(self.claims@.subrange(0, i as int), counts) >= 0,
            decreases self.claims@.len() - i,
        {
            let c = self.claims[i];
            let source_ok = match c.source {
                Some(cs) => cs == source,
                None => false,
            };
            let counted = c.worker != worker && source_ok && c.kind == kind;
            proof {
                let sub = self.claims@.subrange(0, i as int + 1);
                assert(sub.drop_last() =~= self.claims@.subrange(0, i as int));
                assert(sub.last() == c);
                assert(counted == counts(c));
            }
            if counted {
                total = total.saturating_add(c.amount);
            }
            i = i + 1;
        }
        proof {
            assert(self.claims@.subrange(0, self.claims@.len() as int) =~= self.claims@);
        }
        total
    }

    /// Stock of a kind reserved into a sink (saturating sum).
    pub fn reserved_to(&self, sink: SinkEndpoint, kind: ResourceKind) -> (r: u32)
        ensures
            r == capped(sum_where(self.spec_claims(), to_sink(sink, kind))),
    {
        self.sum_claims(None, Some(sink), Some(kind))
    }

    /// Capacity of a sink reserved by all claims into it, of any kind
    /// (saturating sum).
    pub fn reserved_capacity_to(&self, sink: SinkEndpoint) -> (r: u32)
        ensures
            r == capped(sum_where(self.spec_claims(), to_sink_any_kind(sink))),
    {
        self.sum_claims(None, Some(sink), None)
    }

    /// Records a reservation unless it conflicts with a held one (see
    /// `conflicts`); keeps the claims ordered by worker.
    pub fn claim(&mut self, reservation: Reservation) -> (r: bool)
        requires
            old(self).wf(),
        ensures
            final(self).wf(),
            r == forall|i: int| 0 <= i < old(self).spec_claims().len() ==> !conflicts(#[trigger] old(self).spec_claims()[i], reservation),
            !r ==> final(self).spec_claims() == old(self).spec_claims(),
            r ==> exists|p: int| 0 <= p <= old(self).spec_claims().len()
                && final(self).spec_claims() == old(self).spec_claims().insert(p, reservation),
    {
        let mut i: usize = 0;
        while i < self.claims.len()
            invariant
                self.claims@ == old(self).spec_claims(),
                workers_increasing(self.claims@),
                0 <= i <= self.claims@.len(),
                forall|j: int| 0 <= j < i ==> !conflicts(#[trigger] self.claims@[j], reservation),
            decreases self.claims@.len() - i,
        {
            let c = self.claims[i];
            let same_task_output = c.task == reservation.task && match reservation.sink {
                SinkEndpoint::RefineryOutput(_) => true,
                _ => false,
            };
            if c.worker == reservation.worker || same_task_output {
                proof {
                    assert(conflicts(self.claims@[i as int], reservation));
                }
                return false;
            }
            i = i + 1;
        }
        let mut p: usize = 0;
        while p < self.claims.len() && self.claims[p].worker.bits < reservation.worker.bits
            invariant
                self.claims@ == old(self).spec_claims(),
                workers_increasing(self.claims@),
                forall|j: int| 0 <= j < self.claims@.len() ==> !conflicts(#[trigger] self.claims@[j], reservation),
                0 <= p <= self.claims@.len(),
                forall|j: int| 0 <= j < p ==> (#[trigger] self.claims@[j]).worker.bits < reservation.worker.bits,
            decreases self.claims@.len() - p,
        {
            p = p + 1;
        }
        let ghost s0 = self.claims@;
        self.claims.insert(p, reservation);
        proof {
            assert(self.claims@ == s0.insert(p as int, reservation));
            assert forall|a: int, b: int| 0 <= a < b < self.claims@.len() implies (#[trigger] self.claims@[a]).worker.bits
                < (#[trigger] self.claims@[b]).worker.bits by {
                if p < s0.len() {
                    assert(!conflicts(s0[p as int], reservation));
                    assert(s0[p as int].worker.bits >= reservation.worker.bits);
                    assert(s0[p as int].worker.bits != reservation.worker.bits);
                }
                if a < p && b == p {
                } else if a < p && b > p {
                    assert(self.claims@[b] == s0[b - 1]);
                    if p < s0.len() {
                        assert(s0[p as int].worker.bits <= s0[b - 1].worker.bits);
                    }
                } else if a == p && b > p {
                    assert(self.claims@[b] == s0[b - 1]);
                    assert(s0[p as int].worker.bits <= s0[b - 1].worker.bits);
                } else if a > p {
                    assert(self.claims@[a] == s0[a - 1]);
                    assert(self.claims@[b] == s0[b - 1]);
                }
            }
        }
        true
    }

    /// Drops every reservation of a worker, keeping the others in order.
    pub fn release_worker(&mut self, worker: EntityId)
        requires
            old(self).wf(),
        ensures
            final(self).wf(),
            final(self).spec_claims() == without_worker(old(self).spec_claims(), worker),
    {
        let ghost pred = |c: Reservation| c.worker != worker;
        let mut kept: Vec<Reservation> = Vec::new();
        let mut i: usize = 0;
        while i < self.claims.len()
            invariant
                self.claims@ == old(self).spec_claims(),
                workers_increasing(self.claims@),
                0 <= i <= self.claims@.len(),
                forall|c: Reservation| #[trigger] pred(c) == (c.worker != worker),
                kept@ == self.claims@.subrange(0, i as int).filter(pred),
                forall|a: int| 0 <= a < kept@.len() ==> exists|b: int| 0 <= b < i && #[trigger] kept@[a] == self.claims@[b],
                workers_increasing(kept@),
                kept@.len() > 0 ==> exists|b: int| 0 <= b < i && kept@.last() == self.claims@[b],
            decreases self.claims@.len() - i,
        {
            let c = self.claims[i];
            let ghost k0 = kept@;
            proof {
                let sub = self.claims@.subrange(0, i as int + 1);
                assert(sub.drop_last() =~= self.claims@.subrange(0, i as int));
                assert(sub.last() == c);
                assert(sub.filter(pred) == if pred(c) {
                    self.claims@.subrange(0, i as int).filter(pred).push(c)
                } else {
                    self.claims@.subrange(0, i as int).filter(pred)
                }) by {
                    reveal(Seq::filter);
                }
            }
            if c.worker != worker {
                kept.push(c);
                proof {
                    assert forall|a: int, b: int| 0 <= a < b < kept@.len() implies (#[trigger] kept@[a]).worker.bits < (#[trigger] kept@[b]).worker.bits by {
                        if b == kept@.len() - 1 {
                            let bb = choose|bb: int| 0 <= bb < i && #[trigger] k0[a] == self.claims@[bb];
                            assert(kept@[a] == k0[a]);
                        }
                    }
                }
            }
            proof {
                assert forall|a: int| 0 <= a < kept@.len() implies exists|b: int| 0 <= b < i + 1 && #[trigger] kept@[a] == self.claims@[b] by {
                    if a < k0.len() {
                        assert(kept@[a] == k0[a]);
                        let bb = choose|bb: int| 0 <= bb < i && #[trigger] k0[a] == self.claims@[bb];
                        assert(kept@[a] == self.claims@[bb]);
                    } else {
                        assert(kept@[a] == self.claims@[i as int]);
                    }
                }
                if kept@.len() > 0 {
                    let a = kept@.len() - 1;
                    let bb = choose|bb: int| 0 <= bb < i + 1 && #[trigger] kept@[a] == self.claims@[bb];
                    assert(kept@.last() == self.claims@[bb]);
                }
            }
            i = i + 1;
        }
        proof {
            assert(self.claims@.subrange(0, self.claims@.len() as int) =~= self.claims@);
        }
        self.claims = kept;
    }

    /// Drops every reservation made for a task, keeping the others in order.
    pub fn release_task(&mut self, task: EntityId)
        requires
            old(self).wf(),
        ensures
            final(self).wf(),
            final(self).spec_claims() == old(self).spec_claims().filter(|c: Reservation| c.task != task),
    {
        let ghost pred = |c: Reservation| c.task != task;
        let mut kept: Vec<Reservation> = Vec::new();
        let mut i: usize = 0;
        while i < self.claims.len()
            invariant
                self.claims@ == old(self).spec_claims(),
                workers_increasing(self.claims@),
                0 <= i <= self.claims@.len(),
                forall|c: Reservation| #[trigger] pred(c) == (c.task != task),
                kept@ == self.claims@.subrange(0, i as int).filter(pred),
                forall|a: int| 0 <= a < kept@.len() ==> exists|b: int| 0 <= b < i && #[trigger] kept@[a] == self.claims@[b],
                workers_increasing(kept@),
                kept@.len() > 0 ==> exists|b: int| 0 <= b < i && kept@.last() == self.claims@[b],
            decreases self.claims@.len() - i,
        {
            let c = self.claims[i];
            let ghost k0 = kept@;
            proof {
                let sub = self.claims@.subrange(0, i as int + 1);
                assert(sub.drop_last() =~= self.claims@.subrange(0, i as int));
                assert(sub.last() == c);
                assert(sub.filter(pred) == if pred(c) {
                    self.claims@.subrange(0, i as int).filter(pred).push(c)
                } else {
                    self.claims@.subrange(0, i as int).filter(pred)
                }) by {
                    reveal(Seq::filter);
                }
            }
            if c.task != task {
                kept.push(c);
                proof {
                    assert forall|a: int, b: int| 0 <= a < b < kept@.len() implies (#[trigger] kept@[a]).worker.bits < (#[trigger] kept@[b]).worker.bits by {
                        if b == kept@.len() - 1 {
                            let bb = choose|bb: int| 0 <= bb < i && #[trigger] k0[a] == self.claims@[bb];
                            assert(kept@[a] == k0[a]);
                        }
                    }
                }
            }
            proof {
                assert forall|a: int| 0 <= a < kept@.len() implies exists|b: int| 0 <= b < i + 1 && #[trigger] kept@[a] == self.claims@[b] by {
                    if a < k0.len() {
                        assert(kept@[a] == k0[a]);
                        let bb = choose|bb: int| 0 <= bb < i && #[trigger] k0[a] == self.claims@[bb];
                        assert(kept@[a] == self.claims@[bb]);
                    } else {
                        assert(kept@[a] == self.claims@[i as int]);
                    }
                }
                if kept@.len() > 0 {
                    let a = kept@.len() - 1;
                    let bb = choose|bb: int| 0 <= bb < i + 1 && #[trigger] kept@[a] == self.claims@[bb];
                    assert(kept@.last() == self.claims@[bb]);
                }
            }
            i = i + 1;
        }
        proof {
            assert(self.claims@.subrange(0, self.claims@.len() as int) =~= self.claims@);
        }
        self.claims = kept;
    }
}

impl Default for ReservationLedger {
    fn default() -> (r: Self)
        ensures
            r.spec_claims() == Seq::<Reservation>::empty(),
    {
        Self::new()
    }
}

/// Sums add up over concatenation.
pub proof fn lemma_sum_where_add(a: Seq<Reservation>, b: Seq<Reservation>, counts: spec_fn(Reservation) -> bool)
    ensures
        sum_where(a + b, counts) == sum_where(a, counts) + sum_where(b, counts),
    decreases b.len(),
{
    if b.len() > 0 {
        assert((a + b).drop_last() =~= a + b.drop_last());
        assert((a + b).last() == b.last());
        lemma_sum_where_add(a, b.drop_last(), counts);
    } else {
        assert(a + b =~= a);
    }
}

/// Filtering keeps a sequence whose elements all pass.
proof fn lemma_filter_keeps_all(s: Seq<Reservation>, pred: spec_fn(Reservation) -> bool)
    requires
        forall|i: int| 0 <= i < s.len() ==> pred(#[trigger] s[i]),
    ensures
        s.filter(pred) == s,
    decreases s.len(),
{
    reveal(Seq::filter);
    if s.len() > 0 {
        lemma_filter_keeps_all(s.drop_last(), pred);
        assert(s.drop_last().push(s.last()) =~= s);
    }
}

/// A successful claim adds its amount to exactly the totals it counts in:
/// any total over claims, reserved out of a source or into a sink, grows
/// by the new claim's amount when the claim counts in it, and is otherwise
/// unchanged.
pub proof fn lemma_claim_adds_to_totals(
    claims: Seq<Reservation>,
    p: int,
    reservation: Reservation,
    counts: spec_fn(Reservation) -> bool,
)
    requires
        0 <= p <= claims.len(),
    ensures
        sum_where(claims.insert(p, reservation), counts) == sum_where(claims, counts) + if counts(reservation) {
            reservation.amount as int
        } else {
            0
        },
{
    let a = claims.subrange(0, p);
    let b = claims.subrange(p, claims.len() as int);
    assert(claims =~= a + b);
    assert(claims.insert(p, reservation) =~= (a + seq![reservation]) + b);
    lemma_sum_where_add(a, b, counts);
    lemma_sum_where_add(a + seq![reservation], b, counts);
    lemma_sum_where_add(a, seq![reservation], counts);
    assert(seq![reservation].drop_last() =~= Seq::<Reservation>::empty());
    assert(sum_where(Seq::<Reservation>::empty(), counts) == 0);
    assert(sum_where(seq![reservation], counts) == if counts(reservation) {
        reservation.amount as int
    } else {
        0
    });
}

/// Releasing a worker right after its successful claim gives back the
/// ledger as it was: the claim removes nothing and the release removes
/// exactly the new claim.
pub proof fn lemma_claim_then_release_worker(claims: Seq<Reservation>, p: int, reservation: Reservation)
    requires
        0 <= p <= claims.len(),
        forall|i: int| 0 <= i < claims.len() ==> !conflicts(#[trigger] claims[i], reservation),
    ensures
        claims.insert(p, reservation).filter(|c: Reservation| c.worker != reservation.worker) == claims,
{
    let pred = |c: Reservation| c.worker != reservation.worker;
    let a = claims.subrange(0, p);
    let b = claims.subrange(p, claims.len() as int);
    assert(claims =~= a + b);
    assert(claims.insert(p, reservation) =~= a + (seq![reservation] + b));
    assert forall|i: int| 0 <= i < a.len() implies pred(#[trigger] a[i]) by {
        assert(a[i] == claims[i]);
    }
    assert forall|i: int| 0 <= i < b.len() implies pred(#[trigger] b[i]) by {
        assert(b[i] == claims[p + i]);
    }
    lemma_filter_keeps_all(a, pred);
    lemma_filter_keeps_all(b, pred);
    Seq::filter_distributes_over_add(a, seq![reservation] + b, pred);
    Seq::filter_distributes_over_add(seq![reservation], b, pred);
    assert(seq![reservation].filter(pred) =~= Seq::<Reservation>::empty()) by {
        reveal(Seq::filter);
        assert(seq![reservation].drop_last() =~= Seq::<Reservation>::empty());
        assert(Seq::<Reservation>::empty().filter(pred) =~= Seq::<Reservation>::empty());
        assert(!pred(seq![reservation].last()));
    }
    assert(Seq::<Reservation>::empty() + b =~= b);
}

} // verus!
