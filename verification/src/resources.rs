use vstd::prelude::*;

verus! {

/// The kinds of resources a colony stockpiles.
#[derive(Debug, Clone, Copy, PartialEq, Eq, Hash, Structural)]
pub enum ResourceKind {
    Wood,
    Stone,
    Food,
    Gold,
}

/// Number of resource kinds.
pub const RESOURCE_KIND_COUNT: usize = 4;

impl ResourceKind {
    pub const ALL: [ResourceKind; 4] = [
        ResourceKind::Wood,
        ResourceKind::Stone,
        ResourceKind::Food,
        ResourceKind::Gold,
    ];

    /// Position of the kind in `ALL`, which is also its exported integer value.
    pub open spec fn ordinal(self) -> int {
        match self {
            ResourceKind::Wood => 0,
            ResourceKind::Stone => 1,
            ResourceKind::Food => 2,
            ResourceKind::Gold => 3,
        }
    }

    /// The kind whose ordinal is `i`.
    pub open spec fn from_ordinal(i: int) -> ResourceKind {
        if i == 0 {
            ResourceKind::Wood
        } else if i == 1 {
            ResourceKind::Stone
        } else if i == 2 {
            ResourceKind::Food
        } else {
            ResourceKind::Gold
        }
    }

    /// The ordinal of the kind as an index.
    pub fn index(self) -> (r: usize)
        ensures
            r == self.ordinal(),
            r < RESOURCE_KIND_COUNT,
    {
        match self {
            ResourceKind::Wood => 0,
            ResourceKind::Stone => 1,
            ResourceKind::Food => 2,
            ResourceKind::Gold => 3,
        }
    }

    pub open spec fn label_text(self) -> Seq<char> {
        match self {
            ResourceKind::Wood => "Wood"@,
            ResourceKind::Stone => "Stone"@,
            ResourceKind::Food => "Food"@,
            ResourceKind::Gold => "Gold"@,
        }
    }

    pub fn label(self) -> (r: &'static str)
        ensures
            r@ == self.label_text(),
    {
        match self {
            ResourceKind::Wood => "Wood",
            ResourceKind::Stone => "Stone",
            ResourceKind::Food => "Food",
            ResourceKind::Gold => "Gold",
        }
    }

    pub open spec fn description_text(self) -> Seq<char> {
        match self {
            ResourceKind::Wood => "Flexible timber used for basic construction, repairs, and early infrastructure."@,
            ResourceKind::Stone => "Durable building material for stronger structures and long-lived foundations."@,
            ResourceKind::Food => "Essential supplies that keep colonists fed and productive."@,
            ResourceKind::Gold => "Valuable currency used for advanced construction and trade."@,
        }
    }

    pub fn description(self) -> (r: &'static str)
        ensures
            r@ == self.description_text(),
    {
        match self {
            ResourceKind::Wood => {
                "Flexible timber used for basic construction, repairs, and early infrastructure."
            },
            ResourceKind::Stone => {
                "Durable building material for stronger structures and long-lived foundations."
            },
            ResourceKind::Food => "Essential supplies that keep colonists fed and productive.",
            ResourceKind::Gold => "Valuable currency used for advanced construction and trade.",
        }
    }

    /// The integer by which the kind is exchanged with the scripting layer.
    pub fn to_godot_value(self) -> (r: i64)
        ensures
            r == self.ordinal(),
    {
        match self {
            ResourceKind::Wood => 0,
            ResourceKind::Stone => 1,
            ResourceKind::Food => 2,
            ResourceKind::Gold => 3,
        }
    }

    /// Reads a kind back from its exchanged integer; other integers are rejected.
    pub fn try_from_godot_value(value: i64) -> (r: Option<ResourceKind>)
        ensures
            r is Some <==> 0 <= value < 4,
            r matches Some(k) ==> k.ordinal() == value,
    {
        match value {
            0 => Some(ResourceKind::Wood),
            1 => Some(ResourceKind::Stone),
            2 => Some(ResourceKind::Food),
            3 => Some(ResourceKind::Gold),
            _ => None,
        }
    }
}

/// Converting a kind to its exchanged integer and back gives the kind again.
pub proof fn lemma_godot_value_round_trip(kind: ResourceKind)
    ensures
        ResourceKind::from_ordinal(kind.ordinal()) == kind,
        0 <= kind.ordinal() < 4,
{
}

/// Saturating addition of two `u32` values, as a mathematical function.
pub open spec fn sat_add_u32(a: int, b: int) -> int {
    if a + b > u32::MAX { u32::MAX as int } else { a + b }
}

/// Per-kind quantities of resources.
#[derive(Debug, Clone, Copy, PartialEq, Eq, Structural)]
pub struct ResourceAmounts {
    pub wood: u32,
    pub stone: u32,
    pub food: u32,
    pub gold: u32,
}

impl ResourceAmounts {
    /// The quantity held of one kind.
    pub open spec fn amount(self, kind: ResourceKind) -> u32 {
        match kind {
            ResourceKind::Wood => self.wood,
            ResourceKind::Stone => self.stone,
            ResourceKind::Food => self.food,
            ResourceKind::Gold => self.gold,
        }
    }

    /// The exact sum of all quantities.
    pub open spec fn sum(self) -> int {
        self.wood + self.stone + self.food + self.gold
    }

    /// The amounts with the quantity of one kind replaced.
    pub open spec fn with_amount(self, kind: ResourceKind, amount: u32) -> ResourceAmounts {
        match kind {
            ResourceKind::Wood => ResourceAmounts { wood: amount, ..self },
            ResourceKind::Stone => ResourceAmounts { stone: amount, ..self },
            ResourceKind::Food => ResourceAmounts { food: amount, ..self },
            ResourceKind::Gold => ResourceAmounts { gold: amount, ..self },
        }
    }

    pub open spec fn zero_spec() -> ResourceAmounts {
        ResourceAmounts { wood: 0, stone: 0, food: 0, gold: 0 }
    }

    pub fn new(wood: u32, stone: u32, food: u32, gold: u32) -> (r: Self)
        ensures
            r == (ResourceAmounts { wood, stone, food, gold }),
    {
        Self { wood, stone, food, gold }
    }

    pub fn zero() -> (r: Self)
        ensures
            r == Self::zero_spec(),
    {
        Self { wood: 0, stone: 0, food: 0, gold: 0 }
    }

    /// Amounts holding `amount` of one kind and nothing else.
    pub fn of(kind: ResourceKind, amount: u32) -> (r: Self)
        ensures
            r == Self::zero_spec().with_amount(kind, amount),
    {
        Self::zero().with(kind, amount)
    }

    /// A copy with the quantity of one kind replaced.
    pub fn with(self, kind: ResourceKind, amount: u32) -> (r: Self)
        ensures
            r == self.with_amount(kind, amount),
    {
        let mut amounts = self;
        amounts.set(kind, amount);
        amounts
    }

    pub fn get(self, kind: ResourceKind) -> (r: u32)
        ensures
            r == self.amount(kind),
    {
        match kind {
            ResourceKind::Wood => self.wood,
            ResourceKind::Stone => self.stone,
            ResourceKind::Food => self.food,
            ResourceKind::Gold => self.gold,
        }
    }

    /// Sum of all quantities, saturating at `u32::MAX`.
    pub fn total(self) -> (r: u32)
        ensures
            r == (if self.sum() > u32::MAX { u32::MAX as int } else { self.sum() }),
    {
        self.wood.saturating_add(self.stone).saturating_add(self.food).saturating_add(self.gold)
    }

    pub fn set(&mut self, kind: ResourceKind, amount: u32)
        ensures
            *final(self) == old(self).with_amount(kind, amount),
    {
        match kind {
            ResourceKind::Wood => self.wood = amount,
            ResourceKind::Stone => self.stone = amount,
            ResourceKind::Food => self.food = amount,
            ResourceKind::Gold => self.gold = amount,
        }
    }
}

impl Default for ResourceAmounts {
    fn default() -> (r: Self)
        ensures
            r == Self::zero_spec(),
    {
        Self::zero()
    }
}

/// Setting one kind changes that kind and leaves every other kind unchanged.
pub proof fn lemma_with_amount_frames(a: ResourceAmounts, kind: ResourceKind, v: u32, other: ResourceKind)
    ensures
        a.with_amount(kind, v).amount(kind) == v,
        other != kind ==> a.with_amount(kind, v).amount(other) == a.amount(other),
{
}

/// Overflow-safe per-kind quantities used for surface-wide totals and history.
#[derive(Debug, Clone, Copy, PartialEq, Eq, Structural)]
pub struct ResourceTotals {
    pub wood: u64,
    pub stone: u64,
    pub food: u64,
    pub gold: u64,
}

impl ResourceTotals {
    pub open spec fn amount(self, kind: ResourceKind) -> u64 {
        match kind {
            ResourceKind::Wood => self.wood,
            ResourceKind::Stone => self.stone,
            ResourceKind::Food => self.food,
            ResourceKind::Gold => self.gold,
        }
    }

    pub open spec fn zero_spec() -> ResourceTotals {
        ResourceTotals { wood: 0, stone: 0, food: 0, gold: 0 }
    }

    /// The totals after adding amounts kind by kind.
    pub open spec fn plus(self, a: ResourceAmounts) -> ResourceTotals {
        ResourceTotals {
            wood: (self.wood + a.wood) as u64,
            stone: (self.stone + a.stone) as u64,
            food: (self.food + a.food) as u64,
            gold: (self.gold + a.gold) as u64,
        }
    }

    /// Adding `a` does not overflow any kind.
    pub open spec fn can_add(self, a: ResourceAmounts) -> bool {
        &&& self.wood + a.wood <= u64::MAX
        &&& self.stone + a.stone <= u64::MAX
        &&& self.food + a.food <= u64::MAX
        &&& self.gold + a.gold <= u64::MAX
    }

    pub fn zero() -> (r: Self)
        ensures
            r == Self::zero_spec(),
    {
        Self { wood: 0, stone: 0, food: 0, gold: 0 }
    }

    pub fn get(self, kind: ResourceKind) -> (r: u64)
        ensures
            r == self.amount(kind),
    {
        match kind {
            ResourceKind::Wood => self.wood,
            ResourceKind::Stone => self.stone,
            ResourceKind::Food => self.food,
            ResourceKind::Gold => self.gold,
        }
    }

    /// Adds every kind of `amounts` to the totals.
    pub fn add_amounts(&mut self, amounts: ResourceAmounts)
        requires
            old(self).can_add(amounts),
        ensures
            *final(self) == old(self).plus(amounts),
    {
        self.wood = self.wood + amounts.wood as u64;
        self.stone = self.stone + amounts.stone as u64;
        self.food = self.food + amounts.food as u64;
        self.gold = self.gold + amounts.gold as u64;
    }
}

impl Default for ResourceTotals {
    fn default() -> (r: Self)
        ensures
            r == Self::zero_spec(),
    {
        Self::zero()
    }
}

/// Usable and committed resource totals of one surface.
#[derive(Debug, Clone, Copy, PartialEq, Eq, Structural)]
pub struct ResourceOverview {
    pub usable: ResourceTotals,
    pub committed: ResourceTotals,
}

impl ResourceOverview {
    pub fn usable(self) -> (r: ResourceTotals)
        ensures
            r == self.usable,
    {
        self.usable
    }

    pub fn committed(self) -> (r: ResourceTotals)
        ensures
            r == self.committed,
    {
        self.committed
    }
}

impl Default for ResourceOverview {
    fn default() -> (r: Self)
        ensures
            r.usable == ResourceTotals::zero_spec(),
            r.committed == ResourceTotals::zero_spec(),
    {
        Self { usable: ResourceTotals::zero(), committed: ResourceTotals::zero() }
    }
}

/// What one entity of a surface holds that counts toward the resource overview.
#[derive(Debug, Clone, Copy, PartialEq, Eq, Structural)]
pub struct EntityStock {
    /// Contents of the entity's NPC inventory, if it has one.
    pub npc_inventory: Option<ResourceAmounts>,
    /// Contents of the entity's warehouse or depot inventory, if it has one.
    pub warehouse_inventory: Option<ResourceAmounts>,
    /// Contents of the entity's farm inventory, if it has one.
    pub farm_inventory: Option<ResourceAmounts>,
    /// Contents of the entity's forester lodge inventory, if it has one.
    pub lodge_inventory: Option<ResourceAmounts>,
    /// For a blueprint with construction progress: its construction cost and
    /// what has been deposited so far.
    pub blueprint: Option<BlueprintDeposit>,
}

/// Construction cost of a blueprint and the resources deposited on it.
#[derive(Debug, Clone, Copy, PartialEq, Eq, Structural)]
pub struct BlueprintDeposit {
    pub cost: ResourceAmounts,
    pub deposited: ResourceAmounts,
}

/// Amounts held in an optional inventory.
pub open spec fn held(inv: Option<ResourceAmounts>) -> ResourceAmounts {
    match inv {
        Some(a) => a,
        None => ResourceAmounts::zero_spec(),
    }
}

/// Whether every kind of the cost has been deposited.
pub open spec fn deposits_cover(cost: ResourceAmounts, deposited: ResourceAmounts) -> bool {
    forall|k: ResourceKind| #[trigger] deposited.amount(k) >= cost.amount(k)
}

/// Amounts an entity adds to the usable totals, summed over its inventories.
pub open spec fn entity_usable(e: EntityStock, kind: ResourceKind) -> int {
    held(e.npc_inventory).amount(kind) + held(e.warehouse_inventory).amount(kind)
        + held(e.farm_inventory).amount(kind) + held(e.lodge_inventory).amount(kind)
}

/// Amounts an entity commits: deposits on a blueprint that is not yet complete.
pub open spec fn entity_committed(e: EntityStock, kind: ResourceKind) -> int {
    match e.blueprint {
        Some(b) => if deposits_cover(b.cost, b.deposited) {
            0
        } else {
            b.deposited.amount(kind) as int
        },
        None => 0,
    }
}

/// Usable quantity of a kind over the first `n` entities.
pub open spec fn usable_sum(entities: Seq<EntityStock>, kind: ResourceKind, n: int) -> int
    decreases n,
{
    if n <= 0 {
        0
    } else {
        usable_sum(entities, kind, n - 1) + entity_usable(entities[n - 1], kind)
    }
}

/// Committed quantity of a kind over the first `n` entities.
pub open spec fn committed_sum(entities: Seq<EntityStock>, kind: ResourceKind, n: int) -> int
    decreases n,
{
    if n <= 0 {
        0
    } else {
        committed_sum(entities, kind, n - 1) + entity_committed(entities[n - 1], kind)
    }
}

/// Upper bound of the two running sums.
proof fn lemma_sums_bounded(entities: Seq<EntityStock>, kind: ResourceKind, n: int)
    requires
        0 <= n <= entities.len(),
    ensures
        0 <= usable_sum(entities, kind, n) <= n * 4 * (u32::MAX as int),
        0 <= committed_sum(entities, kind, n) <= n * (u32::MAX as int),
    decreases n,
{
    if n > 0 {
        lemma_sums_bounded(entities, kind, n - 1);
    }
}

/// Totals of live surface resources. Usable resources are those in NPC,
/// warehouse, farm and forester lodge inventories; committed resources are
/// deposits on blueprints whose construction is not complete. Entities with
/// none of these (such as natural resource nodes) count for nothing.
pub fn resource_overview(entities: &[EntityStock]) -> (r: ResourceOverview)
    requires
        entities@.len() < 0x4000_0000,
    ensures
        forall|k: ResourceKind|
            #[trigger] r.usable.amount(k) == usable_sum(entities@, k, entities@.len() as int),
        forall|k: ResourceKind|
            #[trigger] r.committed.amount(k) == committed_sum(
                entities@,
                k,
                entities@.len() as int,
            ),
{
    let mut overview = ResourceOverview::default();
    let mut i: usize = 0;
    while i < entities.len()
        invariant
            0 <= i <= entities@.len() < 0x4000_0000,
            forall|k: ResourceKind|
                #[trigger] overview.usable.amount(k) == usable_sum(entities@, k, i as int),
            forall|k: ResourceKind|
                #[trigger] overview.committed.amount(k) == committed_sum(entities@, k, i as int),
        decreases entities@.len() - i,
    {
        let e = entities[i];
        proof {
            lemma_sums_bounded(entities@, ResourceKind::Wood, i + 1);
            lemma_sums_bounded(entities@, ResourceKind::Stone, i + 1);
            lemma_sums_bounded(entities@, ResourceKind::Food, i + 1);
            lemma_sums_bounded(entities@, ResourceKind::Gold, i + 1);
            assert((i + 1) * 4 * (u32::MAX as int) <= u64::MAX) by (nonlinear_arith)
                requires
                    i + 1 <= 0x4000_0000,
            ;
        }
        let mut delta = ResourceTotals::zero();
        if let Some(a) = e.npc_inventory {
            delta.add_amounts(a);
        }
        if let Some(a) = e.warehouse_inventory {
            delta.add_amounts(a);
        }
        if let Some(a) = e.farm_inventory {
            delta.add_amounts(a);
        }
        if let Some(a) = e.lodge_inventory {
            delta.add_amounts(a);
        }
        assert(forall|k: ResourceKind| #[trigger] delta.amount(k) == entity_usable(e, k));
        overview.usable = add_totals(overview.usable, delta);
        assert(forall|k: ResourceKind|
            #[trigger] committed_sum(entities@, k, i + 1) == committed_sum(entities@, k, i as int)
                + entity_committed(e, k));
        assert(forall|k: ResourceKind|
            #[trigger] overview.committed.amount(k) <= i * (u32::MAX as int)) by {
            assert forall|k: ResourceKind| #[trigger]
                overview.committed.amount(k) <= i * (u32::MAX as int) by {
                lemma_sums_bounded(entities@, k, i as int);
            }
        }
        if let Some(b) = e.blueprint {
            if !is_complete_deposit(b.cost, b.deposited) {
                assert(overview.committed.amount(ResourceKind::Wood) <= i * (u32::MAX as int));
                assert(overview.committed.amount(ResourceKind::Stone) <= i * (u32::MAX as int));
                assert(overview.committed.amount(ResourceKind::Food) <= i * (u32::MAX as int));
                assert(overview.committed.amount(ResourceKind::Gold) <= i * (u32::MAX as int));
                assert(i * (u32::MAX as int) + u32::MAX <= u64::MAX) by (nonlinear_arith)
                    requires
                        i < 0x4000_0000,
                ;
                overview.committed.add_amounts(b.deposited);
            }
        }
        i = i + 1;
    }
    overview
}

/// Kind-by-kind sum of two totals that do not overflow.
fn add_totals(a: ResourceTotals, b: ResourceTotals) -> (r: ResourceTotals)
    requires
        forall|k: ResourceKind| a.amount(k) + b.amount(k) <= u64::MAX,
    ensures
        forall|k: ResourceKind| #[trigger] r.amount(k) == a.amount(k) + b.amount(k),
{
    assert(a.amount(ResourceKind::Wood) + b.amount(ResourceKind::Wood) <= u64::MAX);
    assert(a.amount(ResourceKind::Stone) + b.amount(ResourceKind::Stone) <= u64::MAX);
    assert(a.amount(ResourceKind::Food) + b.amount(ResourceKind::Food) <= u64::MAX);
    assert(a.amount(ResourceKind::Gold) + b.amount(ResourceKind::Gold) <= u64::MAX);
    ResourceTotals {
        wood: a.wood + b.wood,
        stone: a.stone + b.stone,
        food: a.food + b.food,
        gold: a.gold + b.gold,
    }
}

/// Whether every kind of a cost has been deposited.
pub fn is_complete_deposit(cost: ResourceAmounts, deposited: ResourceAmounts) -> (r: bool)
    ensures
        r == deposits_cover(cost, deposited),
{
    let r = deposited.wood >= cost.wood && deposited.stone >= cost.stone && deposited.food
        >= cost.food && deposited.gold >= cost.gold;
    proof {
        if r {
            assert forall|k: ResourceKind| #[trigger] deposited.amount(k) >= cost.amount(k) by {
                match k {
                    ResourceKind::Wood => {},
                    ResourceKind::Stone => {},
                    ResourceKind::Food => {},
                    ResourceKind::Gold => {},
                }
            }
        } else {
            if deposited.wood < cost.wood {
                assert(deposited.amount(ResourceKind::Wood) < cost.amount(ResourceKind::Wood));
            } else if deposited.stone < cost.stone {
                assert(deposited.amount(ResourceKind::Stone) < cost.amount(ResourceKind::Stone));
            } else if deposited.food < cost.food {
                assert(deposited.amount(ResourceKind::Food) < cost.amount(ResourceKind::Food));
            } else {
                assert(deposited.amount(ResourceKind::Gold) < cost.amount(ResourceKind::Gold));
            }
        }
    }
    r
}

/// Usable resource totals recorded for one day.
#[derive(Debug, Clone, Copy, PartialEq, Eq, Structural)]
pub struct DailyResourceSample {
    pub day: u64,
    pub usable: ResourceTotals,
}

impl DailyResourceSample {
    pub fn new(day: u64, usable: ResourceTotals) -> (r: Self)
        ensures
            r == (DailyResourceSample { day, usable }),
    {
        Self { day, usable }
    }

    pub fn day(self) -> (r: u64)
        ensures
            r == self.day,
    {
        self.day
    }

    pub fn usable(self) -> (r: ResourceTotals)
        ensures
            r == self.usable,
    {
        self.usable
    }

    pub fn quantity(self, kind: ResourceKind) -> (r: u64)
        ensures
            r == self.usable.amount(kind),
    {
        self.usable.get(kind)
    }
}

/// Days of a sample list are strictly increasing.
pub open spec fn days_strictly_increasing(samples: Seq<DailyResourceSample>) -> bool {
    forall|i: int, j: int| 0 <= i < j < samples.len() ==> samples[i].day < samples[j].day
}

/// The sample recorded on `day`, if any.
pub open spec fn sample_for_day(samples: Seq<DailyResourceSample>, day: u64) -> Option<
    DailyResourceSample,
> {
    if exists|i: int| 0 <= i < samples.len() && samples[i].day == day {
        Some(samples[choose|i: int| 0 <= i < samples.len() && samples[i].day == day])
    } else {
        None
    }
}

/// Per-day history of usable resource totals, one immutable sample per day.
#[derive(Debug, Clone, PartialEq, Eq)]
pub struct ResourceHistory {
    samples: Vec<DailyResourceSample>,
}

impl ResourceHistory {
    /// The recorded samples, oldest first.
    pub closed spec fn history(&self) -> Seq<DailyResourceSample> {
        self.samples@
    }

    /// Recorded days are strictly increasing.
    pub open spec fn wf(&self) -> bool {
        days_strictly_increasing(self.history())
    }

    /// A history holding only the sample of the day it was created.
    pub fn new(initial_day: u64, initial_usable: ResourceTotals) -> (r: Self)
        ensures
            r.history() == seq![DailyResourceSample { day: initial_day, usable: initial_usable }],
            r.wf(),
    {
        let mut samples = Vec::new();
        samples.push(DailyResourceSample::new(initial_day, initial_usable));
        Self { samples }
    }

    pub fn samples(&self) -> (r: &[DailyResourceSample])
        ensures
            r@ == self.history(),
    {
        self.samples.as_slice()
    }

    /// Records a sample unless the latest one is for the same or a later day.
    pub fn record_day(&mut self, day: u64, usable: ResourceTotals) -> (r: bool)
        ensures
            r == (old(self).history().len() == 0 || old(self).history().last().day < day),
            old(self).wf() ==> final(self).wf(),
            r ==> final(self).history() == old(self).history().push(
                DailyResourceSample { day, usable },
            ),
            !r ==> final(self).history() == old(self).history(),
    {
        if self.samples.len() > 0 && self.samples[self.samples.len() - 1].day >= day {
            return false;
        }
        let ghost before = self.samples@;
        self.samples.push(DailyResourceSample::new(day, usable));
        proof {
            assert(days_strictly_increasing(before) ==> days_strictly_increasing(self.samples@)) by {
                assert forall|i: int, j: int|
                    days_strictly_increasing(before) && 0 <= i < j < self.samples@.len() implies self.samples@[i].day
                    < self.samples@[j].day by {
                    if j == before.len() && i < before.len() - 1 {
                        assert(before[i].day < before[before.len() - 1].day);
                    }
                }
            }
        }
        true
    }

    /// The sample recorded on exactly `day`.
    pub fn sample_on(&self, day: u64) -> (r: Option<DailyResourceSample>)
        requires
            self.wf(),
        ensures
            r == sample_for_day(self.history(), day),
    {
        let mut lo: usize = 0;
        let mut hi: usize = self.samples.len();
        while lo < hi
            invariant
                0 <= lo <= hi <= self.samples@.len(),
                days_strictly_increasing(self.samples@),
                forall|i: int| 0 <= i < lo ==> #[trigger] self.samples@[i].day < day,
                forall|i: int| hi <= i < self.samples@.len() ==> #[trigger] self.samples@[i].day > day,
            decreases hi - lo,
        {
            let mid = lo + (hi - lo) / 2;
            let d = self.samples[mid].day;
            if d == day {
                let found = self.samples[mid];
                proof {
                    assert(exists|i: int| 0 <= i < self.samples@.len() && self.samples@[i].day == day);
                    let c = choose|i: int| 0 <= i < self.samples@.len() && self.samples@[i].day == day;
                    if c < mid {
                        assert(self.samples@[c].day < self.samples@[mid as int].day);
                    }
                    if c > mid {
                        assert(self.samples@[mid as int].day < self.samples@[c].day);
                    }
                }
                return Some(found);
            } else if d < day {
                proof {
                    assert forall|i: int| 0 <= i < mid + 1 implies #[trigger] self.samples@[i].day < day by {
                        if i < mid {
                            assert(self.samples@[i].day < self.samples@[mid as int].day);
                        }
                    }
                }
                lo = mid + 1;
            } else {
                proof {
                    assert forall|i: int| mid <= i < self.samples@.len() implies #[trigger] self.samples@[i].day > day by {
                        if i > mid {
                            assert(self.samples@[mid as int].day < self.samples@[i].day);
                        }
                    }
                }
                hi = mid;
            }
        }
        proof {
            assert(!exists|i: int| 0 <= i < self.samples@.len() && self.samples@[i].day == day);
        }
        None
    }

    /// Change of a quantity since the sample taken exactly `lookback_days`
    /// before `current_day`; `None` when that day precedes day zero or was not
    /// recorded.
    pub fn change_since(
        &self,
        current_day: u64,
        lookback_days: u64,
        kind: ResourceKind,
        current_quantity: u64,
    ) -> (r: Option<i128>)
        requires
            self.wf(),
        ensures
            r == (if current_day < lookback_days {
                None
            } else {
                match sample_for_day(self.history(), (current_day - lookback_days) as u64) {
                    Some(s) => Some((current_quantity - s.usable.amount(kind)) as i128),
                    None => None,
                }
            }),
    {
        let target_day = match current_day.checked_sub(lookback_days) {
            Some(d) => d,
            None => return None,
        };
        match self.sample_on(target_day) {
            Some(sample) => {
                let baseline = sample.quantity(kind);
                Some(current_quantity as i128 - baseline as i128)
            },
            None => None,
        }
    }
}

/// A bounded store of resources of every kind.
#[derive(Debug, Clone, Copy, PartialEq, Eq)]
pub struct ResourceInventory {
    contents: ResourceAmounts,
    max_size: u32,
}

/// Saturating sum of amounts.
pub open spec fn saturated_total(a: ResourceAmounts) -> int {
    if a.sum() > u32::MAX { u32::MAX as int } else { a.sum() }
}

impl ResourceInventory {
    pub closed spec fn spec_contents(self) -> ResourceAmounts {
        self.contents
    }

    pub closed spec fn spec_max_size(self) -> u32 {
        self.max_size
    }

    /// The inventory holds no more than its maximum size.
    pub open spec fn wf(self) -> bool {
        saturated_total(self.spec_contents()) <= self.spec_max_size()
    }

    /// Space left: maximum size minus used size, or zero.
    pub open spec fn spec_free_size(self) -> int {
        let used = saturated_total(self.spec_contents());
        if used >= self.spec_max_size() { 0 } else { self.spec_max_size() - used }
    }

    pub fn empty(max_size: u32) -> (r: Self)
        ensures
            r.spec_contents() == ResourceAmounts::zero_spec(),
            r.spec_max_size() == max_size,
            r.wf(),
    {
        Self::new(ResourceAmounts::zero(), max_size)
    }

    pub fn new(contents: ResourceAmounts, max_size: u32) -> (r: Self)
        requires
            saturated_total(contents) <= max_size,
        ensures
            r.spec_contents() == contents,
            r.spec_max_size() == max_size,
            r.wf(),
    {
        Self { contents, max_size }
    }

    pub fn contents(self) -> (r: ResourceAmounts)
        ensures
            r == self.spec_contents(),
    {
        self.contents
    }

    pub fn max_size(self) -> (r: u32)
        ensures
            r == self.spec_max_size(),
    {
        self.max_size
    }

    pub fn used_size(self) -> (r: u32)
        ensures
            r == saturated_total(self.spec_contents()),
    {
        self.contents.total()
    }

    pub fn free_size(self) -> (r: u32)
        ensures
            r == self.spec_free_size(),
    {
        self.max_size.saturating_sub(self.used_size())
    }

    /// Removes `amount` of a kind if that much is held; otherwise changes nothing.
    pub fn consume(&mut self, kind: ResourceKind, amount: u32) -> (r: bool)
        ensures
            r == (amount <= old(self).spec_contents().amount(kind)),
            r ==> final(self).spec_contents() == old(self).spec_contents().with_amount(
                kind,
                (old(self).spec_contents().amount(kind) - amount) as u32,
            ),
            !r ==> final(self).spec_contents() == old(self).spec_contents(),
            !r ==> *final(self) == *old(self),
            final(self).spec_max_size() == old(self).spec_max_size(),
            old(self).wf() ==> final(self).wf(),
    {
        let available = self.contents.get(kind);
        if available < amount {
            return false;
        }
        self.contents.set(kind, available - amount);
        true
    }

    /// Adds `amount` of a kind if it fits in the free space and the kind's
    /// quantity does not overflow; otherwise changes nothing.
    pub fn add(&mut self, kind: ResourceKind, amount: u32) -> (r: bool)
        ensures
            r == (old(self).spec_contents().amount(kind) + amount <= u32::MAX && amount
                <= old(self).spec_free_size()),
            r ==> final(self).spec_contents() == old(self).spec_contents().with_amount(
                kind,
                (old(self).spec_contents().amount(kind) + amount) as u32,
            ),
            !r ==> final(self).spec_contents() == old(self).spec_contents(),
            !r ==> *final(self) == *old(self),
            final(self).spec_max_size() == old(self).spec_max_size(),
            old(self).wf() ==> final(self).wf(),
    {
        let available = self.contents.get(kind);
        let new_amount = match available.checked_add(amount) {
            Some(n) => n,
            None => return false,
        };
        if amount > self.free_size() {
            return false;
        }
        self.contents.set(kind, new_amount);
        true
    }
}

} // verus!
