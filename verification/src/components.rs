use crate::entity::EntityId;
use crate::grid::CellCoord;
use crate::resources::{saturated_total, ResourceAmounts, ResourceInventory, ResourceKind};
use crate::time::SIMULATION_TICKS_PER_DAY;
use vstd::prelude::*;

verus! {

pub const SUBTILE_UNITS_PER_TILE: i32 = 1024;

pub const HALF_SUBTILE_UNITS_PER_TILE: i32 = 512;

pub const DEFAULT_MAX_VELOCITY_UNITS_PER_TICK: u32 = 16;

pub const DEFAULT_NPC_INVENTORY_MAX_SIZE: u32 = 100;

pub const FOOD_POUCH_CAPACITY: u32 = 100;

pub const CARRIED_RESOURCE_CAPACITY: u32 = 5;

pub const NPC_HUNGER_HUNGRY_THRESHOLD: u32 = SIMULATION_TICKS_PER_DAY;

pub const NPC_HUNGER_FULL_SATIATION: u32 = 2 * SIMULATION_TICKS_PER_DAY;

pub const WHEELBARROW_CAPACITY: u32 = 25;

/// The cell a tile entity stands for.
#[derive(Debug, Clone, Copy, PartialEq, Eq, Structural)]
pub struct TilePosition {
    pub coord: CellCoord,
}

/// Marker of tile entities.
#[derive(Debug, Clone, Copy, PartialEq, Eq, Structural)]
pub struct Tile;

#[derive(Debug, Clone, Copy, PartialEq, Eq, Structural)]
pub struct Terrain {
    pub kind: TerrainKind,
}

impl Terrain {
    pub fn new(kind: TerrainKind) -> (r: Self)
        ensures
            r.kind == kind,
    {
        Self { kind }
    }
}

#[derive(Debug, Clone, Copy, PartialEq, Eq, Hash, Structural)]
pub enum TerrainKind {
    Grass,
    Sand,
    Dirt,
    Water,
}

impl TerrainKind {
    pub const ALL: [TerrainKind; 4] = [
        TerrainKind::Grass,
        TerrainKind::Sand,
        TerrainKind::Dirt,
        TerrainKind::Water,
    ];

    pub open spec fn label_text(self) -> Seq<char> {
        match self {
            TerrainKind::Grass => "Grass"@,
            TerrainKind::Sand => "Sand"@,
            TerrainKind::Dirt => "Dirt"@,
            TerrainKind::Water => "Water"@,
        }
    }

    pub fn label(self) -> (r: &'static str)
        ensures
            r@ == self.label_text(),
    {
        match self {
            TerrainKind::Grass => "Grass",
            TerrainKind::Sand => "Sand",
            TerrainKind::Dirt => "Dirt",
            TerrainKind::Water => "Water",
        }
    }

    /// The integer by which the kind is exchanged with the scripting layer.
    pub fn to_value(self) -> (r: i32)
        ensures
            r == (match self {
                TerrainKind::Grass => 0int,
                TerrainKind::Sand => 1,
                TerrainKind::Dirt => 2,
                TerrainKind::Water => 3,
            }),
    {
        match self {
            TerrainKind::Grass => 0,
            TerrainKind::Sand => 1,
            TerrainKind::Dirt => 2,
            TerrainKind::Water => 3,
        }
    }
}

impl Default for TerrainKind {
    fn default() -> (r: Self)
        ensures
            r == TerrainKind::Grass,
    {
        TerrainKind::Grass
    }
}

/// A natural deposit of one resource kind on a tile.
#[derive(Debug, Clone, Copy, PartialEq, Eq, Structural)]
pub struct ResourceNode {
    pub kind: ResourceKind,
    pub quantity: u32,
}

/// Marker of NPC entities.
#[derive(Debug, Clone, Copy, PartialEq, Eq, Structural)]
pub struct Npc;

#[derive(Debug, Clone, Copy, PartialEq, Eq, Hash, Structural)]
pub enum NpcAppearance {
    Colonist,
    Engineer,
    Botanist,
    Miner,
    Scout,
}

impl NpcAppearance {
    pub const ALL: [NpcAppearance; 5] = [
        NpcAppearance::Colonist,
        NpcAppearance::Engineer,
        NpcAppearance::Botanist,
        NpcAppearance::Miner,
        NpcAppearance::Scout,
    ];
}

impl Default for NpcAppearance {
    fn default() -> (r: Self)
        ensures
            r == NpcAppearance::Colonist,
    {
        NpcAppearance::Colonist
    }
}

#[derive(Debug, Clone, Copy, PartialEq, Eq, Structural)]
pub enum HungerState {
    Fed,
    Hungry,
    Starving,
}

impl HungerState {
    pub open spec fn label_text(self) -> Seq<char> {
        match self {
            HungerState::Fed => "Fed"@,
            HungerState::Hungry => "Hungry"@,
            HungerState::Starving => "Starving"@,
        }
    }

    pub fn label(self) -> (r: &'static str)
        ensures
            r@ == self.label_text(),
    {
        match self {
            HungerState::Fed => "Fed",
            HungerState::Hungry => "Hungry",
            HungerState::Starving => "Starving",
        }
    }
}

/// Display name of an NPC.
#[derive(Debug, Clone, PartialEq, Eq)]
pub struct NpcName {
    value: String,
}

impl NpcName {
    pub closed spec fn text(&self) -> Seq<char> {
        self.value@
    }

    pub fn new(value: &str) -> (r: Self)
        ensures
            r.text() == value@,
    {
        Self { value: value.to_owned() }
    }

    pub fn as_str(&self) -> (r: &str)
        ensures
            r@ == self.text(),
    {
        self.value.as_str()
    }
}

/// Elapsed simulated time, in whole seconds and the nanoseconds beyond them.
#[derive(Debug, Clone, Copy, PartialEq, Eq, Structural)]
pub struct SimDuration {
    pub secs: u64,
    pub nanos: u32,
}

/// Nanoseconds in one second.
pub const NANOS_PER_SEC: u32 = 1_000_000_000;

impl SimDuration {
    /// The duration in nanoseconds.
    pub open spec fn total_nanos(self) -> int {
        self.secs * (NANOS_PER_SEC as int) + self.nanos
    }

    /// Nanoseconds are below one second.
    pub open spec fn wf(self) -> bool {
        self.nanos < NANOS_PER_SEC
    }

    pub open spec fn max_spec() -> SimDuration {
        SimDuration { secs: u64::MAX, nanos: (NANOS_PER_SEC - 1) as u32 }
    }

    pub fn zero() -> (r: Self)
        ensures
            r.secs == 0,
            r.nanos == 0,
    {
        Self { secs: 0, nanos: 0 }
    }

    pub fn from_secs(secs: u64) -> (r: Self)
        ensures
            r.secs == secs,
            r.nanos == 0,
    {
        Self { secs, nanos: 0 }
    }

    /// The largest representable duration.
    pub fn max() -> (r: Self)
        ensures
            r == Self::max_spec(),
    {
        Self { secs: u64::MAX, nanos: NANOS_PER_SEC - 1 }
    }

    pub fn as_secs(self) -> (r: u64)
        ensures
            r == self.secs,
    {
        self.secs
    }

    /// The sum, or `None` if its seconds overflow.
    pub fn checked_add(self, other: Self) -> (r: Option<Self>)
        requires
            self.wf(),
            other.wf(),
        ensures
            r is Some <==> self.total_nanos() + other.total_nanos() <= Self::max_spec().total_nanos(),
            r matches Some(d) ==> d.wf() && d.total_nanos() == self.total_nanos() + other.total_nanos(),
    {
        let carry: u64 = if self.nanos as u64 + other.nanos as u64 >= NANOS_PER_SEC as u64 { 1 } else { 0 };
        let nanos: u32 = if carry == 1 {
            (self.nanos as u64 + other.nanos as u64 - NANOS_PER_SEC as u64) as u32
        } else {
            self.nanos + other.nanos
        };
        match self.secs.checked_add(other.secs) {
            Some(s) => match s.checked_add(carry) {
                Some(secs) => Some(Self { secs, nanos }),
                None => None,
            },
            None => None,
        }
    }

    /// The difference, or `None` if `other` is longer.
    pub fn checked_sub(self, other: Self) -> (r: Option<Self>)
        requires
            self.wf(),
            other.wf(),
        ensures
            r is Some <==> other.total_nanos() <= self.total_nanos(),
            r matches Some(d) ==> d.wf() && d.total_nanos() == self.total_nanos() - other.total_nanos(),
    {
        if self.secs < other.secs || (self.secs == other.secs && self.nanos < other.nanos) {
            return None;
        }
        if self.nanos >= other.nanos {
            Some(Self { secs: self.secs - other.secs, nanos: self.nanos - other.nanos })
        } else {
            Some(Self { secs: self.secs - other.secs - 1, nanos: NANOS_PER_SEC - other.nanos + self.nanos })
        }
    }
}

/// Moment of an NPC's birth, as time since the world epoch.
#[derive(Debug, Clone, Copy, PartialEq, Eq, Structural)]
pub struct BirthDate {
    pub elapsed_since_world_epoch: SimDuration,
}

impl BirthDate {
    pub fn new(elapsed_since_world_epoch: SimDuration) -> (r: Self)
        ensures
            r.elapsed_since_world_epoch == elapsed_since_world_epoch,
    {
        Self { elapsed_since_world_epoch }
    }

    pub fn elapsed_since_world_epoch(self) -> (r: SimDuration)
        ensures
            r == self.elapsed_since_world_epoch,
    {
        self.elapsed_since_world_epoch
    }
}

/// Where an NPC stands: a cell plus an offset in sub-tile units from its centre.
#[derive(Debug, Clone, Copy, PartialEq, Eq, Structural)]
pub struct NpcPosition {
    pub coord: CellCoord,
    pub subtile_offset: SubtileOffset,
}

impl NpcPosition {
    pub fn new(coord: CellCoord) -> (r: Self)
        ensures
            r.coord == coord,
            r.subtile_offset == SubtileOffset::zero_spec(),
    {
        Self { coord, subtile_offset: SubtileOffset::zero() }
    }
}

#[derive(Debug, Clone, Copy, PartialEq, Eq, Structural)]
pub struct SubtileOffset {
    pub x_units: i32,
    pub y_units: i32,
}

impl SubtileOffset {
    pub open spec fn zero_spec() -> SubtileOffset {
        SubtileOffset { x_units: 0, y_units: 0 }
    }

    pub fn zero() -> (r: Self)
        ensures
            r == Self::zero_spec(),
    {
        Self { x_units: 0, y_units: 0 }
    }

    pub fn new(x_units: i32, y_units: i32) -> (r: Self)
        ensures
            r.x_units == x_units,
            r.y_units == y_units,
    {
        Self { x_units, y_units }
    }
}

impl Default for SubtileOffset {
    fn default() -> (r: Self)
        ensures
            r == Self::zero_spec(),
    {
        Self::zero()
    }
}

#[derive(Debug, Clone, Copy, PartialEq, Eq, Structural)]
pub struct Velocity {
    pub x_units_per_tick: i32,
    pub y_units_per_tick: i32,
}

impl Velocity {
    pub open spec fn zero_spec() -> Velocity {
        Velocity { x_units_per_tick: 0, y_units_per_tick: 0 }
    }

    pub fn zero() -> (r: Self)
        ensures
            r == Self::zero_spec(),
    {
        Self { x_units_per_tick: 0, y_units_per_tick: 0 }
    }

    pub fn new(x_units_per_tick: i32, y_units_per_tick: i32) -> (r: Self)
        ensures
            r.x_units_per_tick == x_units_per_tick,
            r.y_units_per_tick == y_units_per_tick,
    {
        Self { x_units_per_tick, y_units_per_tick }
    }

    pub fn is_zero(self) -> (r: bool)
        ensures
            r == (self.x_units_per_tick == 0 && self.y_units_per_tick == 0),
    {
        self.x_units_per_tick == 0 && self.y_units_per_tick == 0
    }
}

impl Default for Velocity {
    fn default() -> (r: Self)
        ensures
            r == Self::zero_spec(),
    {
        Self::zero()
    }
}

#[derive(Debug, Clone, Copy, PartialEq, Eq, Structural)]
pub struct MaxVelocity {
    pub units_per_tick: u32,
}

impl MaxVelocity {
    pub fn new(units_per_tick: u32) -> (r: Self)
        ensures
            r.units_per_tick == units_per_tick,
    {
        Self { units_per_tick }
    }
}

impl Default for MaxVelocity {
    fn default() -> (r: Self)
        ensures
            r.units_per_tick == DEFAULT_MAX_VELOCITY_UNITS_PER_TICK,
    {
        Self::new(DEFAULT_MAX_VELOCITY_UNITS_PER_TICK)
    }
}

#[derive(Debug, Clone, Copy, PartialEq, Eq, Structural)]
pub struct MovementTarget {
    pub coord: CellCoord,
}

impl MovementTarget {
    pub fn new(coord: CellCoord) -> (r: Self)
        ensures
            r.coord == coord,
    {
        Self { coord }
    }
}

/// Goal of keeping food carried between a refill threshold and a target.
#[derive(Debug, Clone, Copy, PartialEq, Eq)]
pub struct AiKeepEnoughFoodInInventory {
    start_threshold: u32,
    target: u32,
}

impl AiKeepEnoughFoodInInventory {
    pub closed spec fn spec_start_threshold(self) -> u32 {
        self.start_threshold
    }

    pub closed spec fn spec_target(self) -> u32 {
        self.target
    }

    pub fn new(start_threshold: u32, target: u32) -> (r: Self)
        requires
            start_threshold <= target,
        ensures
            r.spec_start_threshold() == start_threshold,
            r.spec_target() == target,
    {
        Self { start_threshold, target }
    }

    pub fn start_threshold(self) -> (r: u32)
        ensures
            r == self.spec_start_threshold(),
    {
        self.start_threshold
    }

    pub fn target(self) -> (r: u32)
        ensures
            r == self.spec_target(),
    {
        self.target
    }
}

/// Marker of an NPC searching for food.
#[derive(Debug, Clone, Copy, PartialEq, Eq, Structural)]
pub struct AiSearchForFood;

/// Work of delivering resources to a blueprint.
#[derive(Debug, Clone, Copy, PartialEq, Eq, Structural)]
pub struct AiConstructBuilding {
    pub blueprint: EntityId,
    pub target_kind: Option<ResourceKind>,
}

impl AiConstructBuilding {
    pub fn new(blueprint: EntityId) -> (r: Self)
        ensures
            r.blueprint == blueprint,
            r.target_kind is None,
    {
        Self { blueprint, target_kind: None }
    }

    pub fn blueprint(self) -> (r: EntityId)
        ensures
            r == self.blueprint,
    {
        self.blueprint
    }

    pub fn target_kind(self) -> (r: Option<ResourceKind>)
        ensures
            r == self.target_kind,
    {
        self.target_kind
    }

    pub fn set_target_kind(&mut self, target_kind: ResourceKind)
        ensures
            final(self).blueprint == old(self).blueprint,
            final(self).target_kind == Some(target_kind),
    {
        self.target_kind = Some(target_kind);
    }

    pub fn clear_target_kind(&mut self)
        ensures
            final(self).blueprint == old(self).blueprint,
            final(self).target_kind is None,
    {
        self.target_kind = None;
    }
}

/// Idle wandering around an origin cell; for an NPC with a home, around
/// its house, remembering which house and bed slot it roams for.
#[derive(Debug, Clone, Copy, PartialEq, Eq, Structural)]
pub struct AiIdleRoam {
    pub origin: CellCoord,
    pub dwell_ticks_remaining: u32,
    pub next_offset_index: usize,
    pub house: Option<EntityId>,
    pub house_slot: Option<usize>,
}

impl AiIdleRoam {
    pub fn new(origin: CellCoord, dwell_ticks_remaining: u32) -> (r: Self)
        ensures
            r.origin == origin,
            r.dwell_ticks_remaining == dwell_ticks_remaining,
            r.next_offset_index == 0,
            r.house is None,
            r.house_slot is None,
    {
        Self { origin, dwell_ticks_remaining, next_offset_index: 0, house: None, house_slot: None }
    }

    /// Roaming around a house for the NPC in bed slot `slot`.
    pub fn around_house(
        origin: CellCoord,
        house: EntityId,
        slot: usize,
        dwell_ticks_remaining: u32,
        next_offset_index: usize,
    ) -> (r: Self)
        ensures
            r == (AiIdleRoam {
                origin,
                dwell_ticks_remaining,
                next_offset_index,
                house: Some(house),
                house_slot: Some(slot),
            }),
    {
        Self { origin, dwell_ticks_remaining, next_offset_index, house: Some(house), house_slot: Some(slot) }
    }

    pub fn origin(self) -> (r: CellCoord)
        ensures
            r == self.origin,
    {
        self.origin
    }

    pub fn dwell_ticks_remaining(self) -> (r: u32)
        ensures
            r == self.dwell_ticks_remaining,
    {
        self.dwell_ticks_remaining
    }

    pub fn next_offset_index(self) -> (r: usize)
        ensures
            r == self.next_offset_index,
    {
        self.next_offset_index
    }

    pub fn house(self) -> (r: Option<EntityId>)
        ensures
            r == self.house,
    {
        self.house
    }

    pub fn house_slot(self) -> (r: Option<usize>)
        ensures
            r == self.house_slot,
    {
        self.house_slot
    }

    /// Counts one dwell tick down, stopping at zero.
    pub fn advance_dwell(&mut self)
        ensures
            *final(self) == (AiIdleRoam {
                dwell_ticks_remaining: if old(self).dwell_ticks_remaining == 0 {
                    0
                } else {
                    (old(self).dwell_ticks_remaining - 1) as u32
                },
                ..*old(self)
            }),
    {
        self.dwell_ticks_remaining = self.dwell_ticks_remaining.saturating_sub(1);
    }

    pub fn reset_dwell(&mut self, dwell_ticks: u32)
        ensures
            *final(self) == (AiIdleRoam { dwell_ticks_remaining: dwell_ticks, ..*old(self) }),
    {
        self.dwell_ticks_remaining = dwell_ticks;
    }

    pub fn set_next_offset_index(&mut self, next_offset_index: usize)
        ensures
            *final(self) == (AiIdleRoam { next_offset_index, ..*old(self) }),
    {
        self.next_offset_index = next_offset_index;
    }
}

/// Work of gathering from a resource node, with ticks of progress so far.
#[derive(Debug, Clone, Copy, PartialEq, Eq, Structural)]
pub struct AiGatherResource {
    pub target: EntityId,
    pub progress_ticks: u32,
}

impl AiGatherResource {
    pub fn new(target: EntityId) -> (r: Self)
        ensures
            r.target == target,
            r.progress_ticks == 0,
    {
        Self { target, progress_ticks: 0 }
    }

    pub fn target(self) -> (r: EntityId)
        ensures
            r == self.target,
    {
        self.target
    }

    pub fn progress_ticks(self) -> (r: u32)
        ensures
            r == self.progress_ticks,
    {
        self.progress_ticks
    }

    /// Counts one tick of progress, saturating.
    pub fn advance_tick(&mut self)
        ensures
            final(self).target == old(self).target,
            final(self).progress_ticks == (if old(self).progress_ticks == u32::MAX {
                u32::MAX as int
            } else {
                old(self).progress_ticks + 1
            }),
    {
        self.progress_ticks = self.progress_ticks.saturating_add(1);
    }
}

#[derive(Debug, Clone, Copy, PartialEq, Eq, Structural)]
pub enum MovementFacing {
    North,
    NorthEast,
    East,
    SouthEast,
    South,
    SouthWest,
    West,
    NorthWest,
}

impl Default for MovementFacing {
    fn default() -> (r: Self)
        ensures
            r == MovementFacing::South,
    {
        MovementFacing::South
    }
}

/// The hunger state of a satiation level.
pub open spec fn hunger_state_of(level: u32) -> HungerState {
    if level == 0 {
        HungerState::Starving
    } else if level <= NPC_HUNGER_HUNGRY_THRESHOLD {
        HungerState::Hungry
    } else {
        HungerState::Fed
    }
}

/// How satiated an NPC is, counted in ticks until starvation.
#[derive(Debug, Clone, Copy, PartialEq, Eq)]
pub struct NpcHunger {
    satiation_level: u32,
}

impl NpcHunger {
    pub const MIN_SATIATION_LEVEL: u32 = 0;

    pub const MAX_SATIATION_LEVEL: u32 = NPC_HUNGER_FULL_SATIATION;

    pub closed spec fn level(self) -> u32 {
        self.satiation_level
    }

    pub fn fed() -> (r: Self)
        ensures
            r.level() == NPC_HUNGER_FULL_SATIATION,
    {
        Self { satiation_level: NPC_HUNGER_FULL_SATIATION }
    }

    pub fn new(satiation_level: u32) -> (r: Self)
        ensures
            r.level() == satiation_level,
    {
        Self { satiation_level }
    }

    pub fn satiation_level(self) -> (r: u32)
        ensures
            r == self.level(),
    {
        self.satiation_level
    }

    pub fn state(self) -> (r: HungerState)
        ensures
            r == hunger_state_of(self.level()),
    {
        if self.satiation_level == 0 {
            HungerState::Starving
        } else if self.satiation_level <= NPC_HUNGER_HUNGRY_THRESHOLD {
            HungerState::Hungry
        } else {
            HungerState::Fed
        }
    }

    /// One tick of hunger: satiation drops by one (not below zero); once at or
    /// below the hungry threshold, one unit of pouch food is eaten if there is
    /// any, restoring full satiation (one tick less if the NPC was not fed
    /// before the tick).
    pub fn advance_tick(&mut self, food_pouch: &mut FoodPouch)
        ensures
            ({
                let dropped = if old(self).level() > 0 { old(self).level() - 1 } else { 0int };
                let eats = dropped <= NPC_HUNGER_HUNGRY_THRESHOLD && old(food_pouch).spec_amount() >= 1;
                &&& eats ==> final(food_pouch).spec_amount() == old(food_pouch).spec_amount() - 1
                &&& !eats ==> final(food_pouch).spec_amount() == old(food_pouch).spec_amount()
                &&& final(self).level() == (if !eats {
                    dropped
                } else if hunger_state_of(old(self).level()) == HungerState::Fed {
                    NPC_HUNGER_FULL_SATIATION as int
                } else {
                    NPC_HUNGER_FULL_SATIATION - 1
                })
            }),
    {
        let was_fed = match self.state() {
            HungerState::Fed => true,
            _ => false,
        };
        if self.satiation_level > 0 {
            self.satiation_level = self.satiation_level - 1;
        }
        if self.satiation_level <= NPC_HUNGER_HUNGRY_THRESHOLD && food_pouch.consume(1) {
            self.satiation_level = if was_fed {
                NPC_HUNGER_FULL_SATIATION
            } else {
                NPC_HUNGER_FULL_SATIATION - 1
            };
        }
    }
}

impl Default for NpcHunger {
    fn default() -> (r: Self)
        ensures
            r.level() == NPC_HUNGER_FULL_SATIATION,
    {
        Self::fed()
    }
}

/// Food an NPC carries for eating, never above `FOOD_POUCH_CAPACITY`.
#[derive(Debug, Clone, Copy, PartialEq, Eq)]
pub struct FoodPouch {
    amount: u32,
}

impl FoodPouch {
    #[verifier::type_invariant]
    spec fn within_capacity(self) -> bool {
        self.amount <= FOOD_POUCH_CAPACITY
    }

    pub closed spec fn spec_amount(self) -> u32 {
        self.amount
    }

    pub fn empty() -> (r: Self)
        ensures
            r.spec_amount() == 0,
    {
        Self { amount: 0 }
    }

    pub fn new(amount: u32) -> (r: Self)
        requires
            amount <= FOOD_POUCH_CAPACITY,
        ensures
            r.spec_amount() == amount,
    {
        Self { amount }
    }

    /// The food held; never more than the pouch capacity.
    pub fn amount(self) -> (r: u32)
        ensures
            r == self.spec_amount(),
            r <= FOOD_POUCH_CAPACITY,
    {
        proof {
            use_type_invariant(self);
        }
        self.amount
    }

    pub fn capacity(self) -> (r: u32)
        ensures
            r == FOOD_POUCH_CAPACITY,
    {
        FOOD_POUCH_CAPACITY
    }

    pub fn free_size(self) -> (r: u32)
        ensures
            r == FOOD_POUCH_CAPACITY - self.spec_amount(),
    {
        proof {
            use_type_invariant(self);
        }
        FOOD_POUCH_CAPACITY - self.amount
    }

    /// Adds food if the result stays within capacity; otherwise changes nothing.
    pub fn add(&mut self, amount: u32) -> (r: bool)
        ensures
            r == (old(self).spec_amount() + amount <= FOOD_POUCH_CAPACITY),
            r ==> final(self).spec_amount() == old(self).spec_amount() + amount,
            !r ==> final(self).spec_amount() == old(self).spec_amount(),
    {
        proof {
            use_type_invariant(&*self);
        }
        let new_amount = match self.amount.checked_add(amount) {
            Some(n) => n,
            None => return false,
        };
        if new_amount > FOOD_POUCH_CAPACITY {
            return false;
        }
        self.amount = new_amount;
        true
    }

    /// Removes food if that much is held; otherwise changes nothing.
    pub fn consume(&mut self, amount: u32) -> (r: bool)
        ensures
            r == (amount <= old(self).spec_amount()),
            r ==> final(self).spec_amount() == old(self).spec_amount() - amount,
            !r ==> final(self).spec_amount() == old(self).spec_amount(),
    {
        proof {
            use_type_invariant(&*self);
        }
        if self.amount < amount {
            return false;
        }
        self.amount = self.amount - amount;
        true
    }
}

impl Default for FoodPouch {
    fn default() -> (r: Self)
        ensures
            r.spec_amount() == 0,
    {
        Self::empty()
    }
}

/// A nonempty load of a single resource kind.
#[derive(Debug, Clone, Copy, PartialEq, Eq, Structural)]
pub struct CarriedResourceStack {
    pub kind: ResourceKind,
    pub amount: u32,
}

impl CarriedResourceStack {
    pub fn kind(self) -> (r: ResourceKind)
        ensures
            r == self.kind,
    {
        self.kind
    }

    pub fn amount(self) -> (r: u32)
        ensures
            r == self.amount,
    {
        self.amount
    }
}

/// Whether an optional stack is a valid load for a holder of the given capacity.
pub open spec fn stack_fits(stack: Option<CarriedResourceStack>, capacity: u32) -> bool {
    match stack {
        Some(s) => 0 < s.amount <= capacity,
        None => true,
    }
}

/// Amount held by an optional stack.
pub open spec fn stack_amount(stack: Option<CarriedResourceStack>) -> u32 {
    match stack {
        Some(s) => s.amount,
        None => 0,
    }
}

/// The stack after adding `amount` of `kind`, or `None` when the addition is refused.
pub open spec fn stack_after_add(
    stack: Option<CarriedResourceStack>,
    kind: ResourceKind,
    amount: u32,
    capacity: u32,
) -> Option<Option<CarriedResourceStack>> {
    if amount == 0 {
        Some(stack)
    } else {
        match stack {
            Some(s) => if s.kind != kind || s.amount + amount > capacity {
                None
            } else {
                Some(Some(CarriedResourceStack { kind, amount: (s.amount + amount) as u32 }))
            },
            None => if amount > capacity {
                None
            } else {
                Some(Some(CarriedResourceStack { kind, amount }))
            },
        }
    }
}

/// The stack after removing `amount` of `kind`, or `None` when the removal is refused.
pub open spec fn stack_after_consume(
    stack: Option<CarriedResourceStack>,
    kind: ResourceKind,
    amount: u32,
) -> Option<Option<CarriedResourceStack>> {
    if amount == 0 {
        Some(stack)
    } else {
        match stack {
            Some(s) => if s.kind != kind || s.amount < amount {
                None
            } else if s.amount == amount {
                Some(None)
            } else {
                Some(Some(CarriedResourceStack { kind, amount: (s.amount - amount) as u32 }))
            },
            None => None,
        }
    }
}

/// Amounts held by an optional stack, per kind.
pub open spec fn stack_contents(stack: Option<CarriedResourceStack>) -> ResourceAmounts {
    match stack {
        Some(s) => ResourceAmounts::zero_spec().with_amount(s.kind, s.amount),
        None => ResourceAmounts::zero_spec(),
    }
}

fn stack_add(
    stack: Option<CarriedResourceStack>,
    kind: ResourceKind,
    amount: u32,
    capacity: u32,
) -> (r: Option<Option<CarriedResourceStack>>)
    ensures
        r == stack_after_add(stack, kind, amount, capacity),
{
    if amount == 0 {
        return Some(stack);
    }
    match stack {
        Some(s) => {
            if s.kind != kind {
                return None;
            }
            let new_amount = match s.amount.checked_add(amount) {
                Some(n) => n,
                None => return None,
            };
            if new_amount > capacity {
                return None;
            }
            Some(Some(CarriedResourceStack { kind, amount: new_amount }))
        },
        None => {
            if amount > capacity {
                return None;
            }
            Some(Some(CarriedResourceStack { kind, amount }))
        },
    }
}

fn stack_consume(stack: Option<CarriedResourceStack>, kind: ResourceKind, amount: u32) -> (r:
    Option<Option<CarriedResourceStack>>)
    ensures
        r == stack_after_consume(stack, kind, amount),
{
    if amount == 0 {
        return Some(stack);
    }
    match stack {
        Some(s) => {
            if s.kind != kind || s.amount < amount {
                return None;
            }
            let left = s.amount - amount;
            if left > 0 {
                Some(Some(CarriedResourceStack { kind, amount: left }))
            } else {
                Some(None)
            }
        },
        None => None,
    }
}

fn stack_contents_of(stack: Option<CarriedResourceStack>) -> (r: ResourceAmounts)
    ensures
        r == stack_contents(stack),
{
    match stack {
        Some(s) => ResourceAmounts::of(s.kind, s.amount),
        None => ResourceAmounts::zero(),
    }
}

/// Adding to or removing from a valid stack keeps it valid.
pub proof fn lemma_stack_updates_keep_fit(
    stack: Option<CarriedResourceStack>,
    kind: ResourceKind,
    amount: u32,
    capacity: u32,
)
    requires
        stack_fits(stack, capacity),
    ensures
        stack_after_add(stack, kind, amount, capacity) matches Some(s) ==> stack_fits(s, capacity),
        stack_after_consume(stack, kind, amount) matches Some(s) ==> stack_fits(s, capacity),
{
}

/// Hauling equipment: empty, or loaded with one resource kind up to its capacity.
#[derive(Debug, Clone, Copy, PartialEq, Eq)]
pub struct Wheelbarrow {
    stack: Option<CarriedResourceStack>,
}

impl Wheelbarrow {
    #[verifier::type_invariant]
    spec fn fits(self) -> bool {
        stack_fits(self.stack, WHEELBARROW_CAPACITY)
    }

    pub closed spec fn load(self) -> Option<CarriedResourceStack> {
        self.stack
    }

    pub fn empty() -> (r: Self)
        ensures
            r.load() is None,
    {
        Self { stack: None }
    }

    pub fn of(kind: ResourceKind, amount: u32) -> (r: Self)
        requires
            amount <= WHEELBARROW_CAPACITY,
        ensures
            amount == 0 ==> r.load() is None,
            amount > 0 ==> r.load() == Some(CarriedResourceStack { kind, amount }),
    {
        if amount == 0 {
            Self::empty()
        } else {
            Self { stack: Some(CarriedResourceStack { kind, amount }) }
        }
    }

    /// The load, if any; a load is never empty and never above capacity.
    pub fn stack(self) -> (r: Option<CarriedResourceStack>)
        ensures
            r == self.load(),
            stack_fits(r, WHEELBARROW_CAPACITY),
    {
        proof {
            use_type_invariant(self);
        }
        self.stack
    }

    pub fn contents(self) -> (r: ResourceAmounts)
        ensures
            r == stack_contents(self.load()),
    {
        stack_contents_of(self.stack)
    }

    pub fn used_size(self) -> (r: u32)
        ensures
            r == stack_amount(self.load()),
    {
        match self.stack {
            Some(stack) => stack.amount,
            None => 0,
        }
    }

    pub fn free_size(self) -> (r: u32)
        ensures
            r == WHEELBARROW_CAPACITY - stack_amount(self.load()),
    {
        proof {
            use_type_invariant(self);
        }
        WHEELBARROW_CAPACITY - self.used_size()
    }

    /// Loads `amount` of `kind` if the wheelbarrow is empty or already holds that
    /// kind and the load stays within capacity; otherwise changes nothing.
    pub fn add(&mut self, kind: ResourceKind, amount: u32) -> (r: bool)
        ensures
            r == (stack_after_add(old(self).load(), kind, amount, WHEELBARROW_CAPACITY) is Some),
            r ==> Some(final(self).load()) == stack_after_add(
                old(self).load(),
                kind,
                amount,
                WHEELBARROW_CAPACITY,
            ),
            !r ==> final(self).load() == old(self).load(),
    {
        proof {
            use_type_invariant(&*self);
            lemma_stack_updates_keep_fit(self.stack, kind, amount, WHEELBARROW_CAPACITY);
        }
        match stack_add(self.stack, kind, amount, WHEELBARROW_CAPACITY) {
            Some(stack) => {
                self.stack = stack;
                true
            },
            None => false,
        }
    }

    /// Unloads `amount` of `kind` if that much of that kind is loaded; otherwise
    /// changes nothing.
    pub fn consume(&mut self, kind: ResourceKind, amount: u32) -> (r: bool)
        ensures
            r == (stack_after_consume(old(self).load(), kind, amount) is Some),
            r ==> Some(final(self).load()) == stack_after_consume(old(self).load(), kind, amount),
            !r ==> final(self).load() == old(self).load(),
    {
        proof {
            use_type_invariant(&*self);
            lemma_stack_updates_keep_fit(self.stack, kind, amount, WHEELBARROW_CAPACITY);
        }
        match stack_consume(self.stack, kind, amount) {
            Some(stack) => {
                self.stack = stack;
                true
            },
            None => false,
        }
    }
}

impl Default for Wheelbarrow {
    fn default() -> (r: Self)
        ensures
            r.load() is None,
    {
        Self::empty()
    }
}

/// Resources an NPC carries by hand: one kind, up to `CARRIED_RESOURCE_CAPACITY`.
#[derive(Debug, Clone, Copy, PartialEq, Eq)]
pub struct CarriedResource {
    stack: Option<CarriedResourceStack>,
}

impl CarriedResource {
    #[verifier::type_invariant]
    spec fn fits(self) -> bool {
        stack_fits(self.stack, CARRIED_RESOURCE_CAPACITY)
    }

    pub closed spec fn load(self) -> Option<CarriedResourceStack> {
        self.stack
    }

    pub fn empty() -> (r: Self)
        ensures
            r.load() is None,
    {
        Self { stack: None }
    }

    pub fn of(kind: ResourceKind, amount: u32) -> (r: Self)
        requires
            amount <= CARRIED_RESOURCE_CAPACITY,
        ensures
            amount == 0 ==> r.load() is None,
            amount > 0 ==> r.load() == Some(CarriedResourceStack { kind, amount }),
    {
        if amount == 0 {
            Self::empty()
        } else {
            Self { stack: Some(CarriedResourceStack { kind, amount }) }
        }
    }

    /// The load, if any; a load is never empty and never above capacity.
    pub fn stack(self) -> (r: Option<CarriedResourceStack>)
        ensures
            r == self.load(),
            stack_fits(r, CARRIED_RESOURCE_CAPACITY),
    {
        proof {
            use_type_invariant(self);
        }
        self.stack
    }

    pub fn contents(self) -> (r: ResourceAmounts)
        ensures
            r == stack_contents(self.load()),
    {
        stack_contents_of(self.stack)
    }

    pub fn used_size(self) -> (r: u32)
        ensures
            r == stack_amount(self.load()),
    {
        match self.stack {
            Some(stack) => stack.amount,
            None => 0,
        }
    }

    pub fn max_size(self) -> (r: u32)
        ensures
            r == CARRIED_RESOURCE_CAPACITY,
    {
        CARRIED_RESOURCE_CAPACITY
    }

    pub fn free_size(self) -> (r: u32)
        ensures
            r == CARRIED_RESOURCE_CAPACITY - stack_amount(self.load()),
    {
        proof {
            use_type_invariant(self);
        }
        CARRIED_RESOURCE_CAPACITY - self.used_size()
    }

    /// Picks up `amount` of `kind` if nothing or only that kind is carried and
    /// the load stays within capacity; otherwise changes nothing.
    pub fn add(&mut self, kind: ResourceKind, amount: u32) -> (r: bool)
        ensures
            r == (stack_after_add(old(self).load(), kind, amount, CARRIED_RESOURCE_CAPACITY) is Some),
            r ==> Some(final(self).load()) == stack_after_add(
                old(self).load(),
                kind,
                amount,
                CARRIED_RESOURCE_CAPACITY,
            ),
            !r ==> final(self).load() == old(self).load(),
    {
        proof {
            use_type_invariant(&*self);
            lemma_stack_updates_keep_fit(self.stack, kind, amount, CARRIED_RESOURCE_CAPACITY);
        }
        match stack_add(self.stack, kind, amount, CARRIED_RESOURCE_CAPACITY) {
            Some(stack) => {
                self.stack = stack;
                true
            },
            None => false,
        }
    }

    /// Drops `amount` of `kind` if that much of that kind is carried; otherwise
    /// changes nothing.
    pub fn consume(&mut self, kind: ResourceKind, amount: u32) -> (r: bool)
        ensures
            r == (stack_after_consume(old(self).load(), kind, amount) is Some),
            r ==> Some(final(self).load()) == stack_after_consume(old(self).load(), kind, amount),
            !r ==> final(self).load() == old(self).load(),
    {
        proof {
            use_type_invariant(&*self);
            lemma_stack_updates_keep_fit(self.stack, kind, amount, CARRIED_RESOURCE_CAPACITY);
        }
        match stack_consume(self.stack, kind, amount) {
            Some(stack) => {
                self.stack = stack;
                true
            },
            None => false,
        }
    }
}

impl Default for CarriedResource {
    fn default() -> (r: Self)
        ensures
            r.load() is None,
    {
        Self::empty()
    }
}

/// An NPC's general inventory of `DEFAULT_NPC_INVENTORY_MAX_SIZE` units.
#[derive(Debug, Clone, Copy, PartialEq, Eq)]
pub struct NpcInventory {
    inventory: ResourceInventory,
}

impl NpcInventory {
    pub closed spec fn store(self) -> ResourceInventory {
        self.inventory
    }

    pub fn empty() -> (r: Self)
        ensures
            r.store().spec_contents() == ResourceAmounts::zero_spec(),
            r.store().spec_max_size() == DEFAULT_NPC_INVENTORY_MAX_SIZE,
            r.store().wf(),
    {
        Self { inventory: ResourceInventory::empty(DEFAULT_NPC_INVENTORY_MAX_SIZE) }
    }

    pub fn new(contents: ResourceAmounts) -> (r: Self)
        requires
            saturated_total(contents) <= DEFAULT_NPC_INVENTORY_MAX_SIZE,
        ensures
            r.store().spec_contents() == contents,
            r.store().spec_max_size() == DEFAULT_NPC_INVENTORY_MAX_SIZE,
            r.store().wf(),
    {
        Self { inventory: ResourceInventory::new(contents, DEFAULT_NPC_INVENTORY_MAX_SIZE) }
    }

    pub fn contents(self) -> (r: ResourceAmounts)
        ensures
            r == self.store().spec_contents(),
    {
        self.inventory.contents()
    }

    pub fn max_size(self) -> (r: u32)
        ensures
            r == self.store().spec_max_size(),
    {
        self.inventory.max_size()
    }

    pub fn used_size(self) -> (r: u32)
        ensures
            r == saturated_total(self.store().spec_contents()),
    {
        self.inventory.used_size()
    }

    pub fn free_size(self) -> (r: u32)
        ensures
            r == self.store().spec_free_size(),
    {
        self.inventory.free_size()
    }

    /// Removes `amount` of a kind if that much is held; otherwise changes nothing.
    pub fn consume(&mut self, kind: ResourceKind, amount: u32) -> (r: bool)
        ensures
            r == (amount <= old(self).store().spec_contents().amount(kind)),
            r ==> final(self).store().spec_contents() == old(self).store().spec_contents().with_amount(
                kind,
                (old(self).store().spec_contents().amount(kind) - amount) as u32,
            ),
            !r ==> final(self).store().spec_contents() == old(self).store().spec_contents(),
            !r ==> *final(self) == *old(self),
            final(self).store().spec_max_size() == old(self).store().spec_max_size(),
            old(self).store().wf() ==> final(self).store().wf(),
    {
        self.inventory.consume(kind, amount)
    }

    /// Adds `amount` of a kind if it fits; otherwise changes nothing.
    pub fn add(&mut self, kind: ResourceKind, amount: u32) -> (r: bool)
        ensures
            r == (old(self).store().spec_contents().amount(kind) + amount <= u32::MAX && amount
                <= old(self).store().spec_free_size()),
            r ==> final(self).store().spec_contents() == old(self).store().spec_contents().with_amount(
                kind,
                (old(self).store().spec_contents().amount(kind) + amount) as u32,
            ),
            !r ==> final(self).store().spec_contents() == old(self).store().spec_contents(),
            !r ==> *final(self) == *old(self),
            final(self).store().spec_max_size() == old(self).store().spec_max_size(),
            old(self).store().wf() ==> final(self).store().wf(),
    {
        self.inventory.add(kind, amount)
    }
}

impl Default for NpcInventory {
    fn default() -> (r: Self)
        ensures
            r.store().spec_contents() == ResourceAmounts::zero_spec(),
            r.store().spec_max_size() == DEFAULT_NPC_INVENTORY_MAX_SIZE,
    {
        Self::empty()
    }
}

} // verus!
