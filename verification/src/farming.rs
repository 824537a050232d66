use vstd::prelude::*;
use crate::ai::RESOURCE_GATHER_TICKS_PER_UNIT;
use crate::buildings::{
    Building, BuildingFootprint, BuildingKind, BuildingPlacementError, footprint_contains,
    spec_footprint_placement, validate_building_footprint_placement,
};
use crate::components::TerrainKind;
use crate::grid::GridSize;
use crate::navigation::{sort_and_deduplicate, strictly_row_major};
use crate::plots::{connected_cells, grown, joins_network, joins_plot_network};
use crate::plots::{LinkedPlot, linked_plot_counts, plots_of};
use crate::sorting::copy_to_vec;
use crate::tasks::{TaskMaintenance, TaskRecord, despawned_tasks, maintain_tasks, unrepresented};
use crate::entity::EntityId;
use crate::grid::CellCoord;
use crate::plots::PlotGrowth;
use crate::resources::{ResourceAmounts, ResourceInventory, ResourceKind, saturated_total};
use crate::skills::{NpcSkills, SkillKind, clamp_skill};
use crate::time::SIMULATION_TICKS_PER_DAY;

verus! {

pub const MAX_FIELDS_PER_FARM: usize = 200;

pub const FARM_INVENTORY_MAX_FOOD: u32 = 200;

/// Ticks of work to seed a field: one day.
pub const FIELD_SEEDING_TICKS: u32 = SIMULATION_TICKS_PER_DAY;

/// Ticks a seeded field grows before harvest: one year of days.
pub const FIELD_GROWTH_TICKS: u32 = SIMULATION_TICKS_PER_DAY * 365;

/// Ticks of work to harvest one unit of food.
pub const FIELD_HARVEST_TICKS: u32 = RESOURCE_GATHER_TICKS_PER_UNIT;

/// Marker of NPCs that work fields.
#[derive(Debug, Clone, Copy, PartialEq, Eq, Structural)]
pub struct Farmer;

/// A farm's store of harvested food.
#[derive(Debug, Clone, Copy, PartialEq, Eq)]
pub struct FarmInventory {
    inventory: ResourceInventory,
}

impl FarmInventory {
    pub closed spec fn store(self) -> ResourceInventory {
        self.inventory
    }

    pub fn empty() -> (r: Self)
        ensures
            r.store().spec_contents() == ResourceAmounts::zero_spec(),
            r.store().spec_max_size() == FARM_INVENTORY_MAX_FOOD,
            r.store().wf(),
    {
        Self { inventory: ResourceInventory::empty(FARM_INVENTORY_MAX_FOOD) }
    }

    pub fn contents(self) -> (r: ResourceAmounts)
        ensures
            r == self.store().spec_contents(),
    {
        self.inventory.contents()
    }

    pub fn max_size(self) -> (r: u32)
        ensures
            r == self.store().spec_max_size(),
    {
        self.inventory.max_size()
    }

    pub fn used_size(self) -> (r: u32)
        ensures
            r == saturated_total(self.store().spec_contents()),
    {
        self.inventory.used_size()
    }

    pub fn free_size(self) -> (r: u32)
        ensures
            r == self.store().spec_free_size(),
    {
        self.inventory.free_size()
    }

    pub fn food(self) -> (r: u32)
        ensures
            r == self.store().spec_contents().food,
    {
        self.inventory.contents().get(ResourceKind::Food)
    }

    /// Room for at least one more unit.
    pub fn has_food_capacity(self) -> (r: bool)
        ensures
            r == (self.store().spec_free_size() > 0),
    {
        self.free_size() > 0
    }

    /// Adds food if it fits; otherwise changes nothing.
    pub fn add_food(&mut self, amount: u32) -> (r: bool)
        ensures
            r == (old(self).store().spec_contents().food + amount <= u32::MAX && amount
                <= old(self).store().spec_free_size()),
            r ==> final(self).store().spec_contents() == old(self).store().spec_contents().with_amount(
                ResourceKind::Food,
                (old(self).store().spec_contents().food + amount) as u32,
            ),
            !r ==> *final(self) == *old(self),
            final(self).store().spec_max_size() == old(self).store().spec_max_size(),
            old(self).store().wf() ==> final(self).store().wf(),
    {
        self.inventory.add(ResourceKind::Food, amount)
    }
}

impl Default for FarmInventory {
    fn default() -> (r: Self)
        ensures
            r.store().spec_contents() == ResourceAmounts::zero_spec(),
            r.store().spec_max_size() == FARM_INVENTORY_MAX_FOOD,
    {
        Self::empty()
    }
}

/// The farm a field belongs to.
#[derive(Debug, Clone, Copy, PartialEq, Eq, Structural)]
pub struct FieldOwner {
    pub farm: EntityId,
}

impl FieldOwner {
    pub fn new(farm: EntityId) -> (r: Self)
        ensures
            r.farm == farm,
    {
        Self { farm }
    }

    pub fn farm(self) -> (r: EntityId)
        ensures
            r == self.farm,
    {
        self.farm
    }
}

/// The crop of a field: seeding for `FIELD_SEEDING_TICKS`, then growing for
/// `FIELD_GROWTH_TICKS`.
#[derive(Debug, Clone, Copy, PartialEq, Eq, Structural)]
pub struct FieldCrop {
    pub growth: PlotGrowth,
}

/// What a field shows.
#[derive(Debug, Clone, Copy, PartialEq, Eq, Structural)]
pub enum FieldCropState {
    Inactive,
    Seedable,
    Seeding,
    GrowingStep1,
    GrowingStep2,
    Grown,
}

impl FieldCropState {
    pub open spec fn label_text(self) -> Seq<char> {
        match self {
            FieldCropState::Inactive => "Inactive"@,
            FieldCropState::Seedable => "Seedable"@,
            FieldCropState::Seeding => "Seeding"@,
            FieldCropState::GrowingStep1 => "Growing Step 1"@,
            FieldCropState::GrowingStep2 => "Growing Step 2"@,
            FieldCropState::Grown => "Grown"@,
        }
    }

    pub fn label(self) -> (r: &'static str)
        ensures
            r@ == self.label_text(),
    {
        match self {
            FieldCropState::Inactive => "Inactive",
            FieldCropState::Seedable => "Seedable",
            FieldCropState::Seeding => "Seeding",
            FieldCropState::GrowingStep1 => "Growing Step 1",
            FieldCropState::GrowingStep2 => "Growing Step 2",
            FieldCropState::Grown => "Grown",
        }
    }
}

impl FieldCrop {
    pub fn seedable() -> (r: Self)
        ensures
            r.growth == (PlotGrowth { seeding_progress_ticks: 0, growth_ticks: None }),
    {
        Self { growth: PlotGrowth::seedable() }
    }

    pub fn with_seeding_progress(seeding_progress_ticks: u32) -> (r: Self)
        ensures
            r.growth == (PlotGrowth { seeding_progress_ticks, growth_ticks: None }),
    {
        Self { growth: PlotGrowth::with_seeding_progress(seeding_progress_ticks) }
    }

    pub fn growing(growth_ticks: u32) -> (r: Self)
        ensures
            r.growth == (PlotGrowth { seeding_progress_ticks: FIELD_SEEDING_TICKS, growth_ticks: Some(growth_ticks) }),
    {
        Self { growth: PlotGrowth::growing(growth_ticks, FIELD_SEEDING_TICKS) }
    }

    pub fn seeding_progress_ticks(self) -> (r: u32)
        ensures
            r == self.growth.seeding_progress_ticks,
    {
        self.growth.seeding_progress_ticks()
    }

    pub fn growth_ticks(self) -> (r: Option<u32>)
        ensures
            r == self.growth.growth_ticks,
    {
        self.growth.growth_ticks()
    }

    /// Not yet growing and seeding not finished.
    pub open spec fn spec_is_seedable(self) -> bool {
        self.growth.spec_is_seedable(FIELD_SEEDING_TICKS)
    }

    /// Grown for the full growth time.
    pub open spec fn spec_is_grown(self) -> bool {
        match self.growth.growth_ticks {
            Some(t) => t >= FIELD_GROWTH_TICKS,
            None => false,
        }
    }

    pub fn is_seedable(self) -> (r: bool)
        ensures
            r == self.spec_is_seedable(),
    {
        self.growth.is_seedable(FIELD_SEEDING_TICKS)
    }

    pub fn is_grown(self) -> (r: bool)
        ensures
            r == self.spec_is_grown(),
    {
        match self.growth.growth_ticks() {
            Some(t) => t >= FIELD_GROWTH_TICKS,
            None => false,
        }
    }

    /// One tick of seeding; `true` when the seed is in and growth starts.
    pub fn advance_seeding_tick(&mut self) -> (r: bool)
        ensures
            !old(self).spec_is_seedable() ==> !r && *final(self) == *old(self),
            old(self).spec_is_seedable() ==> {
                let next = old(self).growth.seeding_progress_ticks + 1;
                &&& r == (next >= FIELD_SEEDING_TICKS)
                &&& r ==> final(self).growth == PlotGrowth {
                    seeding_progress_ticks: FIELD_SEEDING_TICKS,
                    growth_ticks: Some(0),
                }
                &&& !r ==> final(self).growth == PlotGrowth {
                    seeding_progress_ticks: next as u32,
                    growth_ticks: None,
                }
            },
    {
        self.growth.advance_seeding_tick(FIELD_SEEDING_TICKS)
    }

    /// One tick of growth, stopping once grown.
    pub fn advance_growth_tick(&mut self)
        ensures
            final(self).growth.seeding_progress_ticks == old(self).growth.seeding_progress_ticks,
            final(self).growth.growth_ticks == (match old(self).growth.growth_ticks {
                Some(t) => Some(if t < FIELD_GROWTH_TICKS { (t + 1) as u32 } else { t }),
                None => None,
            }),
    {
        self.growth.advance_growth_tick(FIELD_GROWTH_TICKS)
    }

    /// Back to an empty, seedable field.
    pub fn reset_after_harvest(&mut self)
        ensures
            final(self).growth == (PlotGrowth { seeding_progress_ticks: 0, growth_ticks: None }),
    {
        self.growth.reset();
    }

    /// What the field shows: inactive without a working farm; seeding while
    /// someone seeds it and seeding is not done; otherwise by growth, the
    /// second step from half of the growth time.
    pub open spec fn spec_state(self, farm_active: bool, actively_seeding: bool) -> FieldCropState {
        if !farm_active {
            FieldCropState::Inactive
        } else if actively_seeding && self.spec_is_seedable() {
            FieldCropState::Seeding
        } else {
            match self.growth.growth_ticks {
                None => FieldCropState::Seedable,
                Some(t) => if t >= FIELD_GROWTH_TICKS {
                    FieldCropState::Grown
                } else if t >= FIELD_GROWTH_TICKS / 2 {
                    FieldCropState::GrowingStep2
                } else {
                    FieldCropState::GrowingStep1
                },
            }
        }
    }

    pub fn state(self, farm_active: bool, actively_seeding: bool) -> (r: FieldCropState)
        ensures
            r == self.spec_state(farm_active, actively_seeding),
    {
        if !farm_active {
            return FieldCropState::Inactive;
        }
        if actively_seeding && self.is_seedable() {
            return FieldCropState::Seeding;
        }
        match self.growth.growth_ticks() {
            None => FieldCropState::Seedable,
            Some(t) => {
                if t >= FIELD_GROWTH_TICKS {
                    FieldCropState::Grown
                } else if t >= FIELD_GROWTH_TICKS / 2 {
                    FieldCropState::GrowingStep2
                } else {
                    FieldCropState::GrowingStep1
                }
            },
        }
    }
}

impl Default for FieldCrop {
    fn default() -> (r: Self)
        ensures
            r.growth == (PlotGrowth { seeding_progress_ticks: 0, growth_ticks: None }),
    {
        Self::seedable()
    }
}

/// Why a field cannot be placed.
#[derive(Debug, Clone, Copy, PartialEq, Eq, Structural)]
pub enum FieldPlacementError {
    OutOfBounds,
    OverlapsBuilding,
    InvalidTerrain,
    BlockedByResourceNode,
    OwnerMissing,
    OwnerNotFarm,
    NotConnected,
    FarmFieldLimitReached,
}

/// Building placement errors as field placement errors; a kind that needs
/// an owner counts as a missing owner.
pub open spec fn spec_field_error_from(value: BuildingPlacementError) -> FieldPlacementError {
    match value {
        BuildingPlacementError::OutOfBounds => FieldPlacementError::OutOfBounds,
        BuildingPlacementError::OverlapsBuilding => FieldPlacementError::OverlapsBuilding,
        BuildingPlacementError::InvalidTerrain => FieldPlacementError::InvalidTerrain,
        BuildingPlacementError::BlockedByResourceNode => FieldPlacementError::BlockedByResourceNode,
        BuildingPlacementError::FieldRequiresFarm | BuildingPlacementError::TreePlotRequiresLodge => FieldPlacementError::OwnerMissing,
    }
}

impl From<BuildingPlacementError> for FieldPlacementError {
    fn from(value: BuildingPlacementError) -> (r: Self) {
        match value {
            BuildingPlacementError::OutOfBounds => FieldPlacementError::OutOfBounds,
            BuildingPlacementError::OverlapsBuilding => FieldPlacementError::OverlapsBuilding,
            BuildingPlacementError::InvalidTerrain => FieldPlacementError::InvalidTerrain,
            BuildingPlacementError::BlockedByResourceNode => FieldPlacementError::BlockedByResourceNode,
            BuildingPlacementError::FieldRequiresFarm | BuildingPlacementError::TreePlotRequiresLodge => FieldPlacementError::OwnerMissing,
        }
    }
}

impl vstd::std_specs::convert::FromSpecImpl<BuildingPlacementError> for FieldPlacementError {
    open spec fn obeys_from_spec() -> bool {
        true
    }

    open spec fn from_spec(value: BuildingPlacementError) -> FieldPlacementError {
        spec_field_error_from(value)
    }
}

/// A field waiting to be seeded.
#[derive(Debug, Clone, Copy, PartialEq, Eq, Structural)]
pub struct SeedField {
    pub field: EntityId,
}

impl SeedField {
    pub fn new(field: EntityId) -> (r: Self)
        ensures
            r.field == field,
    {
        Self { field }
    }

    pub fn field(self) -> (r: EntityId)
        ensures
            r == self.field,
    {
        self.field
    }

    pub fn label() -> (r: &'static str)
        ensures
            r@ == "SeedField"@,
    {
        "SeedField"
    }
}

/// A grown field waiting to be harvested.
#[derive(Debug, Clone, Copy, PartialEq, Eq, Structural)]
pub struct HarvestField {
    pub field: EntityId,
}

impl HarvestField {
    pub fn new(field: EntityId) -> (r: Self)
        ensures
            r.field == field,
    {
        Self { field }
    }

    pub fn field(self) -> (r: EntityId)
        ensures
            r == self.field,
    {
        self.field
    }

    pub fn label() -> (r: &'static str)
        ensures
            r@ == "HarvestField"@,
    {
        "HarvestField"
    }
}

/// A farmer's work of seeding a field.
#[derive(Debug, Clone, Copy, PartialEq, Eq, Structural)]
pub struct AiSeedField {
    pub field: EntityId,
}

impl AiSeedField {
    pub fn new(field: EntityId) -> (r: Self)
        ensures
            r.field == field,
    {
        Self { field }
    }

    pub fn field(self) -> (r: EntityId)
        ensures
            r == self.field,
    {
        self.field
    }
}

/// A farmer's work of harvesting a field, with ticks of progress so far.
#[derive(Debug, Clone, Copy, PartialEq, Eq, Structural)]
pub struct AiHarvestField {
    pub field: EntityId,
    pub progress_ticks: u32,
}

impl AiHarvestField {
    pub fn new(field: EntityId) -> (r: Self)
        ensures
            r.field == field,
            r.progress_ticks == 0,
    {
        Self { field, progress_ticks: 0 }
    }

    pub fn field(self) -> (r: EntityId)
        ensures
            r == self.field,
    {
        self.field
    }

    pub fn progress_ticks(self) -> (r: u32)
        ensures
            r == self.progress_ticks,
    {
        self.progress_ticks
    }

    /// Counts one tick, saturating.
    pub fn advance_tick(&mut self)
        ensures
            final(self).field == old(self).field,
            final(self).progress_ticks == (if old(self).progress_ticks == u32::MAX {
                u32::MAX as int
            } else {
                old(self).progress_ticks + 1
            }),
    {
        self.progress_ticks = self.progress_ticks.saturating_add(1);
    }
}

/// A field entity with its building, owner and crop.
#[derive(Debug, Clone, Copy, PartialEq, Eq, Structural)]
pub struct FieldRecord {
    pub entity: EntityId,
    pub building: Building,
    pub owner: FieldOwner,
    pub crop: FieldCrop,
}

/// A farm entity with its building and inventory.
#[derive(Debug, Clone, Copy, PartialEq, Eq)]
pub struct FarmRecord {
    pub entity: EntityId,
    pub building: Building,
    pub inventory: FarmInventory,
}

/// Position of the first field record of an entity, if any.
#[verifier::opaque]
pub open spec fn field_position(fields: Seq<FieldRecord>, e: EntityId) -> Option<int> {
    if exists|i: int| 0 <= i < fields.len() && fields[i].entity == e {
        Some(choose|i: int| 0 <= i < fields.len() && fields[i].entity == e && forall|j: int| 0 <= j < i ==> (#[trigger] fields[j]).entity != e)
    } else {
        None
    }
}

/// Position of the first farm record of an entity, if any.
#[verifier::opaque]
pub open spec fn farm_position(farms: Seq<FarmRecord>, e: EntityId) -> Option<int> {
    if exists|i: int| 0 <= i < farms.len() && farms[i].entity == e {
        Some(choose|i: int| 0 <= i < farms.len() && farms[i].entity == e && forall|j: int| 0 <= j < i ==> (#[trigger] farms[j]).entity != e)
    } else {
        None
    }
}

fn find_field(fields: &[FieldRecord], e: EntityId) -> (r: Option<usize>)
    ensures
        r matches Some(i) ==> field_position(fields@, e) == Some(i as int) && i < fields@.len(),
        r is None ==> field_position(fields@, e) is None,
{
    let mut i: usize = 0;
    while i < fields.len()
        invariant
            0 <= i <= fields@.len(),
            forall|j: int| 0 <= j < i ==> (#[trigger] fields@[j]).entity != e,
        decreases fields@.len() - i,
    {
        if fields[i].entity == e {
            proof {
                reveal(field_position);
                reveal(farm_position);
                let c = choose|c: int| 0 <= c < fields@.len() && fields@[c].entity == e && forall|j: int| 0 <= j < c ==> (#[trigger] fields@[j]).entity != e;
                if c > i {
                    assert(fields@[i as int].entity == e);
                }
            }
            return Some(i);
        }
        i = i + 1;
    }
    proof {
        reveal(field_position);
        reveal(farm_position);
    }
    None
}

fn find_farm(farms: &[FarmRecord], e: EntityId) -> (r: Option<usize>)
    ensures
        r matches Some(i) ==> farm_position(farms@, e) == Some(i as int) && i < farms@.len(),
        r is None ==> farm_position(farms@, e) is None,
{
    let mut i: usize = 0;
    while i < farms.len()
        invariant
            0 <= i <= farms@.len(),
            forall|j: int| 0 <= j < i ==> (#[trigger] farms@[j]).entity != e,
        decreases farms@.len() - i,
    {
        if farms[i].entity == e {
            proof {
                reveal(field_position);
                reveal(farm_position);
                let c = choose|c: int| 0 <= c < farms@.len() && farms@[c].entity == e && forall|j: int| 0 <= j < c ==> (#[trigger] farms@[j]).entity != e;
                if c > i {
                    assert(farms@[i as int].entity == e);
                }
            }
            return Some(i);
        }
        i = i + 1;
    }
    proof {
        reveal(field_position);
        reveal(farm_position);
    }
    None
}

/// Where to stand to seed a field, when seeding it is possible: the field
/// is a Field, seedable, and owned by a Farm.
pub open spec fn spec_field_seeding_target(fields: Seq<FieldRecord>, farms: Seq<FarmRecord>, field: EntityId) -> Option<CellCoord> {
    match field_position(fields, field) {
        None => None,
        Some(i) => {
            let f = fields[i];
            if f.building.kind != BuildingKind::Field || !f.crop.spec_is_seedable() {
                None
            } else {
                match farm_position(farms, f.owner.farm) {
                    Some(j) => if farms[j].building.kind == BuildingKind::Farm {
                        Some(f.building.footprint.origin)
                    } else {
                        None
                    },
                    None => None,
                }
            }
        },
    }
}

/// Where to stand to harvest a field, when harvesting it is possible: the
/// field is a grown Field owned by a Farm with room for food.
pub open spec fn spec_field_harvest_target(fields: Seq<FieldRecord>, farms: Seq<FarmRecord>, field: EntityId) -> Option<CellCoord> {
    match field_position(fields, field) {
        None => None,
        Some(i) => {
            let f = fields[i];
            if f.building.kind != BuildingKind::Field || !f.crop.spec_is_grown() {
                None
            } else {
                match farm_position(farms, f.owner.farm) {
                    Some(j) => if farms[j].building.kind == BuildingKind::Farm
                        && farms[j].inventory.store().spec_free_size() > 0 {
                        Some(f.building.footprint.origin)
                    } else {
                        None
                    },
                    None => None,
                }
            }
        },
    }
}

/// Some record of an entity means a first one.
proof fn lemma_first_field(fields: Seq<FieldRecord>, e: EntityId, w: int)
    requires
        0 <= w < fields.len(),
        fields[w].entity == e,
    ensures
        exists|i: int| 0 <= i < fields.len() && fields[i].entity == e && forall|j: int| 0 <= j < i ==> (#[trigger] fields[j]).entity != e,
    decreases w,
{
    if exists|v: int| 0 <= v < w && (#[trigger] fields[v]).entity == e {
        let v = choose|v: int| 0 <= v < w && (#[trigger] fields[v]).entity == e;
        lemma_first_field(fields, e, v);
    } else {
        assert(0 <= w < fields.len() && fields[w].entity == e && forall|j: int| 0 <= j < w ==> (#[trigger] fields[j]).entity != e);
    }
}

/// Some record of an entity means a first one.
proof fn lemma_first_farm(farms: Seq<FarmRecord>, e: EntityId, w: int)
    requires
        0 <= w < farms.len(),
        farms[w].entity == e,
    ensures
        exists|i: int| 0 <= i < farms.len() && farms[i].entity == e && forall|j: int| 0 <= j < i ==> (#[trigger] farms[j]).entity != e,
    decreases w,
{
    if exists|v: int| 0 <= v < w && (#[trigger] farms[v]).entity == e {
        let v = choose|v: int| 0 <= v < w && (#[trigger] farms[v]).entity == e;
        lemma_first_farm(farms, e, v);
    } else {
        assert(0 <= w < farms.len() && farms[w].entity == e && forall|j: int| 0 <= j < w ==> (#[trigger] farms[j]).entity != e);
    }
}

/// A farmer is only sent to seed a field that can be seeded: the first
/// record of the entity is a Field whose crop is seedable, owned by a Farm,
/// and the farmer goes to that field's origin.
pub proof fn law_only_seedable_fields_are_seeded(fields: Seq<FieldRecord>, farms: Seq<FarmRecord>, field: EntityId)
    ensures
        spec_field_seeding_target(fields, farms, field) is Some ==> exists|i: int| {
            &&& 0 <= i < fields.len()
            &&& (#[trigger] fields[i]).entity == field
            &&& forall|k: int| 0 <= k < i ==> (#[trigger] fields[k]).entity != field
            &&& fields[i].building.kind == BuildingKind::Field
            &&& fields[i].crop.spec_is_seedable()
            &&& spec_field_seeding_target(fields, farms, field) == Some(fields[i].building.footprint.origin)
            &&& exists|j: int| 0 <= j < farms.len() && (#[trigger] farms[j]).entity == fields[i].owner.farm
                && farms[j].building.kind == BuildingKind::Farm
        },
{
    reveal(field_position);
    reveal(farm_position);
    if spec_field_seeding_target(fields, farms, field) is Some {
        let w = choose|w: int| 0 <= w < fields.len() && fields[w].entity == field;
        lemma_first_field(fields, field, w);
        let i = field_position(fields, field).unwrap();
        let u = choose|u: int| 0 <= u < farms.len() && farms[u].entity == fields[i].owner.farm;
        lemma_first_farm(farms, fields[i].owner.farm, u);
        let j = farm_position(farms, fields[i].owner.farm).unwrap();
        assert(farms[j].entity == fields[i].owner.farm);
        assert(fields[i].entity == field);
    }
}

pub fn field_seeding_is_actionable(field: EntityId, fields: &[FieldRecord], farms: &[FarmRecord]) -> (r: Option<CellCoord>)
    ensures
        r == spec_field_seeding_target(fields@, farms@, field),
{
    let i = match find_field(fields, field) {
        Some(i) => i,
        None => {
            return None;
        },
    };
    let f = fields[i];
    if f.building.kind != BuildingKind::Field || !f.crop.is_seedable() {
        return None;
    }
    match find_farm(farms, f.owner.farm) {
        Some(j) => {
            if farms[j].building.kind == BuildingKind::Farm {
                Some(f.building.footprint.origin)
            } else {
                None
            }
        },
        None => None,
    }
}

pub fn field_harvest_is_actionable(field: EntityId, fields: &[FieldRecord], farms: &[FarmRecord]) -> (r: Option<CellCoord>)
    ensures
        r == spec_field_harvest_target(fields@, farms@, field),
{
    let i = match find_field(fields, field) {
        Some(i) => i,
        None => {
            return None;
        },
    };
    let f = fields[i];
    if f.building.kind != BuildingKind::Field || !f.crop.is_grown() {
        return None;
    }
    match find_farm(farms, f.owner.farm) {
        Some(j) => {
            if farms[j].building.kind == BuildingKind::Farm && farms[j].inventory.has_food_capacity() {
                Some(f.building.footprint.origin)
            } else {
                None
            }
        },
        None => None,
    }
}

/// Whether seeding or harvesting work goes on.
#[derive(Debug, Clone, Copy, PartialEq, Eq, Structural)]
pub enum FieldWork {
    /// Drop the work.
    Stop,
    /// Keep working next tick.
    Continue,
}

/// One tick of seeding by an NPC (`eligible`: a farmer not busy with food,
/// gathering or construction) standing at `position`, on a field of the
/// given kind and footprint owned by a building of kind `farm_kind`. The
/// work stops when the NPC is not eligible, the field or farm is missing or
/// of the wrong kind, the field is not seedable, or the NPC is off the
/// field; otherwise the crop advances one tick of seeding, and when the seed
/// is in, the Farmer skill gains a point and the work stops.
pub fn seed_field_tick(
    eligible: bool,
    position: CellCoord,
    field: Option<Building>,
    farm_kind: Option<BuildingKind>,
    crop: &mut FieldCrop,
    skills: &mut Option<NpcSkills>,
) -> (r: FieldWork)
    ensures
        ({
            let works = eligible && field is Some && farm_kind is Some && field.unwrap().kind == BuildingKind::Field
                && farm_kind.unwrap() == BuildingKind::Farm && old(crop).spec_is_seedable()
                && footprint_contains(field.unwrap().footprint, position);
            let done = old(crop).growth.seeding_progress_ticks + 1 >= FIELD_SEEDING_TICKS;
            &&& !works ==> r == FieldWork::Stop && *final(crop) == *old(crop) && *final(skills) == *old(skills)
            &&& works ==> {
                &&& final(crop).growth == if done {
                    PlotGrowth { seeding_progress_ticks: FIELD_SEEDING_TICKS, growth_ticks: Some(0) }
                } else {
                    PlotGrowth { seeding_progress_ticks: (old(crop).growth.seeding_progress_ticks + 1) as u32, growth_ticks: None }
                }
                &&& r == if done { FieldWork::Stop } else { FieldWork::Continue }
                &&& !done ==> *final(skills) == *old(skills)
                &&& done ==> skill_point(*old(skills), *final(skills), SkillKind::Farmer)
            }
        }),
{
    let b = match field {
        Some(b) => b,
        None => {
            return FieldWork::Stop;
        },
    };
    let fk = match farm_kind {
        Some(k) => k,
        None => {
            return FieldWork::Stop;
        },
    };
    if !eligible || b.kind != BuildingKind::Field || fk != BuildingKind::Farm || !crop.is_seedable()
        || !b.footprint.contains(position) {
        return FieldWork::Stop;
    }
    if crop.advance_seeding_tick() {
        credit_skill(skills, SkillKind::Farmer);
        FieldWork::Stop
    } else {
        FieldWork::Continue
    }
}

/// `after` is `before` with one more point in `skill` (within the skill
/// range); no skills stay no skills.
pub open spec fn skill_point(before: Option<NpcSkills>, after: Option<NpcSkills>, skill: SkillKind) -> bool {
    match before {
        Some(sk) => after is Some && after.unwrap().skill(skill) == clamp_skill(sk.skill(skill) + 1) && forall|k: SkillKind|
            k != skill ==> #[trigger] after.unwrap().skill(k) == sk.skill(k),
        None => after is None,
    }
}

/// Adds one point to a skill of an NPC that has skills.
pub fn credit_skill(skills: &mut Option<NpcSkills>, skill: SkillKind)
    ensures
        skill_point(*old(skills), *final(skills), skill),
{
    match skills {
        Some(sk) => {
            let mut updated = *sk;
            updated.add_xp(skill, 1);
            *skills = Some(updated);
        },
        None => {},
    }
}

/// One tick of harvesting by an NPC (`eligible` as for seeding) at
/// `position`. The work stops when the NPC is not eligible, the field or
/// farm is missing or of the wrong kind, the crop is not grown, or the NPC
/// is off the field. Otherwise the work advances a tick; once
/// `FIELD_HARVEST_TICKS` are reached, one food goes into the farm if it
/// fits, in which case the field is reset and the Farmer skill gains a
/// point, and the work stops either way.
pub fn harvest_field_tick(
    eligible: bool,
    position: CellCoord,
    harvest: &mut AiHarvestField,
    field: Option<Building>,
    farm_kind: Option<BuildingKind>,
    crop: &mut FieldCrop,
    farm_inventory: &mut FarmInventory,
    skills: &mut Option<NpcSkills>,
) -> (r: FieldWork)
    ensures
        final(harvest).field == old(harvest).field,
        ({
            let works = eligible && field is Some && farm_kind is Some && field.unwrap().kind == BuildingKind::Field
                && farm_kind.unwrap() == BuildingKind::Farm && old(crop).spec_is_grown()
                && footprint_contains(field.unwrap().footprint, position);
            let ticks = if old(harvest).progress_ticks == u32::MAX {
                u32::MAX as int
            } else {
                old(harvest).progress_ticks + 1
            };
            let c0 = old(farm_inventory).store().spec_contents();
            let fits = c0.food + 1 <= u32::MAX && 1 <= old(farm_inventory).store().spec_free_size();
            &&& !works ==> r == FieldWork::Stop && *final(harvest) == *old(harvest) && *final(crop) == *old(crop)
                && *final(farm_inventory) == *old(farm_inventory) && *final(skills) == *old(skills)
            &&& works ==> final(harvest).progress_ticks == ticks
            &&& works && ticks < FIELD_HARVEST_TICKS ==> r == FieldWork::Continue && *final(crop) == *old(crop)
                && *final(farm_inventory) == *old(farm_inventory) && *final(skills) == *old(skills)
            &&& works && ticks >= FIELD_HARVEST_TICKS ==> r == FieldWork::Stop
            &&& works && ticks >= FIELD_HARVEST_TICKS && !fits ==> *final(crop) == *old(crop)
                && *final(farm_inventory) == *old(farm_inventory) && *final(skills) == *old(skills)
            &&& works && ticks >= FIELD_HARVEST_TICKS && fits ==> {
                &&& final(farm_inventory).store().spec_contents() == c0.with_amount(ResourceKind::Food, (c0.food + 1) as u32)
                &&& final(crop).growth == PlotGrowth { seeding_progress_ticks: 0, growth_ticks: None }
                &&& skill_point(*old(skills), *final(skills), SkillKind::Farmer)
            }
        }),
{
    let b = match field {
        Some(b) => b,
        None => {
            return FieldWork::Stop;
        },
    };
    let fk = match farm_kind {
        Some(k) => k,
        None => {
            return FieldWork::Stop;
        },
    };
    if !eligible || b.kind != BuildingKind::Field || fk != BuildingKind::Farm || !crop.is_grown()
        || !b.footprint.contains(position) {
        return FieldWork::Stop;
    }
    harvest.advance_tick();
    if harvest.progress_ticks() < FIELD_HARVEST_TICKS {
        return FieldWork::Continue;
    }
    if farm_inventory.add_food(1) {
        crop.reset_after_harvest();
        credit_skill(skills, SkillKind::Farmer);
    }
    FieldWork::Stop
}


/// The preview of placing a field at a cell: its footprint, or why it
/// cannot be placed.
#[derive(Debug, Clone, Copy, PartialEq, Eq)]
pub struct FieldPlacementPreview {
    pub coord: CellCoord,
    pub result: Result<BuildingFootprint, FieldPlacementError>,
}

/// The footprint of a field's owner, from the kind and footprint of the
/// owner's building (or, lacking one, its blueprint).
pub open spec fn spec_farm_footprint(owner: Option<(BuildingKind, BuildingFootprint)>) -> Result<BuildingFootprint, FieldPlacementError> {
    match owner {
        None => Err(FieldPlacementError::OwnerMissing),
        Some((kind, footprint)) => if kind == BuildingKind::Farm {
            Ok(footprint)
        } else {
            Err(FieldPlacementError::OwnerNotFarm)
        },
    }
}

pub fn farm_footprint(owner: Option<(BuildingKind, BuildingFootprint)>) -> (r: Result<BuildingFootprint, FieldPlacementError>)
    ensures
        r == spec_farm_footprint(owner),
{
    match owner {
        None => Err(FieldPlacementError::OwnerMissing),
        Some((kind, footprint)) => if kind == BuildingKind::Farm {
            Ok(footprint)
        } else {
            Err(FieldPlacementError::OwnerNotFarm)
        },
    }
}

/// The footprint a field would take at a cell, by the building placement
/// rules, with their errors as field errors.
pub open spec fn spec_field_footprint(
    size: GridSize,
    coord: CellCoord,
    terrain: Seq<Option<TerrainKind>>,
    resource_cells: Seq<CellCoord>,
    existing: Seq<BuildingFootprint>,
) -> Result<BuildingFootprint, FieldPlacementError> {
    match spec_footprint_placement(size, BuildingKind::Field, coord, terrain, resource_cells, existing) {
        Ok(f) => Ok(f),
        Err(e) => Err(spec_field_error_from(e)),
    }
}

fn validate_field_footprint(
    size: GridSize,
    coord: CellCoord,
    terrain: &[Option<TerrainKind>],
    resource_cells: &[CellCoord],
    existing: &[BuildingFootprint],
) -> (r: Result<BuildingFootprint, FieldPlacementError>)
    requires
        terrain@.len() == size.width * size.height,
    ensures
        r == spec_field_footprint(size, coord, terrain@, resource_cells@, existing@),
{
    match validate_building_footprint_placement(size, BuildingKind::Field, coord, terrain, resource_cells, existing) {
        Ok(f) => Ok(f),
        Err(e) => Err(FieldPlacementError::from(e)),
    }
}

/// How many more fields a farm with `linked` fields may take.
pub open spec fn field_room(linked: int) -> int {
    if linked >= MAX_FIELDS_PER_FARM { 0 } else { MAX_FIELDS_PER_FARM - linked }
}

/// Placing one field for an owner whose fields have the footprints
/// `linked`: the owner must be a farm with room for another field, the
/// footprint must pass the building rules, and the cell must border the
/// farm or one of its fields.
pub open spec fn spec_field_placement(
    size: GridSize,
    owner: Option<(BuildingKind, BuildingFootprint)>,
    linked: Seq<BuildingFootprint>,
    coord: CellCoord,
    terrain: Seq<Option<TerrainKind>>,
    resource_cells: Seq<CellCoord>,
    existing: Seq<BuildingFootprint>,
) -> Result<BuildingFootprint, FieldPlacementError> {
    match spec_farm_footprint(owner) {
        Err(e) => Err(e),
        Ok(farm) => if linked.len() >= MAX_FIELDS_PER_FARM {
            Err(FieldPlacementError::FarmFieldLimitReached)
        } else {
            match spec_field_footprint(size, coord, terrain, resource_cells, existing) {
                Err(e) => Err(e),
                Ok(f) => if joins_network(coord, farm, linked, seq![]) {
                    Ok(f)
                } else {
                    Err(FieldPlacementError::NotConnected)
                },
            }
        },
    }
}

/// Validates placing one field blueprint (see `spec_field_placement`).
pub fn validate_field_blueprint_placement(
    size: GridSize,
    owner: Option<(BuildingKind, BuildingFootprint)>,
    linked: &[BuildingFootprint],
    coord: CellCoord,
    terrain: &[Option<TerrainKind>],
    resource_cells: &[CellCoord],
    existing: &[BuildingFootprint],
) -> (r: Result<BuildingFootprint, FieldPlacementError>)
    requires
        terrain@.len() == size.width * size.height,
    ensures
        r == spec_field_placement(size, owner, linked@, coord, terrain@, resource_cells@, existing@),
{
    let farm = match farm_footprint(owner) {
        Ok(f) => f,
        Err(e) => return Err(e),
    };
    if linked.len() >= MAX_FIELDS_PER_FARM {
        return Err(FieldPlacementError::FarmFieldLimitReached);
    }
    let footprint = match validate_field_footprint(size, coord, terrain, resource_cells, existing) {
        Ok(f) => f,
        Err(e) => return Err(e),
    };
    let none: Vec<CellCoord> = Vec::new();
    if !joins_plot_network(coord, farm, linked, none.as_slice()) {
        proof {
            assert(none@ =~= Seq::<CellCoord>::empty());
        }
        return Err(FieldPlacementError::NotConnected);
    }
    proof {
        assert(none@ =~= Seq::<CellCoord>::empty());
    }
    Ok(footprint)
}

/// The cells of a batch whose field footprints pass the building rules, in
/// order.
pub open spec fn field_ok_cells(
    size: GridSize,
    cells: Seq<CellCoord>,
    terrain: Seq<Option<TerrainKind>>,
    resource_cells: Seq<CellCoord>,
    existing: Seq<BuildingFootprint>,
) -> Seq<CellCoord>
    decreases cells.len(),
{
    if cells.len() == 0 {
        seq![]
    } else {
        let p = field_ok_cells(size, cells.drop_last(), terrain, resource_cells, existing);
        if spec_field_footprint(size, cells.last(), terrain, resource_cells, existing) is Ok {
            p.push(cells.last())
        } else {
            p
        }
    }
}

/// How many cells of a batch pass the building rules and joined the network.
pub open spec fn field_joined_count(
    size: GridSize,
    cells: Seq<CellCoord>,
    terrain: Seq<Option<TerrainKind>>,
    resource_cells: Seq<CellCoord>,
    existing: Seq<BuildingFootprint>,
    joined: Seq<CellCoord>,
) -> nat
    decreases cells.len(),
{
    if cells.len() == 0 {
        0
    } else {
        field_joined_count(size, cells.drop_last(), terrain, resource_cells, existing, joined)
            + if spec_field_footprint(size, cells.last(), terrain, resource_cells, existing) is Ok
            && joined.contains(cells.last()) {
            1nat
        } else {
            0nat
        }
    }
}

/// The previews of a batch of distinct cells in row-major order: every cell
/// takes the owner's error if the owner is not a farm; otherwise a cell
/// takes its building-rule error, else `NotConnected` unless it is reached
/// by growing the network over the batch's passing cells, else
/// `FarmFieldLimitReached` once the farm's room is used up by earlier
/// connected cells, else its footprint.
pub open spec fn spec_field_batch_preview(
    size: GridSize,
    owner: Option<(BuildingKind, BuildingFootprint)>,
    linked: Seq<BuildingFootprint>,
    cells: Seq<CellCoord>,
    terrain: Seq<Option<TerrainKind>>,
    resource_cells: Seq<CellCoord>,
    existing: Seq<BuildingFootprint>,
) -> Seq<FieldPlacementPreview> {
    match spec_farm_footprint(owner) {
        Err(e) => Seq::new(cells.len(), |i: int| FieldPlacementPreview { coord: cells[i], result: Err(e) }),
        Ok(farm) => {
            let ok = field_ok_cells(size, cells, terrain, resource_cells, existing);
            let joined = grown(ok, farm, linked, ok.len());
            Seq::new(
                cells.len(),
                |i: int|
                    FieldPlacementPreview {
                        coord: cells[i],
                        result: match spec_field_footprint(size, cells[i], terrain, resource_cells, existing) {
                            Err(e) => Err(e),
                            Ok(f) => if !joined.contains(cells[i]) {
                                Err(FieldPlacementError::NotConnected)
                            } else if field_joined_count(size, cells.subrange(0, i), terrain, resource_cells, existing, joined)
                                >= field_room(linked.len() as int) {
                                Err(FieldPlacementError::FarmFieldLimitReached)
                            } else {
                                Ok(f)
                            },
                        },
                    },
            )
        },
    }
}

/// How many previews place a field.
pub open spec fn placed_fields(previews: Seq<FieldPlacementPreview>) -> nat
    decreases previews.len(),
{
    if previews.len() == 0 {
        0
    } else {
        placed_fields(previews.drop_last()) + if previews.last().result is Ok { 1nat } else { 0nat }
    }
}

/// The cells of a list of previews.
pub open spec fn field_preview_cells(previews: Seq<FieldPlacementPreview>) -> Seq<CellCoord> {
    previews.map_values(|p: FieldPlacementPreview| p.coord)
}

/// Previews placing fields at a batch of cells for one owner: the batch's
/// distinct cells in row-major order, each with its outcome (see
/// `spec_field_batch_preview`).
pub fn field_batch_preview(
    size: GridSize,
    owner: Option<(BuildingKind, BuildingFootprint)>,
    linked: &[BuildingFootprint],
    coords: &[CellCoord],
    terrain: &[Option<TerrainKind>],
    resource_cells: &[CellCoord],
    existing: &[BuildingFootprint],
) -> (r: Vec<FieldPlacementPreview>)
    requires
        terrain@.len() == size.width * size.height,
    ensures
        strictly_row_major(field_preview_cells(r@)),
        forall|c: CellCoord| field_preview_cells(r@).contains(c) <==> coords@.contains(c),
        r@ == spec_field_batch_preview(size, owner, linked@, field_preview_cells(r@), terrain@, resource_cells@, existing@),
        placed_fields(r@) <= field_room(linked@.len() as int),
{
    let all = copy_to_vec(coords);
    let cells = sort_and_deduplicate(&all);
    let mut out: Vec<FieldPlacementPreview> = Vec::new();
    let farm = match farm_footprint(owner) {
        Ok(f) => f,
        Err(e) => {
            let mut i: usize = 0;
            while i < cells.len()
                invariant
                    0 <= i <= cells@.len(),
                    out@.len() == i,
                    forall|k: int| 0 <= k < i ==> #[trigger] out@[k] == (FieldPlacementPreview { coord: cells@[k], result: Err(e) }),
                    placed_fields(out@) == 0,
                decreases cells@.len() - i,
            {
                let ghost before = out@;
                out.push(FieldPlacementPreview { coord: cells[i], result: Err(e) });
                proof {
                    assert(out@.drop_last() =~= before);
                }
                i = i + 1;
            }
            proof {
                assert(field_preview_cells(out@) =~= cells@);
                assert(out@ =~= spec_field_batch_preview(size, owner, linked@, cells@, terrain@, resource_cells@, existing@));
            }
            return out;
        },
    };
    let mut base: Vec<Result<BuildingFootprint, FieldPlacementError>> = Vec::new();
    let mut ok: Vec<CellCoord> = Vec::new();
    let mut i: usize = 0;
    while i < cells.len()
        invariant
            0 <= i <= cells@.len(),
            terrain@.len() == size.width * size.height,
            base@.len() == i,
            forall|k: int| 0 <= k < i ==> #[trigger] base@[k] == spec_field_footprint(size, cells@[k], terrain@, resource_cells@, existing@),
            ok@ == field_ok_cells(size, cells@.subrange(0, i as int), terrain@, resource_cells@, existing@),
        decreases cells@.len() - i,
    {
        let res = validate_field_footprint(size, cells[i], terrain, resource_cells, existing);
        proof {
            assert(cells@.subrange(0, i + 1).drop_last() =~= cells@.subrange(0, i as int));
        }
        if res.is_ok() {
            ok.push(cells[i]);
        }
        base.push(res);
        i = i + 1;
    }
    proof {
        assert(cells@.subrange(0, cells@.len() as int) =~= cells@);
    }
    let joined = connected_cells(ok.as_slice(), ok.len(), farm, linked);
    let room: usize = if linked.len() >= MAX_FIELDS_PER_FARM { 0 } else { MAX_FIELDS_PER_FARM - linked.len() };
    let mut accepted: usize = 0;
    let mut j: usize = 0;
    while j < cells.len()
        invariant
            0 <= j <= cells@.len(),
            base@.len() == cells@.len(),
            forall|k: int| 0 <= k < cells@.len() ==> #[trigger] base@[k] == spec_field_footprint(size, cells@[k], terrain@, resource_cells@, existing@),
            joined@ == grown(ok@, farm, linked@, ok@.len()),
            spec_farm_footprint(owner) == Ok::<BuildingFootprint, FieldPlacementError>(farm),
            ok@ == field_ok_cells(size, cells@, terrain@, resource_cells@, existing@),
            room == field_room(linked@.len() as int),
            accepted as int == (if field_joined_count(size, cells@.subrange(0, j as int), terrain@, resource_cells@, existing@, joined@) < room {
                field_joined_count(size, cells@.subrange(0, j as int), terrain@, resource_cells@, existing@, joined@) as int
            } else {
                room as int
            }),
            out@.len() == j,
            forall|k: int| 0 <= k < j ==> #[trigger] out@[k] == spec_field_batch_preview(size, owner, linked@, cells@, terrain@, resource_cells@, existing@)[k],
            placed_fields(out@) == accepted,
            accepted <= room,
        decreases cells@.len() - j,
    {
        let c = cells[j];
        let ghost count = field_joined_count(size, cells@.subrange(0, j as int), terrain@, resource_cells@, existing@, joined@);
        let result = match base[j] {
            Err(e) => Err(e),
            Ok(f) => {
                if !crate::plots::cell_listed(joined.as_slice(), c) {
                    Err(FieldPlacementError::NotConnected)
                } else if accepted >= room {
                    Err(FieldPlacementError::FarmFieldLimitReached)
                } else {
                    accepted = accepted + 1;
                    Ok(f)
                }
            },
        };
        proof {
            assert(cells@.subrange(0, j + 1).drop_last() =~= cells@.subrange(0, j as int));
            assert(cells@.subrange(0, j + 1).last() == c);
        }
        let ghost before = out@;
        out.push(FieldPlacementPreview { coord: c, result });
        proof {
            assert(out@.drop_last() =~= before);
        }
        j = j + 1;
    }
    proof {
        assert(field_preview_cells(out@) =~= cells@);
        assert(out@ =~= spec_field_batch_preview(size, owner, linked@, cells@, terrain@, resource_cells@, existing@));
    }
    out
}


/// Whether the field record at position `i` can be seeded (`harvest` false)
/// or harvested (`harvest` true): it is a Field owned by a Farm, and its crop
/// is seedable, or grown with room for food at the farm.
pub open spec fn field_work_open(fields: Seq<FieldRecord>, farms: Seq<FarmRecord>, i: int, harvest: bool) -> bool {
    let f = fields[i];
    &&& f.building.kind == BuildingKind::Field
    &&& match farm_position(farms, f.owner.farm) {
        Some(j) => farms[j].building.kind == BuildingKind::Farm && if harvest {
            f.crop.spec_is_grown() && farms[j].inventory.store().spec_free_size() > 0
        } else {
            f.crop.spec_is_seedable()
        },
        None => false,
    }
}

/// The fields among the first `n` records with open seeding (`harvest`
/// false) or harvesting (`harvest` true) work, in record order.
pub open spec fn fields_with_open_work(fields: Seq<FieldRecord>, farms: Seq<FarmRecord>, n: int, harvest: bool) -> Seq<EntityId>
    decreases n,
{
    if n <= 0 {
        seq![]
    } else {
        fields_with_open_work(fields, farms, n - 1, harvest) + if field_work_open(fields, farms, n - 1, harvest) {
            seq![fields[n - 1].entity]
        } else {
            seq![]
        }
    }
}

fn open_field_work(fields: &[FieldRecord], farms: &[FarmRecord], harvest: bool) -> (r: Vec<EntityId>)
    ensures
        r@ == fields_with_open_work(fields@, farms@, fields@.len() as int, harvest),
{
    let mut out: Vec<EntityId> = Vec::new();
    let mut i: usize = 0;
    while i < fields.len()
        invariant
            0 <= i <= fields@.len(),
            out@ == fields_with_open_work(fields@, farms@, i as int, harvest),
        decreases fields@.len() - i,
    {
        let f = fields[i];
        let open = if f.building.kind != BuildingKind::Field {
            false
        } else {
            match find_farm(farms, f.owner.farm) {
                Some(j) => farms[j].building.kind == BuildingKind::Farm && if harvest {
                    f.crop.is_grown() && farms[j].inventory.has_food_capacity()
                } else {
                    f.crop.is_seedable()
                },
                None => false,
            }
        };
        proof {
            assert(open == field_work_open(fields@, farms@, i as int, harvest));
        }
        if open {
            out.push(f.entity);
            proof {
                assert(out@ =~= fields_with_open_work(fields@, farms@, i as int, harvest) + seq![f.entity]);
            }
        } else {
            proof {
                assert(out@ =~= fields_with_open_work(fields@, farms@, i as int, harvest) + Seq::<EntityId>::empty());
            }
        }
        i = i + 1;
    }
    out
}

/// The changes to seeding and harvesting tasks.
pub struct FarmingTaskMaintenance {
    pub seed: TaskMaintenance,
    pub harvest: TaskMaintenance,
}

/// Keeps one seeding task per seedable field and one harvesting task per
/// harvestable field (see `field_work_open`): other tasks, and tasks
/// repeating an earlier task's field, are removed; fields without a task
/// get one.
pub fn maintain_farming_tasks(
    fields: &[FieldRecord],
    farms: &[FarmRecord],
    seed_tasks: &[TaskRecord],
    harvest_tasks: &[TaskRecord],
) -> (r: FarmingTaskMaintenance)
    ensures
        ({
            let seedable = fields_with_open_work(fields@, farms@, fields@.len() as int, false);
            let harvestable = fields_with_open_work(fields@, farms@, fields@.len() as int, true);
            &&& r.seed.despawn@ == despawned_tasks(seedable, seed_tasks@, seed_tasks@.len() as int)
            &&& r.seed.spawn_for@ == unrepresented(seedable, seed_tasks@, seedable.len() as int)
            &&& r.harvest.despawn@ == despawned_tasks(harvestable, harvest_tasks@, harvest_tasks@.len() as int)
            &&& r.harvest.spawn_for@ == unrepresented(harvestable, harvest_tasks@, harvestable.len() as int)
        }),
{
    let seedable = open_field_work(fields, farms, false);
    let harvestable = open_field_work(fields, farms, true);
    FarmingTaskMaintenance {
        seed: maintain_tasks(seedable.as_slice(), seed_tasks),
        harvest: maintain_tasks(harvestable.as_slice(), harvest_tasks),
    }
}


/// How many fields (blueprints and constructed) a farm has, and how many
/// of them are constructed.
pub fn farm_field_counts(plots: &[LinkedPlot], farm: EntityId) -> (r: (usize, usize))
    ensures
        r.0 == plots_of(plots@, farm, plots@.len() as int, false),
        r.1 == plots_of(plots@, farm, plots@.len() as int, true),
{
    linked_plot_counts(plots, farm)
}

} // verus!
