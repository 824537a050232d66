use vstd::prelude::*;
use crate::buildings::{
    Building, BuildingFootprint, BuildingKind, BuildingPlacementError, footprint_contains,
    spec_footprint_placement, validate_building_footprint_placement,
};
use crate::components::TerrainKind;
use crate::grid::GridSize;
use crate::navigation::{sort_and_deduplicate, strictly_row_major};
use crate::plots::{cell_listed, connected_cells, grown, joins_network, joins_plot_network, lemma_grown_shape};
use crate::plots::{LinkedPlot, linked_plot_counts, plots_of};
use crate::sorting::copy_to_vec;
use crate::tasks::{TaskMaintenance, TaskRecord, despawned_tasks, maintain_tasks, unrepresented};
use crate::entity::EntityId;
use crate::farming::{FieldWork, skill_point, credit_skill, FIELD_SEEDING_TICKS};
use crate::grid::CellCoord;
use crate::plots::PlotGrowth;
use crate::resources::{ResourceAmounts, ResourceInventory, ResourceKind, saturated_total};
use crate::skills::{NpcSkills, SkillKind};
use crate::time::SIMULATION_TICKS_PER_YEAR;

verus! {

pub const MAX_TREE_PLOTS_PER_FORESTER_LODGE: usize = 200;

pub const FORESTER_LODGE_INVENTORY_MAX_WOOD: u32 = 200;

/// Ticks of work to plant a tree plot: five times a field's seeding.
pub const TREE_PLOT_SEEDING_TICKS: u32 = FIELD_SEEDING_TICKS * 5;

/// Ticks a planted tree grows to maturity: five years.
pub const TREE_PLOT_GROWTH_TICKS: u32 = SIMULATION_TICKS_PER_YEAR * 5;

/// Ticks of work to cut a mature tree.
pub const TREE_PLOT_CUTTING_TICKS: u32 = 60;

/// Wood one cut yields.
pub const TREE_PLOT_WOOD_YIELD: u32 = 1;

/// Marker of NPCs that tend tree plots.
#[derive(Debug, Clone, Copy, PartialEq, Eq, Structural)]
pub struct Forester;

/// A forester lodge's store of cut wood.
#[derive(Debug, Clone, Copy, PartialEq, Eq)]
pub struct ForesterLodgeInventory {
    inventory: ResourceInventory,
}

impl ForesterLodgeInventory {
    pub closed spec fn store(self) -> ResourceInventory {
        self.inventory
    }

    pub fn empty() -> (r: Self)
        ensures
            r.store().spec_contents() == ResourceAmounts::zero_spec(),
            r.store().spec_max_size() == FORESTER_LODGE_INVENTORY_MAX_WOOD,
            r.store().wf(),
    {
        Self { inventory: ResourceInventory::empty(FORESTER_LODGE_INVENTORY_MAX_WOOD) }
    }

    pub fn contents(self) -> (r: ResourceAmounts)
        ensures
            r == self.store().spec_contents(),
    {
        self.inventory.contents()
    }

    pub fn max_size(self) -> (r: u32)
        ensures
            r == self.store().spec_max_size(),
    {
        self.inventory.max_size()
    }

    pub fn used_size(self) -> (r: u32)
        ensures
            r == saturated_total(self.store().spec_contents()),
    {
        self.inventory.used_size()
    }

    pub fn free_size(self) -> (r: u32)
        ensures
            r == self.store().spec_free_size(),
    {
        self.inventory.free_size()
    }

    pub fn wood(self) -> (r: u32)
        ensures
            r == self.store().spec_contents().wood,
    {
        self.inventory.contents().get(ResourceKind::Wood)
    }

    /// Room for the wood of one cut.
    pub fn has_wood_capacity(self) -> (r: bool)
        ensures
            r == (self.store().spec_free_size() >= TREE_PLOT_WOOD_YIELD),
    {
        self.free_size() >= TREE_PLOT_WOOD_YIELD
    }

    /// Adds wood if it fits; otherwise changes nothing.
    pub fn add_wood(&mut self, amount: u32) -> (r: bool)
        ensures
            r == (old(self).store().spec_contents().wood + amount <= u32::MAX && amount
                <= old(self).store().spec_free_size()),
            r ==> final(self).store().spec_contents() == old(self).store().spec_contents().with_amount(
                ResourceKind::Wood,
                (old(self).store().spec_contents().wood + amount) as u32,
            ),
            !r ==> *final(self) == *old(self),
            final(self).store().spec_max_size() == old(self).store().spec_max_size(),
            old(self).store().wf() ==> final(self).store().wf(),
    {
        self.inventory.add(ResourceKind::Wood, amount)
    }

    /// Removes wood if that much is held; otherwise changes nothing.
    pub fn consume_wood(&mut self, amount: u32) -> (r: bool)
        ensures
            r == (amount <= old(self).store().spec_contents().wood),
            r ==> final(self).store().spec_contents() == old(self).store().spec_contents().with_amount(
                ResourceKind::Wood,
                (old(self).store().spec_contents().wood - amount) as u32,
            ),
            !r ==> final(self).store().spec_contents() == old(self).store().spec_contents(),
            final(self).store().spec_max_size() == old(self).store().spec_max_size(),
            old(self).store().wf() ==> final(self).store().wf(),
    {
        self.inventory.consume(ResourceKind::Wood, amount)
    }

    /// Removes `amount` of a kind if that much is held; otherwise changes nothing.
    pub fn consume(&mut self, kind: ResourceKind, amount: u32) -> (r: bool)
        ensures
            r == (amount <= old(self).store().spec_contents().amount(kind)),
            r ==> final(self).store().spec_contents() == old(self).store().spec_contents().with_amount(
                kind,
                (old(self).store().spec_contents().amount(kind) - amount) as u32,
            ),
            !r ==> final(self).store().spec_contents() == old(self).store().spec_contents(),
            final(self).store().spec_max_size() == old(self).store().spec_max_size(),
            old(self).store().wf() ==> final(self).store().wf(),
    {
        self.inventory.consume(kind, amount)
    }
}

impl Default for ForesterLodgeInventory {
    fn default() -> (r: Self)
        ensures
            r.store().spec_contents() == ResourceAmounts::zero_spec(),
            r.store().spec_max_size() == FORESTER_LODGE_INVENTORY_MAX_WOOD,
    {
        Self::empty()
    }
}

/// The forester lodge a tree plot belongs to.
#[derive(Debug, Clone, Copy, PartialEq, Eq, Structural)]
pub struct TreePlotOwner {
    pub forester_lodge: EntityId,
}

impl TreePlotOwner {
    pub fn new(forester_lodge: EntityId) -> (r: Self)
        ensures
            r.forester_lodge == forester_lodge,
    {
        Self { forester_lodge }
    }

    pub fn lodge(self) -> (r: EntityId)
        ensures
            r == self.forester_lodge,
    {
        self.forester_lodge
    }

    pub fn forester_lodge(self) -> (r: EntityId)
        ensures
            r == self.forester_lodge,
    {
        self.forester_lodge
    }
}

/// The tree of a plot: planting for `TREE_PLOT_SEEDING_TICKS`, then growing
/// for `TREE_PLOT_GROWTH_TICKS`.
#[derive(Debug, Clone, Copy, PartialEq, Eq, Structural)]
pub struct TreePlotGrowth {
    pub growth: PlotGrowth,
}

/// What a tree plot shows.
#[derive(Debug, Clone, Copy, PartialEq, Eq, Structural)]
pub enum TreePlotState {
    Inactive,
    Seedable,
    Seeding,
    Sapling,
    Young,
    Mature,
}

impl TreePlotState {
    pub open spec fn label_text(self) -> Seq<char> {
        match self {
            TreePlotState::Inactive => "Inactive"@,
            TreePlotState::Seedable => "Seedable"@,
            TreePlotState::Seeding => "Seeding"@,
            TreePlotState::Sapling => "Sapling"@,
            TreePlotState::Young => "Young"@,
            TreePlotState::Mature => "Mature"@,
        }
    }

    pub fn label(self) -> (r: &'static str)
        ensures
            r@ == self.label_text(),
    {
        match self {
            TreePlotState::Inactive => "Inactive",
            TreePlotState::Seedable => "Seedable",
            TreePlotState::Seeding => "Seeding",
            TreePlotState::Sapling => "Sapling",
            TreePlotState::Young => "Young",
            TreePlotState::Mature => "Mature",
        }
    }
}

impl TreePlotGrowth {
    pub fn seedable() -> (r: Self)
        ensures
            r.growth == (PlotGrowth { seeding_progress_ticks: 0, growth_ticks: None }),
    {
        Self { growth: PlotGrowth::seedable() }
    }

    pub fn with_seeding_progress(seeding_progress_ticks: u32) -> (r: Self)
        ensures
            r.growth == (PlotGrowth { seeding_progress_ticks, growth_ticks: None }),
    {
        Self { growth: PlotGrowth::with_seeding_progress(seeding_progress_ticks) }
    }

    pub fn growing(growth_ticks: u32) -> (r: Self)
        ensures
            r.growth == (PlotGrowth { seeding_progress_ticks: TREE_PLOT_SEEDING_TICKS, growth_ticks: Some(growth_ticks) }),
    {
        Self { growth: PlotGrowth::growing(growth_ticks, TREE_PLOT_SEEDING_TICKS) }
    }

    pub fn seeding_progress_ticks(self) -> (r: u32)
        ensures
            r == self.growth.seeding_progress_ticks,
    {
        self.growth.seeding_progress_ticks()
    }

    pub fn growth_ticks(self) -> (r: Option<u32>)
        ensures
            r == self.growth.growth_ticks,
    {
        self.growth.growth_ticks()
    }

    pub open spec fn spec_is_seedable(self) -> bool {
        self.growth.spec_is_seedable(TREE_PLOT_SEEDING_TICKS)
    }

    pub open spec fn spec_is_mature(self) -> bool {
        match self.growth.growth_ticks {
            Some(t) => t >= TREE_PLOT_GROWTH_TICKS,
            None => false,
        }
    }

    pub fn is_seedable(self) -> (r: bool)
        ensures
            r == self.spec_is_seedable(),
    {
        self.growth.is_seedable(TREE_PLOT_SEEDING_TICKS)
    }

    pub fn is_mature(self) -> (r: bool)
        ensures
            r == self.spec_is_mature(),
    {
        match self.growth.growth_ticks() {
            Some(t) => t >= TREE_PLOT_GROWTH_TICKS,
            None => false,
        }
    }

    /// One tick of planting; `true` when the tree is in and growth starts.
    pub fn advance_seeding_tick(&mut self) -> (r: bool)
        ensures
            !old(self).spec_is_seedable() ==> !r && *final(self) == *old(self),
            old(self).spec_is_seedable() ==> {
                let next = old(self).growth.seeding_progress_ticks + 1;
                &&& r == (next >= TREE_PLOT_SEEDING_TICKS)
                &&& r ==> final(self).growth == PlotGrowth {
                    seeding_progress_ticks: TREE_PLOT_SEEDING_TICKS,
                    growth_ticks: Some(0),
                }
                &&& !r ==> final(self).growth == PlotGrowth {
                    seeding_progress_ticks: next as u32,
                    growth_ticks: None,
                }
            },
    {
        self.growth.advance_seeding_tick(TREE_PLOT_SEEDING_TICKS)
    }

    /// One tick of growth, stopping once mature.
    pub fn advance_growth_tick(&mut self)
        ensures
            final(self).growth.seeding_progress_ticks == old(self).growth.seeding_progress_ticks,
            final(self).growth.growth_ticks == (match old(self).growth.growth_ticks {
                Some(t) => Some(if t < TREE_PLOT_GROWTH_TICKS { (t + 1) as u32 } else { t }),
                None => None,
            }),
    {
        self.growth.advance_growth_tick(TREE_PLOT_GROWTH_TICKS)
    }

    /// Back to an empty plot, ready for planting.
    pub fn reset_after_cut(&mut self)
        ensures
            final(self).growth == (PlotGrowth { seeding_progress_ticks: 0, growth_ticks: None }),
    {
        self.growth.reset();
    }

    /// What the plot shows: inactive without a working lodge; seeding while
    /// someone plants it and planting is not done; otherwise by growth, young
    /// from half of the growth time.
    pub open spec fn spec_state(self, lodge_active: bool, actively_seeding: bool) -> TreePlotState {
        if !lodge_active {
            TreePlotState::Inactive
        } else if actively_seeding && self.spec_is_seedable() {
            TreePlotState::Seeding
        } else {
            match self.growth.growth_ticks {
                None => TreePlotState::Seedable,
                Some(t) => if t >= TREE_PLOT_GROWTH_TICKS {
                    TreePlotState::Mature
                } else if t >= TREE_PLOT_GROWTH_TICKS / 2 {
                    TreePlotState::Young
                } else {
                    TreePlotState::Sapling
                },
            }
        }
    }

    pub fn state(self, lodge_active: bool, actively_seeding: bool) -> (r: TreePlotState)
        ensures
            r == self.spec_state(lodge_active, actively_seeding),
    {
        if !lodge_active {
            return TreePlotState::Inactive;
        }
        if actively_seeding && self.is_seedable() {
            return TreePlotState::Seeding;
        }
        match self.growth.growth_ticks() {
            None => TreePlotState::Seedable,
            Some(t) => {
                if t >= TREE_PLOT_GROWTH_TICKS {
                    TreePlotState::Mature
                } else if t >= TREE_PLOT_GROWTH_TICKS / 2 {
                    TreePlotState::Young
                } else {
                    TreePlotState::Sapling
                }
            },
        }
    }
}

impl Default for TreePlotGrowth {
    fn default() -> (r: Self)
        ensures
            r.growth == (PlotGrowth { seeding_progress_ticks: 0, growth_ticks: None }),
    {
        Self::seedable()
    }
}

/// Why a tree plot cannot be placed.
#[derive(Debug, Clone, Copy, PartialEq, Eq, Structural)]
pub enum TreePlotPlacementError {
    OutOfBounds,
    OverlapsBuilding,
    InvalidTerrain,
    BlockedByResourceNode,
    OwnerMissing,
    OwnerNotForesterLodge,
    NotConnected,
    ForesterLodgeTreePlotLimitReached,
}

/// Building placement errors as tree plot placement errors; a kind that
/// needs an owner counts as a missing owner.
pub open spec fn spec_tree_plot_error_from(value: BuildingPlacementError) -> TreePlotPlacementError {
    match value {
        BuildingPlacementError::OutOfBounds => TreePlotPlacementError::OutOfBounds,
        BuildingPlacementError::OverlapsBuilding => TreePlotPlacementError::OverlapsBuilding,
        BuildingPlacementError::InvalidTerrain => TreePlotPlacementError::InvalidTerrain,
        BuildingPlacementError::BlockedByResourceNode => TreePlotPlacementError::BlockedByResourceNode,
        BuildingPlacementError::FieldRequiresFarm | BuildingPlacementError::TreePlotRequiresLodge => TreePlotPlacementError::OwnerMissing,
    }
}

impl From<BuildingPlacementError> for TreePlotPlacementError {
    fn from(value: BuildingPlacementError) -> (r: Self) {
        match value {
            BuildingPlacementError::OutOfBounds => TreePlotPlacementError::OutOfBounds,
            BuildingPlacementError::OverlapsBuilding => TreePlotPlacementError::OverlapsBuilding,
            BuildingPlacementError::InvalidTerrain => TreePlotPlacementError::InvalidTerrain,
            BuildingPlacementError::BlockedByResourceNode => TreePlotPlacementError::BlockedByResourceNode,
            BuildingPlacementError::FieldRequiresFarm | BuildingPlacementError::TreePlotRequiresLodge => TreePlotPlacementError::OwnerMissing,
        }
    }
}

impl vstd::std_specs::convert::FromSpecImpl<BuildingPlacementError> for TreePlotPlacementError {
    open spec fn obeys_from_spec() -> bool {
        true
    }

    open spec fn from_spec(value: BuildingPlacementError) -> TreePlotPlacementError {
        spec_tree_plot_error_from(value)
    }
}

/// A tree plot waiting to be planted.
#[derive(Debug, Clone, Copy, PartialEq, Eq, Structural)]
pub struct SeedTreePlot {
    pub tree_plot: EntityId,
}

impl SeedTreePlot {
    pub fn new(tree_plot: EntityId) -> (r: Self)
        ensures
            r.tree_plot == tree_plot,
    {
        Self { tree_plot }
    }

    pub fn tree_plot(self) -> (r: EntityId)
        ensures
            r == self.tree_plot,
    {
        self.tree_plot
    }

    pub fn label() -> (r: &'static str)
        ensures
            r@ == "SeedTreePlot"@,
    {
        "SeedTreePlot"
    }
}

/// A mature tree plot waiting to be cut.
#[derive(Debug, Clone, Copy, PartialEq, Eq, Structural)]
pub struct CutTreePlot {
    pub tree_plot: EntityId,
}

impl CutTreePlot {
    pub fn new(tree_plot: EntityId) -> (r: Self)
        ensures
            r.tree_plot == tree_plot,
    {
        Self { tree_plot }
    }

    pub fn tree_plot(self) -> (r: EntityId)
        ensures
            r == self.tree_plot,
    {
        self.tree_plot
    }

    pub fn label() -> (r: &'static str)
        ensures
            r@ == "CutTreePlot"@,
    {
        "CutTreePlot"
    }
}

/// A forester's work of planting a tree plot.
#[derive(Debug, Clone, Copy, PartialEq, Eq, Structural)]
pub struct AiSeedTreePlot {
    pub tree_plot: EntityId,
}

impl AiSeedTreePlot {
    pub fn new(tree_plot: EntityId) -> (r: Self)
        ensures
            r.tree_plot == tree_plot,
    {
        Self { tree_plot }
    }

    pub fn tree_plot(self) -> (r: EntityId)
        ensures
            r == self.tree_plot,
    {
        self.tree_plot
    }
}

/// A forester's work of cutting a tree plot, with ticks of progress so far.
#[derive(Debug, Clone, Copy, PartialEq, Eq, Structural)]
pub struct AiCutTreePlot {
    pub tree_plot: EntityId,
    pub progress_ticks: u32,
}

impl AiCutTreePlot {
    pub fn new(tree_plot: EntityId) -> (r: Self)
        ensures
            r.tree_plot == tree_plot,
            r.progress_ticks == 0,
    {
        Self { tree_plot, progress_ticks: 0 }
    }

    pub fn tree_plot(self) -> (r: EntityId)
        ensures
            r == self.tree_plot,
    {
        self.tree_plot
    }

    pub fn progress_ticks(self) -> (r: u32)
        ensures
            r == self.progress_ticks,
    {
        self.progress_ticks
    }

    /// Counts one tick, saturating.
    pub fn advance_tick(&mut self)
        ensures
            final(self).tree_plot == old(self).tree_plot,
            final(self).progress_ticks == (if old(self).progress_ticks == u32::MAX {
                u32::MAX as int
            } else {
                old(self).progress_ticks + 1
            }),
    {
        self.progress_ticks = self.progress_ticks.saturating_add(1);
    }
}

/// A tree plot entity with its building, owner and growth.
#[derive(Debug, Clone, Copy, PartialEq, Eq, Structural)]
pub struct TreePlotRecord {
    pub entity: EntityId,
    pub building: Building,
    pub owner: TreePlotOwner,
    pub growth: TreePlotGrowth,
}

/// A forester lodge entity with its building and inventory.
#[derive(Debug, Clone, Copy, PartialEq, Eq)]
pub struct LodgeRecord {
    pub entity: EntityId,
    pub building: Building,
    pub inventory: ForesterLodgeInventory,
}

/// Position of the first tree plot record of an entity, if any.
#[verifier::opaque]
pub open spec fn plot_position(plots: Seq<TreePlotRecord>, e: EntityId) -> Option<int> {
    if exists|i: int| 0 <= i < plots.len() && plots[i].entity == e {
        Some(choose|i: int| 0 <= i < plots.len() && plots[i].entity == e && forall|j: int| 0 <= j < i ==> (#[trigger] plots[j]).entity != e)
    } else {
        None
    }
}

/// Position of the first lodge record of an entity, if any.
#[verifier::opaque]
pub open spec fn lodge_position(lodges: Seq<LodgeRecord>, e: EntityId) -> Option<int> {
    if exists|i: int| 0 <= i < lodges.len() && lodges[i].entity == e {
        Some(choose|i: int| 0 <= i < lodges.len() && lodges[i].entity == e && forall|j: int| 0 <= j < i ==> (#[trigger] lodges[j]).entity != e)
    } else {
        None
    }
}

fn find_plot(plots: &[TreePlotRecord], e: EntityId) -> (r: Option<usize>)
    ensures
        r matches Some(i) ==> plot_position(plots@, e) == Some(i as int) && i < plots@.len(),
        r is None ==> plot_position(plots@, e) is None,
{
    let mut i: usize = 0;
    while i < plots.len()
        invariant
            0 <= i <= plots@.len(),
            forall|j: int| 0 <= j < i ==> (#[trigger] plots@[j]).entity != e,
        decreases plots@.len() - i,
    {
        if plots[i].entity == e {
            proof {
                reveal(plot_position);
                reveal(lodge_position);
                let c = choose|c: int| 0 <= c < plots@.len() && plots@[c].entity == e && forall|j: int| 0 <= j < c ==> (#[trigger] plots@[j]).entity != e;
                if c > i {
                    assert(plots@[i as int].entity == e);
                }
            }
            return Some(i);
        }
        i = i + 1;
    }
    proof {
        reveal(plot_position);
        reveal(lodge_position);
    }
    None
}

fn find_lodge(lodges: &[LodgeRecord], e: EntityId) -> (r: Option<usize>)
    ensures
        r matches Some(i) ==> lodge_position(lodges@, e) == Some(i as int) && i < lodges@.len(),
        r is None ==> lodge_position(lodges@, e) is None,
{
    let mut i: usize = 0;
    while i < lodges.len()
        invariant
            0 <= i <= lodges@.len(),
            forall|j: int| 0 <= j < i ==> (#[trigger] lodges@[j]).entity != e,
        decreases lodges@.len() - i,
    {
        if lodges[i].entity == e {
            proof {
                reveal(plot_position);
                reveal(lodge_position);
                let c = choose|c: int| 0 <= c < lodges@.len() && lodges@[c].entity == e && forall|j: int| 0 <= j < c ==> (#[trigger] lodges@[j]).entity != e;
                if c > i {
                    assert(lodges@[i as int].entity == e);
                }
            }
            return Some(i);
        }
        i = i + 1;
    }
    proof {
        reveal(plot_position);
        reveal(lodge_position);
    }
    None
}

/// Where to stand to plant a plot, when planting is possible: the plot is
/// a seedable Tree Plot owned by a Forester Lodge.
pub open spec fn spec_tree_plot_seeding_target(plots: Seq<TreePlotRecord>, lodges: Seq<LodgeRecord>, plot: EntityId) -> Option<CellCoord> {
    match plot_position(plots, plot) {
        None => None,
        Some(i) => {
            let p = plots[i];
            if p.building.kind != BuildingKind::TreePlot || !p.growth.spec_is_seedable() {
                None
            } else {
                match lodge_position(lodges, p.owner.forester_lodge) {
                    Some(j) => if lodges[j].building.kind == BuildingKind::ForesterLodge {
                        Some(p.building.footprint.origin)
                    } else {
                        None
                    },
                    None => None,
                }
            }
        },
    }
}

/// Where to stand to cut a plot, when cutting is possible: the plot is a
/// mature Tree Plot owned by a Forester Lodge with room for its wood.
pub open spec fn spec_tree_plot_cutting_target(plots: Seq<TreePlotRecord>, lodges: Seq<LodgeRecord>, plot: EntityId) -> Option<CellCoord> {
    match plot_position(plots, plot) {
        None => None,
        Some(i) => {
            let p = plots[i];
            if p.building.kind != BuildingKind::TreePlot || !p.growth.spec_is_mature() {
                None
            } else {
                match lodge_position(lodges, p.owner.forester_lodge) {
                    Some(j) => if lodges[j].building.kind == BuildingKind::ForesterLodge
                        && lodges[j].inventory.store().spec_free_size() >= TREE_PLOT_WOOD_YIELD {
                        Some(p.building.footprint.origin)
                    } else {
                        None
                    },
                    None => None,
                }
            }
        },
    }
}

/// Some record of an entity means a first one.
proof fn lemma_first_plot(plots: Seq<TreePlotRecord>, e: EntityId, w: int)
    requires
        0 <= w < plots.len(),
        plots[w].entity == e,
    ensures
        exists|i: int| 0 <= i < plots.len() && plots[i].entity == e && forall|j: int| 0 <= j < i ==> (#[trigger] plots[j]).entity != e,
    decreases w,
{
    if exists|v: int| 0 <= v < w && (#[trigger] plots[v]).entity == e {
        let v = choose|v: int| 0 <= v < w && (#[trigger] plots[v]).entity == e;
        lemma_first_plot(plots, e, v);
    } else {
        assert(0 <= w < plots.len() && plots[w].entity == e && forall|j: int| 0 <= j < w ==> (#[trigger] plots[j]).entity != e);
    }
}

/// Some record of an entity means a first one.
proof fn lemma_first_lodge(lodges: Seq<LodgeRecord>, e: EntityId, w: int)
    requires
        0 <= w < lodges.len(),
        lodges[w].entity == e,
    ensures
        exists|i: int| 0 <= i < lodges.len() && lodges[i].entity == e && forall|j: int| 0 <= j < i ==> (#[trigger] lodges[j]).entity != e,
    decreases w,
{
    if exists|v: int| 0 <= v < w && (#[trigger] lodges[v]).entity == e {
        let v = choose|v: int| 0 <= v < w && (#[trigger] lodges[v]).entity == e;
        lemma_first_lodge(lodges, e, v);
    } else {
        assert(0 <= w < lodges.len() && lodges[w].entity == e && forall|j: int| 0 <= j < w ==> (#[trigger] lodges[j]).entity != e);
    }
}

/// A forester is only sent to cut a tree plot whose tree is mature: the
/// first record of the entity is a TreePlot with mature growth, owned by a
/// Forester Lodge with room for its wood, and the forester goes to that
/// plot's origin.
pub proof fn law_only_mature_tree_plots_are_cut(plots: Seq<TreePlotRecord>, lodges: Seq<LodgeRecord>, plot: EntityId)
    ensures
        spec_tree_plot_cutting_target(plots, lodges, plot) is Some ==> exists|i: int| {
            &&& 0 <= i < plots.len()
            &&& (#[trigger] plots[i]).entity == plot
            &&& forall|k: int| 0 <= k < i ==> (#[trigger] plots[k]).entity != plot
            &&& plots[i].building.kind == BuildingKind::TreePlot
            &&& plots[i].growth.spec_is_mature()
            &&& spec_tree_plot_cutting_target(plots, lodges, plot) == Some(plots[i].building.footprint.origin)
            &&& exists|j: int| 0 <= j < lodges.len() && (#[trigger] lodges[j]).entity == plots[i].owner.forester_lodge
                && lodges[j].building.kind == BuildingKind::ForesterLodge
                && lodges[j].inventory.store().spec_free_size() >= TREE_PLOT_WOOD_YIELD
        },
{
    reveal(plot_position);
    reveal(lodge_position);
    if spec_tree_plot_cutting_target(plots, lodges, plot) is Some {
        let w = choose|w: int| 0 <= w < plots.len() && plots[w].entity == plot;
        lemma_first_plot(plots, plot, w);
        let i = plot_position(plots, plot).unwrap();
        let u = choose|u: int| 0 <= u < lodges.len() && lodges[u].entity == plots[i].owner.forester_lodge;
        lemma_first_lodge(lodges, plots[i].owner.forester_lodge, u);
        let j = lodge_position(lodges, plots[i].owner.forester_lodge).unwrap();
        assert(lodges[j].entity == plots[i].owner.forester_lodge);
        assert(plots[i].entity == plot);
    }
}

pub fn tree_plot_seeding_is_actionable(plot: EntityId, plots: &[TreePlotRecord], lodges: &[LodgeRecord]) -> (r: Option<CellCoord>)
    ensures
        r == spec_tree_plot_seeding_target(plots@, lodges@, plot),
{
    let i = match find_plot(plots, plot) {
        Some(i) => i,
        None => {
            return None;
        },
    };
    let p = plots[i];
    if p.building.kind != BuildingKind::TreePlot || !p.growth.is_seedable() {
        return None;
    }
    match find_lodge(lodges, p.owner.forester_lodge) {
        Some(j) => {
            if lodges[j].building.kind == BuildingKind::ForesterLodge {
                Some(p.building.footprint.origin)
            } else {
                None
            }
        },
        None => None,
    }
}

pub fn tree_plot_cutting_is_actionable(plot: EntityId, plots: &[TreePlotRecord], lodges: &[LodgeRecord]) -> (r: Option<CellCoord>)
    ensures
        r == spec_tree_plot_cutting_target(plots@, lodges@, plot),
{
    let i = match find_plot(plots, plot) {
        Some(i) => i,
        None => {
            return None;
        },
    };
    let p = plots[i];
    if p.building.kind != BuildingKind::TreePlot || !p.growth.is_mature() {
        return None;
    }
    match find_lodge(lodges, p.owner.forester_lodge) {
        Some(j) => {
            if lodges[j].building.kind == BuildingKind::ForesterLodge && lodges[j].inventory.has_wood_capacity() {
                Some(p.building.footprint.origin)
            } else {
                None
            }
        },
        None => None,
    }
}

/// One tick of planting by an NPC (`eligible`: a forester busy with nothing
/// else) standing at `position`. The work stops when the NPC is not
/// eligible, the plot or lodge is missing or of the wrong kind, the plot is
/// not seedable, or the NPC is off the plot; otherwise the plot advances one
/// tick of planting, and when the tree is in, the Lumberjack skill gains a
/// point and the work stops.
pub fn seed_tree_plot_tick(
    eligible: bool,
    position: CellCoord,
    plot: Option<Building>,
    lodge_kind: Option<BuildingKind>,
    growth: &mut TreePlotGrowth,
    skills: &mut Option<NpcSkills>,
) -> (r: FieldWork)
    ensures
        ({
            let works = eligible && plot is Some && lodge_kind is Some && plot.unwrap().kind == BuildingKind::TreePlot
                && lodge_kind.unwrap() == BuildingKind::ForesterLodge && old(growth).spec_is_seedable()
                && footprint_contains(plot.unwrap().footprint, position);
            let done = old(growth).growth.seeding_progress_ticks + 1 >= TREE_PLOT_SEEDING_TICKS;
            &&& !works ==> r == FieldWork::Stop && *final(growth) == *old(growth) && *final(skills) == *old(skills)
            &&& works ==> {
                &&& final(growth).growth == if done {
                    PlotGrowth { seeding_progress_ticks: TREE_PLOT_SEEDING_TICKS, growth_ticks: Some(0) }
                } else {
                    PlotGrowth { seeding_progress_ticks: (old(growth).growth.seeding_progress_ticks + 1) as u32, growth_ticks: None }
                }
                &&& r == if done { FieldWork::Stop } else { FieldWork::Continue }
                &&& !done ==> *final(skills) == *old(skills)
                &&& done ==> skill_point(*old(skills), *final(skills), SkillKind::Lumberjack)
            }
        }),
{
    let b = match plot {
        Some(b) => b,
        None => {
            return FieldWork::Stop;
        },
    };
    let lk = match lodge_kind {
        Some(k) => k,
        None => {
            return FieldWork::Stop;
        },
    };
    if !eligible || b.kind != BuildingKind::TreePlot || lk != BuildingKind::ForesterLodge || !growth.is_seedable()
        || !b.footprint.contains(position) {
        return FieldWork::Stop;
    }
    if growth.advance_seeding_tick() {
        credit_skill(skills, SkillKind::Lumberjack);
        FieldWork::Stop
    } else {
        FieldWork::Continue
    }
}

/// One tick of cutting by an NPC (`eligible` as for planting) at
/// `position`. The work stops when the NPC is not eligible, the plot or
/// lodge is missing or of the wrong kind, the tree is not mature, the lodge
/// has no room for its wood, or the NPC is off the plot. Otherwise the work
/// advances a tick; once `TREE_PLOT_CUTTING_TICKS` are reached, the wood
/// goes into the lodge if it fits, in which case the plot is reset and the
/// Lumberjack skill gains a point, and the work stops either way.
pub fn cut_tree_plot_tick(
    eligible: bool,
    position: CellCoord,
    cut: &mut AiCutTreePlot,
    plot: Option<Building>,
    lodge_kind: Option<BuildingKind>,
    growth: &mut TreePlotGrowth,
    lodge_inventory: &mut ForesterLodgeInventory,
    skills: &mut Option<NpcSkills>,
) -> (r: FieldWork)
    ensures
        final(cut).tree_plot == old(cut).tree_plot,
        ({
            let works = eligible && plot is Some && lodge_kind is Some && plot.unwrap().kind == BuildingKind::TreePlot
                && lodge_kind.unwrap() == BuildingKind::ForesterLodge && old(growth).spec_is_mature()
                && old(lodge_inventory).store().spec_free_size() >= TREE_PLOT_WOOD_YIELD
                && footprint_contains(plot.unwrap().footprint, position);
            let ticks = if old(cut).progress_ticks == u32::MAX {
                u32::MAX as int
            } else {
                old(cut).progress_ticks + 1
            };
            let c0 = old(lodge_inventory).store().spec_contents();
            let fits = c0.wood + TREE_PLOT_WOOD_YIELD <= u32::MAX;
            &&& !works ==> r == FieldWork::Stop && *final(cut) == *old(cut) && *final(growth) == *old(growth)
                && *final(lodge_inventory) == *old(lodge_inventory) && *final(skills) == *old(skills)
            &&& works ==> final(cut).progress_ticks == ticks
            &&& works && ticks < TREE_PLOT_CUTTING_TICKS ==> r == FieldWork::Continue && *final(growth) == *old(growth)
                && *final(lodge_inventory) == *old(lodge_inventory) && *final(skills) == *old(skills)
            &&& works && ticks >= TREE_PLOT_CUTTING_TICKS ==> r == FieldWork::Stop
            &&& works && ticks >= TREE_PLOT_CUTTING_TICKS && !fits ==> *final(growth) == *old(growth)
                && *final(lodge_inventory) == *old(lodge_inventory) && *final(skills) == *old(skills)
            &&& works && ticks >= TREE_PLOT_CUTTING_TICKS && fits ==> {
                &&& final(lodge_inventory).store().spec_contents() == c0.with_amount(ResourceKind::Wood, (c0.wood + TREE_PLOT_WOOD_YIELD) as u32)
                &&& final(growth).growth == PlotGrowth { seeding_progress_ticks: 0, growth_ticks: None }
                &&& skill_point(*old(skills), *final(skills), SkillKind::Lumberjack)
            }
        }),
{
    let b = match plot {
        Some(b) => b,
        None => {
            return FieldWork::Stop;
        },
    };
    let lk = match lodge_kind {
        Some(k) => k,
        None => {
            return FieldWork::Stop;
        },
    };
    if !eligible || b.kind != BuildingKind::TreePlot || lk != BuildingKind::ForesterLodge || !growth.is_mature()
        || !lodge_inventory.has_wood_capacity() || !b.footprint.contains(position) {
        return FieldWork::Stop;
    }
    cut.advance_tick();
    if cut.progress_ticks() < TREE_PLOT_CUTTING_TICKS {
        return FieldWork::Continue;
    }
    if lodge_inventory.add_wood(TREE_PLOT_WOOD_YIELD) {
        growth.reset_after_cut();
        credit_skill(skills, SkillKind::Lumberjack);
    }
    FieldWork::Stop
}


/// The preview of placing a tree plot at a cell: its footprint, or why it
/// cannot be placed.
#[derive(Debug, Clone, Copy, PartialEq, Eq)]
pub struct TreePlotPlacementPreview {
    pub coord: CellCoord,
    pub result: Result<BuildingFootprint, TreePlotPlacementError>,
}

/// The footprint of a tree plot's owner, from the kind and footprint of the
/// owner's building (or, lacking one, its blueprint).
pub open spec fn spec_lodge_footprint(owner: Option<(BuildingKind, BuildingFootprint)>) -> Result<BuildingFootprint, TreePlotPlacementError> {
    match owner {
        None => Err(TreePlotPlacementError::OwnerMissing),
        Some((kind, footprint)) => if kind == BuildingKind::ForesterLodge {
            Ok(footprint)
        } else {
            Err(TreePlotPlacementError::OwnerNotForesterLodge)
        },
    }
}

pub fn forester_lodge_footprint(owner: Option<(BuildingKind, BuildingFootprint)>) -> (r: Result<BuildingFootprint, TreePlotPlacementError>)
    ensures
        r == spec_lodge_footprint(owner),
{
    match owner {
        None => Err(TreePlotPlacementError::OwnerMissing),
        Some((kind, footprint)) => if kind == BuildingKind::ForesterLodge {
            Ok(footprint)
        } else {
            Err(TreePlotPlacementError::OwnerNotForesterLodge)
        },
    }
}

/// The footprint a tree plot would take at a cell, by the building
/// placement rules, with their errors as tree plot errors.
pub open spec fn spec_tree_plot_footprint(
    size: GridSize,
    coord: CellCoord,
    terrain: Seq<Option<TerrainKind>>,
    resource_cells: Seq<CellCoord>,
    existing: Seq<BuildingFootprint>,
) -> Result<BuildingFootprint, TreePlotPlacementError> {
    match spec_footprint_placement(size, BuildingKind::TreePlot, coord, terrain, resource_cells, existing) {
        Ok(f) => Ok(f),
        Err(e) => Err(spec_tree_plot_error_from(e)),
    }
}

fn validate_tree_plot_footprint(
    size: GridSize,
    coord: CellCoord,
    terrain: &[Option<TerrainKind>],
    resource_cells: &[CellCoord],
    existing: &[BuildingFootprint],
) -> (r: Result<BuildingFootprint, TreePlotPlacementError>)
    requires
        terrain@.len() == size.width * size.height,
    ensures
        r == spec_tree_plot_footprint(size, coord, terrain@, resource_cells@, existing@),
{
    match validate_building_footprint_placement(size, BuildingKind::TreePlot, coord, terrain, resource_cells, existing) {
        Ok(f) => Ok(f),
        Err(e) => Err(TreePlotPlacementError::from(e)),
    }
}

/// How many more tree plots a lodge with `linked` plots may take.
pub open spec fn tree_plot_room(linked: int) -> int {
    if linked >= MAX_TREE_PLOTS_PER_FORESTER_LODGE { 0 } else { MAX_TREE_PLOTS_PER_FORESTER_LODGE - linked }
}

/// Placing one tree plot for an owner whose plots have the footprints
/// `linked`: the owner must be a forester lodge with room for another plot,
/// the footprint must pass the building rules, and the cell must border the
/// lodge or one of its plots.
pub open spec fn spec_tree_plot_placement(
    size: GridSize,
    owner: Option<(BuildingKind, BuildingFootprint)>,
    linked: Seq<BuildingFootprint>,
    coord: CellCoord,
    terrain: Seq<Option<TerrainKind>>,
    resource_cells: Seq<CellCoord>,
    existing: Seq<BuildingFootprint>,
) -> Result<BuildingFootprint, TreePlotPlacementError> {
    match spec_lodge_footprint(owner) {
        Err(e) => Err(e),
        Ok(lodge) => if linked.len() >= MAX_TREE_PLOTS_PER_FORESTER_LODGE {
            Err(TreePlotPlacementError::ForesterLodgeTreePlotLimitReached)
        } else {
            match spec_tree_plot_footprint(size, coord, terrain, resource_cells, existing) {
                Err(e) => Err(e),
                Ok(f) => if joins_network(coord, lodge, linked, seq![]) {
                    Ok(f)
                } else {
                    Err(TreePlotPlacementError::NotConnected)
                },
            }
        },
    }
}

/// Validates placing one tree plot blueprint (see `spec_tree_plot_placement`).
pub fn validate_tree_plot_blueprint_placement(
    size: GridSize,
    owner: Option<(BuildingKind, BuildingFootprint)>,
    linked: &[BuildingFootprint],
    coord: CellCoord,
    terrain: &[Option<TerrainKind>],
    resource_cells: &[CellCoord],
    existing: &[BuildingFootprint],
) -> (r: Result<BuildingFootprint, TreePlotPlacementError>)
    requires
        terrain@.len() == size.width * size.height,
    ensures
        r == spec_tree_plot_placement(size, owner, linked@, coord, terrain@, resource_cells@, existing@),
{
    let lodge = match forester_lodge_footprint(owner) {
        Ok(f) => f,
        Err(e) => return Err(e),
    };
    if linked.len() >= MAX_TREE_PLOTS_PER_FORESTER_LODGE {
        return Err(TreePlotPlacementError::ForesterLodgeTreePlotLimitReached);
    }
    let footprint = match validate_tree_plot_footprint(size, coord, terrain, resource_cells, existing) {
        Ok(f) => f,
        Err(e) => return Err(e),
    };
    let none: Vec<CellCoord> = Vec::new();
    proof {
        assert(none@ =~= Seq::<CellCoord>::empty());
    }
    if !joins_plot_network(coord, lodge, linked, none.as_slice()) {
        return Err(TreePlotPlacementError::NotConnected);
    }
    Ok(footprint)
}

/// The cells of a batch whose tree plot footprints pass the building rules,
/// in order.
pub open spec fn tree_plot_ok_cells(
    size: GridSize,
    cells: Seq<CellCoord>,
    terrain: Seq<Option<TerrainKind>>,
    resource_cells: Seq<CellCoord>,
    existing: Seq<BuildingFootprint>,
) -> Seq<CellCoord>
    decreases cells.len(),
{
    if cells.len() == 0 {
        seq![]
    } else {
        let p = tree_plot_ok_cells(size, cells.drop_last(), terrain, resource_cells, existing);
        if spec_tree_plot_footprint(size, cells.last(), terrain, resource_cells, existing) is Ok {
            p.push(cells.last())
        } else {
            p
        }
    }
}

/// The previews of a batch of distinct cells in row-major order: every cell
/// takes the owner's error if the owner is not a forester lodge; otherwise a
/// cell takes its building-rule error, else `NotConnected` unless growing
/// the network over the batch's passing cells reaches it, else
/// `ForesterLodgeTreePlotLimitReached` unless growing it only as far as the
/// lodge's room reaches it, else its footprint.
pub open spec fn spec_tree_plot_batch_preview(
    size: GridSize,
    owner: Option<(BuildingKind, BuildingFootprint)>,
    linked: Seq<BuildingFootprint>,
    cells: Seq<CellCoord>,
    terrain: Seq<Option<TerrainKind>>,
    resource_cells: Seq<CellCoord>,
    existing: Seq<BuildingFootprint>,
) -> Seq<TreePlotPlacementPreview> {
    match spec_lodge_footprint(owner) {
        Err(e) => Seq::new(cells.len(), |i: int| TreePlotPlacementPreview { coord: cells[i], result: Err(e) }),
        Ok(lodge) => {
            let ok = tree_plot_ok_cells(size, cells, terrain, resource_cells, existing);
            let reachable = grown(ok, lodge, linked, ok.len());
            let accepted = grown(ok, lodge, linked, tree_plot_room(linked.len() as int) as nat);
            Seq::new(
                cells.len(),
                |i: int|
                    TreePlotPlacementPreview {
                        coord: cells[i],
                        result: match spec_tree_plot_footprint(size, cells[i], terrain, resource_cells, existing) {
                            Err(e) => Err(e),
                            Ok(f) => if !reachable.contains(cells[i]) {
                                Err(TreePlotPlacementError::NotConnected)
                            } else if !accepted.contains(cells[i]) {
                                Err(TreePlotPlacementError::ForesterLodgeTreePlotLimitReached)
                            } else {
                                Ok(f)
                            },
                        },
                    },
            )
        },
    }
}

/// How many previews place a tree plot.
pub open spec fn placed_tree_plots(previews: Seq<TreePlotPlacementPreview>) -> nat
    decreases previews.len(),
{
    if previews.len() == 0 {
        0
    } else {
        placed_tree_plots(previews.drop_last()) + if previews.last().result is Ok { 1nat } else { 0nat }
    }
}

/// The cells of a list of previews.
pub open spec fn tree_plot_preview_cells(previews: Seq<TreePlotPlacementPreview>) -> Seq<CellCoord> {
    previews.map_values(|p: TreePlotPlacementPreview| p.coord)
}

/// Previews placing tree plots at a batch of cells for one owner: the
/// batch's distinct cells in row-major order, each with its outcome (see
/// `spec_tree_plot_batch_preview`).
pub fn tree_plot_batch_preview(
    size: GridSize,
    owner: Option<(BuildingKind, BuildingFootprint)>,
    linked: &[BuildingFootprint],
    coords: &[CellCoord],
    terrain: &[Option<TerrainKind>],
    resource_cells: &[CellCoord],
    existing: &[BuildingFootprint],
) -> (r: Vec<TreePlotPlacementPreview>)
    requires
        terrain@.len() == size.width * size.height,
    ensures
        strictly_row_major(tree_plot_preview_cells(r@)),
        forall|c: CellCoord| tree_plot_preview_cells(r@).contains(c) <==> coords@.contains(c),
        r@ == spec_tree_plot_batch_preview(size, owner, linked@, tree_plot_preview_cells(r@), terrain@, resource_cells@, existing@),
        placed_tree_plots(r@) <= tree_plot_room(linked@.len() as int),
{
    let all = copy_to_vec(coords);
    let cells = sort_and_deduplicate(&all);
    let mut out: Vec<TreePlotPlacementPreview> = Vec::new();
    let lodge = match forester_lodge_footprint(owner) {
        Ok(f) => f,
        Err(e) => {
            let mut i: usize = 0;
            while i < cells.len()
                invariant
                    0 <= i <= cells@.len(),
                    out@.len() == i,
                    forall|k: int| 0 <= k < i ==> #[trigger] out@[k] == (TreePlotPlacementPreview { coord: cells@[k], result: Err(e) }),
                    placed_tree_plots(out@) == 0,
                decreases cells@.len() - i,
            {
                let ghost before = out@;
                out.push(TreePlotPlacementPreview { coord: cells[i], result: Err(e) });
                proof {
                    assert(out@.drop_last() =~= before);
                }
                i = i + 1;
            }
            proof {
                assert(tree_plot_preview_cells(out@) =~= cells@);
                assert(out@ =~= spec_tree_plot_batch_preview(size, owner, linked@, cells@, terrain@, resource_cells@, existing@));
            }
            return out;
        },
    };
    let mut base: Vec<Result<BuildingFootprint, TreePlotPlacementError>> = Vec::new();
    let mut ok: Vec<CellCoord> = Vec::new();
    let mut i: usize = 0;
    while i < cells.len()
        invariant
            0 <= i <= cells@.len(),
            terrain@.len() == size.width * size.height,
            base@.len() == i,
            forall|k: int| 0 <= k < i ==> #[trigger] base@[k] == spec_tree_plot_footprint(size, cells@[k], terrain@, resource_cells@, existing@),
            ok@ == tree_plot_ok_cells(size, cells@.subrange(0, i as int), terrain@, resource_cells@, existing@),
        decreases cells@.len() - i,
    {
        let res = validate_tree_plot_footprint(size, cells[i], terrain, resource_cells, existing);
        proof {
            assert(cells@.subrange(0, i + 1).drop_last() =~= cells@.subrange(0, i as int));
        }
        if res.is_ok() {
            ok.push(cells[i]);
        }
        base.push(res);
        i = i + 1;
    }
    proof {
        assert(cells@.subrange(0, cells@.len() as int) =~= cells@);
    }
    let room: usize = if linked.len() >= MAX_TREE_PLOTS_PER_FORESTER_LODGE {
        0
    } else {
        MAX_TREE_PLOTS_PER_FORESTER_LODGE - linked.len()
    };
    let reachable = connected_cells(ok.as_slice(), ok.len(), lodge, linked);
    let accepted = connected_cells(ok.as_slice(), room, lodge, linked);
    let ghost mut placed: Seq<CellCoord> = seq![];
    let mut j: usize = 0;
    while j < cells.len()
        invariant
            0 <= j <= cells@.len(),
            strictly_row_major(cells@),
            placed.len() == placed_tree_plots(out@),
            placed.no_duplicates(),
            forall|p: CellCoord| placed.contains(p) ==> accepted@.contains(p) && exists|k: int| 0 <= k < j && cells@[k] == p,
            base@.len() == cells@.len(),
            forall|k: int| 0 <= k < cells@.len() ==> #[trigger] base@[k] == spec_tree_plot_footprint(size, cells@[k], terrain@, resource_cells@, existing@),
            reachable@ == grown(ok@, lodge, linked@, ok@.len()),
            accepted@ == grown(ok@, lodge, linked@, room as nat),
            spec_lodge_footprint(owner) == Ok::<BuildingFootprint, TreePlotPlacementError>(lodge),
            ok@ == tree_plot_ok_cells(size, cells@, terrain@, resource_cells@, existing@),
            room == tree_plot_room(linked@.len() as int),
            out@.len() == j,
            forall|k: int| 0 <= k < j ==> #[trigger] out@[k] == spec_tree_plot_batch_preview(size, owner, linked@, cells@, terrain@, resource_cells@, existing@)[k],
        decreases cells@.len() - j,
    {
        let c = cells[j];
        let result = match base[j] {
            Err(e) => Err(e),
            Ok(f) => {
                if !cell_listed(reachable.as_slice(), c) {
                    Err(TreePlotPlacementError::NotConnected)
                } else if !cell_listed(accepted.as_slice(), c) {
                    Err(TreePlotPlacementError::ForesterLodgeTreePlotLimitReached)
                } else {
                    Ok(f)
                }
            },
        };
        let ghost before = out@;
        let ghost placed_before = placed;
        out.push(TreePlotPlacementPreview { coord: c, result });
        proof {
            assert(out@.drop_last() =~= before);
            if result is Ok {
                assert(!placed_before.contains(c)) by {
                    if placed_before.contains(c) {
                        let k = choose|k: int| 0 <= k < j && cells@[k] == c;
                        assert(cells@[k] != cells@[j as int]);
                    }
                }
                placed = placed_before.push(c);
                assert forall|a: int, b: int| 0 <= a < b < placed.len() implies placed[a] != placed[b] by {
                    if b == placed.len() - 1 {
                        assert(placed_before.contains(placed[a]));
                    }
                }
                assert forall|p: CellCoord| placed.contains(p) implies accepted@.contains(p) && exists|k: int| 0 <= k < j + 1 && cells@[k] == p by {
                    if p != c {
                        assert(placed_before.contains(p));
                    } else {
                        assert(cells@[j as int] == p);
                    }
                }
            }
        }
        j = j + 1;
    }
    proof {
        lemma_grown_shape(ok@, lodge, linked@, room as nat);
        placed.unique_seq_to_set();
        accepted@.lemma_cardinality_of_set();
        assert(placed.to_set().subset_of(accepted@.to_set()));
        vstd::set_lib::lemma_len_subset(placed.to_set(), accepted@.to_set());
    }
    proof {
        assert(tree_plot_preview_cells(out@) =~= cells@);
        assert(out@ =~= spec_tree_plot_batch_preview(size, owner, linked@, cells@, terrain@, resource_cells@, existing@));
    }
    out
}


/// Whether the tree plot record at position `i` can be planted (`cut`
/// false) or cut (`cut` true): it is a TreePlot owned by a ForesterLodge,
/// and its tree is seedable, or mature with room for wood at the lodge.
pub open spec fn tree_plot_work_open(plots: Seq<TreePlotRecord>, lodges: Seq<LodgeRecord>, i: int, cut: bool) -> bool {
    let p = plots[i];
    &&& p.building.kind == BuildingKind::TreePlot
    &&& match lodge_position(lodges, p.owner.forester_lodge) {
        Some(j) => lodges[j].building.kind == BuildingKind::ForesterLodge && if cut {
            p.growth.spec_is_mature() && lodges[j].inventory.store().spec_free_size() > 0
        } else {
            p.growth.spec_is_seedable()
        },
        None => false,
    }
}

/// The tree plots among the first `n` records with open planting (`cut`
/// false) or cutting (`cut` true) work, in record order.
pub open spec fn tree_plots_with_open_work(plots: Seq<TreePlotRecord>, lodges: Seq<LodgeRecord>, n: int, cut: bool) -> Seq<EntityId>
    decreases n,
{
    if n <= 0 {
        seq![]
    } else {
        tree_plots_with_open_work(plots, lodges, n - 1, cut) + if tree_plot_work_open(plots, lodges, n - 1, cut) {
            seq![plots[n - 1].entity]
        } else {
            seq![]
        }
    }
}

fn open_tree_plot_work(plots: &[TreePlotRecord], lodges: &[LodgeRecord], cut: bool) -> (r: Vec<EntityId>)
    ensures
        r@ == tree_plots_with_open_work(plots@, lodges@, plots@.len() as int, cut),
{
    let mut out: Vec<EntityId> = Vec::new();
    let mut i: usize = 0;
    while i < plots.len()
        invariant
            0 <= i <= plots@.len(),
            out@ == tree_plots_with_open_work(plots@, lodges@, i as int, cut),
        decreases plots@.len() - i,
    {
        let p = plots[i];
        let open = if p.building.kind != BuildingKind::TreePlot {
            false
        } else {
            match find_lodge(lodges, p.owner.forester_lodge) {
                Some(j) => lodges[j].building.kind == BuildingKind::ForesterLodge && if cut {
                    p.growth.is_mature() && lodges[j].inventory.has_wood_capacity()
                } else {
                    p.growth.is_seedable()
                },
                None => false,
            }
        };
        proof {
            assert(open == tree_plot_work_open(plots@, lodges@, i as int, cut));
        }
        if open {
            out.push(p.entity);
            proof {
                assert(out@ =~= tree_plots_with_open_work(plots@, lodges@, i as int, cut) + seq![p.entity]);
            }
        } else {
            proof {
                assert(out@ =~= tree_plots_with_open_work(plots@, lodges@, i as int, cut) + Seq::<EntityId>::empty());
            }
        }
        i = i + 1;
    }
    out
}

/// The changes to planting and cutting tasks.
pub struct ForestryTaskMaintenance {
    pub seed: TaskMaintenance,
    pub cut: TaskMaintenance,
}

/// Keeps one planting task per seedable tree plot and one cutting task per
/// cuttable tree plot (see `tree_plot_work_open`): other tasks, and tasks
/// repeating an earlier task's plot, are removed; plots without a task get
/// one.
pub fn maintain_forestry_tasks(
    plots: &[TreePlotRecord],
    lodges: &[LodgeRecord],
    seed_tasks: &[TaskRecord],
    cut_tasks: &[TaskRecord],
) -> (r: ForestryTaskMaintenance)
    ensures
        ({
            let seedable = tree_plots_with_open_work(plots@, lodges@, plots@.len() as int, false);
            let cuttable = tree_plots_with_open_work(plots@, lodges@, plots@.len() as int, true);
            &&& r.seed.despawn@ == despawned_tasks(seedable, seed_tasks@, seed_tasks@.len() as int)
            &&& r.seed.spawn_for@ == unrepresented(seedable, seed_tasks@, seedable.len() as int)
            &&& r.cut.despawn@ == despawned_tasks(cuttable, cut_tasks@, cut_tasks@.len() as int)
            &&& r.cut.spawn_for@ == unrepresented(cuttable, cut_tasks@, cuttable.len() as int)
        }),
{
    let seedable = open_tree_plot_work(plots, lodges, false);
    let cuttable = open_tree_plot_work(plots, lodges, true);
    ForestryTaskMaintenance {
        seed: maintain_tasks(seedable.as_slice(), seed_tasks),
        cut: maintain_tasks(cuttable.as_slice(), cut_tasks),
    }
}


/// How many tree plots (blueprints and constructed) a forester lodge has,
/// and how many of them are constructed.
pub fn forester_lodge_tree_plot_counts(plots: &[LinkedPlot], forester_lodge: EntityId) -> (r: (usize, usize))
    ensures
        r.0 == plots_of(plots@, forester_lodge, plots@.len() as int, false),
        r.1 == plots_of(plots@, forester_lodge, plots@.len() as int, true),
{
    linked_plot_counts(plots, forester_lodge)
}

} // verus!
