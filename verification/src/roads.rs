use vstd::prelude::*;
use crate::buildings::ConstructionProgress;
use crate::components::TerrainKind;
use crate::entity::EntityId;
use crate::grid::CellCoord;
use crate::resources::{deposits_cover, ResourceAmounts, ResourceKind};

verus! {

/// Road quality, from the plainest to the best.
#[derive(Debug, Clone, Copy, PartialEq, Eq, Hash, Structural)]
pub enum RoadTier {
    DirtPath,
    Cobblestone,
    Flagstone,
}

impl RoadTier {
    pub const ALL: [RoadTier; 3] = [RoadTier::DirtPath, RoadTier::Cobblestone, RoadTier::Flagstone];

    /// Position in the tier order.
    pub open spec fn rank(self) -> int {
        match self {
            RoadTier::DirtPath => 0,
            RoadTier::Cobblestone => 1,
            RoadTier::Flagstone => 2,
        }
    }

    pub fn index(self) -> (r: usize)
        ensures
            r == self.rank(),
    {
        match self {
            RoadTier::DirtPath => 0,
            RoadTier::Cobblestone => 1,
            RoadTier::Flagstone => 2,
        }
    }

    /// Stone a road of the tier needs per cell; a dirt path needs nothing.
    pub open spec fn spec_material_cost(self) -> ResourceAmounts {
        match self {
            RoadTier::DirtPath => ResourceAmounts { wood: 0, stone: 0, food: 0, gold: 0 },
            _ => ResourceAmounts { wood: 0, stone: 1, food: 0, gold: 0 },
        }
    }

    pub fn material_cost(self) -> (r: ResourceAmounts)
        ensures
            r == self.spec_material_cost(),
    {
        match self {
            RoadTier::DirtPath => ResourceAmounts { wood: 0, stone: 0, food: 0, gold: 0 },
            _ => ResourceAmounts { wood: 0, stone: 1, food: 0, gold: 0 },
        }
    }

    pub open spec fn label_text(self) -> Seq<char> {
        match self {
            RoadTier::DirtPath => "Dirt Path"@,
            RoadTier::Cobblestone => "Cobblestone Road"@,
            RoadTier::Flagstone => "Flagstone Road"@,
        }
    }

    pub fn label(self) -> (r: &'static str)
        ensures
            r@ == self.label_text(),
    {
        match self {
            RoadTier::DirtPath => "Dirt Path",
            RoadTier::Cobblestone => "Cobblestone Road",
            RoadTier::Flagstone => "Flagstone Road",
        }
    }

    pub open spec fn spec_movement_ratio(self) -> (u32, u32) {
        match self {
            RoadTier::DirtPath => (3, 2),
            RoadTier::Cobblestone => (2, 1),
            RoadTier::Flagstone => (3, 1),
        }
    }

    /// Speed multiplier on the road, as numerator and denominator.
    pub fn movement_ratio(self) -> (r: (u32, u32))
        ensures
            r == self.spec_movement_ratio(),
    {
        match self {
            RoadTier::DirtPath => (3, 2),
            RoadTier::Cobblestone => (2, 1),
            RoadTier::Flagstone => (3, 1),
        }
    }

    pub open spec fn spec_traversal_weight(self) -> u32 {
        match self {
            RoadTier::DirtPath => 4,
            RoadTier::Cobblestone => 3,
            RoadTier::Flagstone => 2,
        }
    }

    /// Cost of crossing a cell of the road (lower is faster).
    pub fn traversal_weight(self) -> (r: u32)
        ensures
            r == self.spec_traversal_weight(),
            r < NORMAL_TRAVERSAL_WEIGHT,
    {
        match self {
            RoadTier::DirtPath => 4,
            RoadTier::Cobblestone => 3,
            RoadTier::Flagstone => 2,
        }
    }
}

/// Cost of crossing a cell without a road.
pub const NORMAL_TRAVERSAL_WEIGHT: u32 = 6;

/// Every better tier is faster and cheaper to cross.
pub proof fn lemma_better_tiers_are_faster(a: RoadTier, b: RoadTier)
    requires
        a.rank() < b.rank(),
    ensures
        a.spec_traversal_weight() > b.spec_traversal_weight(),
        a.spec_movement_ratio().0 * b.spec_movement_ratio().1 < b.spec_movement_ratio().0 * a.spec_movement_ratio().1,
{
    match a {
        RoadTier::DirtPath => match b {
            RoadTier::Cobblestone => assert(3 * 1 < 2 * 2),
            _ => assert(3 * 1 < 3 * 2),
        },
        _ => assert(2 * 1 < 3 * 1),
    }
}

/// A completed road on a cell.
#[derive(Debug, Clone, Copy, PartialEq, Eq, Structural)]
pub struct Road {
    pub coord: CellCoord,
    pub tier: RoadTier,
}

/// A road (or road upgrade) waiting to be built on a cell.
#[derive(Debug, Clone, Copy, PartialEq, Eq, Structural)]
pub struct RoadBlueprint {
    pub coord: CellCoord,
    pub target_tier: RoadTier,
}

/// The road entity of each cell that has one.
pub struct RoadMap {
    entries: Vec<(CellCoord, EntityId)>,
}

impl RoadMap {
    pub closed spec fn spec_entries(&self) -> Seq<(CellCoord, EntityId)> {
        self.entries@
    }

    /// Each cell appears once.
    pub open spec fn wf(&self) -> bool {
        forall|i: int, j: int|
            0 <= i < j < self.spec_entries().len() ==> (#[trigger] self.spec_entries()[i]).0 != (#[trigger] self.spec_entries()[j]).0
    }

    /// The map from cells to road entities.
    pub open spec fn view_map(&self) -> Map<CellCoord, EntityId> {
        Map::new(
            |c: CellCoord| exists|i: int| 0 <= i < self.spec_entries().len() && (#[trigger] self.spec_entries()[i]).0 == c,
            |c: CellCoord|
                self.spec_entries()[choose|i: int| 0 <= i < self.spec_entries().len() && (#[trigger] self.spec_entries()[i]).0 == c].1,
        )
    }

    pub fn new() -> (r: Self)
        ensures
            r.wf(),
            r.view_map() == Map::<CellCoord, EntityId>::empty(),
    {
        let r = Self { entries: Vec::new() };
        assert(r.view_map() =~= Map::<CellCoord, EntityId>::empty());
        r
    }

    /// The road entity on a cell.
    pub fn entity_at(&self, coord: CellCoord) -> (r: Option<EntityId>)
        requires
            self.wf(),
        ensures
            r == if self.view_map().dom().contains(coord) {
                Some(self.view_map()[coord])
            } else {
                None
            },
    {
        let mut i: usize = 0;
        while i < self.entries.len()
            invariant
                0 <= i <= self.entries@.len(),
                self.wf(),
                forall|j: int| 0 <= j < i ==> (#[trigger] self.entries@[j]).0 != coord,
            decreases self.entries@.len() - i,
        {
            if self.entries[i].0 == coord {
                proof {
                    let k = choose|k: int| 0 <= k < self.spec_entries().len() && (#[trigger] self.spec_entries()[k]).0 == coord;
                    assert(k == i as int);
                }
                return Some(self.entries[i].1);
            }
            i = i + 1;
        }
        None
    }

    /// Records (or replaces) the road entity of a cell.
    pub fn insert(&mut self, coord: CellCoord, entity: EntityId)
        requires
            old(self).wf(),
        ensures
            final(self).wf(),
            final(self).view_map() == old(self).view_map().insert(coord, entity),
    {
        let mut i: usize = 0;
        while i < self.entries.len()
            invariant
                self.entries@ == old(self).spec_entries(),
                old(self).wf(),
                0 <= i <= self.entries@.len(),
                forall|j: int| 0 <= j < i ==> (#[trigger] self.entries@[j]).0 != coord,
            decreases self.entries@.len() - i,
        {
            if self.entries[i].0 == coord {
                let ghost before = self.entries@;
                self.entries.set(i, (coord, entity));
                proof {
                    assert(self.entries@ == before.update(i as int, (coord, entity)));
                    assert forall|a: int, b: int| 0 <= a < b < self.spec_entries().len() implies (#[trigger] self.spec_entries()[a]).0
                        != (#[trigger] self.spec_entries()[b]).0 by {
                        assert(before[a].0 != before[b].0);
                    }
                    assert forall|c: CellCoord| #[trigger] self.view_map().dom().contains(c) == old(self).view_map().insert(coord, entity).dom().contains(c) by {
                        if c != coord {
                            if self.view_map().dom().contains(c) {
                                let k = choose|k: int| 0 <= k < self.spec_entries().len() && (#[trigger] self.spec_entries()[k]).0 == c;
                                assert(before[k].0 == c);
                            }
                            if old(self).view_map().dom().contains(c) {
                                let k = choose|k: int| 0 <= k < before.len() && (#[trigger] before[k]).0 == c;
                                assert(self.spec_entries()[k].0 == c);
                            }
                        } else {
                            assert(self.spec_entries()[i as int].0 == c);
                        }
                    }
                    assert(self.view_map().dom() =~= old(self).view_map().insert(coord, entity).dom());
                    assert forall|c: CellCoord| #[trigger] self.view_map().dom().contains(c) implies self.view_map()[c] == old(self).view_map().insert(coord, entity)[c] by {
                        let k = choose|k: int| 0 <= k < self.spec_entries().len() && (#[trigger] self.spec_entries()[k]).0 == c;
                        if c == coord {
                            assert(k == i as int);
                        } else {
                            let k0 = choose|k0: int| 0 <= k0 < before.len() && (#[trigger] before[k0]).0 == c;
                            assert(k0 == k);
                        }
                    }
                    assert(self.view_map() =~= old(self).view_map().insert(coord, entity));
                }
                return;
            }
            i = i + 1;
        }
        let ghost before = self.entries@;
        self.entries.push((coord, entity));
        proof {
            assert(self.entries@ == before.push((coord, entity)));
            assert forall|c: CellCoord| #[trigger] self.view_map().dom().contains(c) == old(self).view_map().insert(coord, entity).dom().contains(c) by {
                if c != coord {
                    if self.view_map().dom().contains(c) {
                        let k = choose|k: int| 0 <= k < self.spec_entries().len() && (#[trigger] self.spec_entries()[k]).0 == c;
                        assert(k < before.len());
                        assert(before[k].0 == c);
                    }
                    if old(self).view_map().dom().contains(c) {
                        let k = choose|k: int| 0 <= k < before.len() && (#[trigger] before[k]).0 == c;
                        assert(self.spec_entries()[k].0 == c);
                    }
                } else {
                    assert(self.spec_entries()[before.len() as int].0 == c);
                }
            }
            assert(self.view_map().dom() =~= old(self).view_map().insert(coord, entity).dom());
            assert forall|c: CellCoord| #[trigger] self.view_map().dom().contains(c) implies self.view_map()[c] == old(self).view_map().insert(coord, entity)[c] by {
                let k = choose|k: int| 0 <= k < self.spec_entries().len() && (#[trigger] self.spec_entries()[k]).0 == c;
                if c == coord {
                    assert(k == before.len());
                } else {
                    let k0 = choose|k0: int| 0 <= k0 < before.len() && (#[trigger] before[k0]).0 == c;
                    assert(self.spec_entries()[k0].0 == c);
                    assert(k0 == k);
                }
            }
            assert(self.view_map() =~= old(self).view_map().insert(coord, entity));
        }
    }
}

impl Default for RoadMap {
    fn default() -> (r: Self)
        ensures
            r.wf(),
            r.view_map() == Map::<CellCoord, EntityId>::empty(),
    {
        Self::new()
    }
}

/// Why a road cannot be placed on a cell.
#[derive(Debug, Clone, Copy, PartialEq, Eq, Hash, Structural)]
pub enum RoadPlacementError {
    OutOfBoundsOrMissingTile,
    InvalidTerrain,
    BlockedByResourceNode,
    OverlapsBuildingOrPlot,
    PendingRoadOperation,
    SameOrHigherTier,
    NotWalkableGround,
}

impl RoadPlacementError {
    pub open spec fn label_text(self) -> Seq<char> {
        match self {
            RoadPlacementError::OutOfBoundsOrMissingTile => "outside the surface or missing a tile"@,
            RoadPlacementError::InvalidTerrain => "roads require Grass, Dirt, or Sand"@,
            RoadPlacementError::BlockedByResourceNode => "blocked by a resource node"@,
            RoadPlacementError::OverlapsBuildingOrPlot => "overlaps a building, plot, or blueprint"@,
            RoadPlacementError::PendingRoadOperation => "a road blueprint or upgrade is already pending"@,
            RoadPlacementError::SameOrHigherTier => "the completed road is the same or a higher tier"@,
            RoadPlacementError::NotWalkableGround => "the cell does not support ground movement"@,
        }
    }

    pub fn label(self) -> (r: &'static str)
        ensures
            r@ == self.label_text(),
    {
        match self {
            RoadPlacementError::OutOfBoundsOrMissingTile => "outside the surface or missing a tile",
            RoadPlacementError::InvalidTerrain => "roads require Grass, Dirt, or Sand",
            RoadPlacementError::BlockedByResourceNode => "blocked by a resource node",
            RoadPlacementError::OverlapsBuildingOrPlot => "overlaps a building, plot, or blueprint",
            RoadPlacementError::PendingRoadOperation => "a road blueprint or upgrade is already pending",
            RoadPlacementError::SameOrHigherTier => "the completed road is the same or a higher tier",
            RoadPlacementError::NotWalkableGround => "the cell does not support ground movement",
        }
    }
}

/// The placement verdict of one cell.
#[derive(Debug, Clone, PartialEq, Eq)]
pub struct RoadPlacementCellResult {
    pub coord: CellCoord,
    pub errors: Vec<RoadPlacementError>,
}

impl RoadPlacementCellResult {
    pub fn is_valid(&self) -> (r: bool)
        ensures
            r == (self.errors@.len() == 0),
    {
        self.errors.len() == 0
    }
}

/// Valid when every cell of a nonempty batch is.
pub open spec fn batch_valid(cells: Seq<RoadPlacementCellResult>) -> bool {
    cells.len() > 0 && forall|i: int| 0 <= i < cells.len() ==> (#[trigger] cells[i]).errors@.len() == 0
}

/// The placement verdict of a batch of cells, with the cost of building them all.
#[derive(Debug, Clone, PartialEq, Eq)]
pub struct RoadPlacementBatchResult {
    pub cells: Vec<RoadPlacementCellResult>,
    pub aggregate_cost: ResourceAmounts,
}

impl RoadPlacementBatchResult {
    pub fn is_valid(&self) -> (r: bool)
        ensures
            r == batch_valid(self.cells@),
    {
        if self.cells.len() == 0 {
            return false;
        }
        let mut i: usize = 0;
        while i < self.cells.len()
            invariant
                0 <= i <= self.cells@.len(),
                forall|j: int| 0 <= j < i ==> (#[trigger] self.cells@[j]).errors@.len() == 0,
            decreases self.cells@.len() - i,
        {
            if !self.cells[i].is_valid() {
                return false;
            }
            i = i + 1;
        }
        true
    }
}

/// What a cell holds, as far as road placement cares: its terrain (`None`
/// off the surface or without a tile), whether a resource node, a building
/// or blueprint covers it, and its road state.
#[derive(Debug, Clone, Copy, PartialEq, Eq, Structural)]
pub struct RoadCellFacts {
    pub terrain: Option<TerrainKind>,
    pub resource_node: bool,
    pub building_or_blueprint: bool,
    pub pending_road: bool,
    pub completed_tier: Option<RoadTier>,
}

/// The errors of placing a road of a tier on a cell, in error order.
pub open spec fn spec_road_placement_errors(tier: RoadTier, f: RoadCellFacts) -> Seq<RoadPlacementError> {
    match f.terrain {
        None => seq![RoadPlacementError::OutOfBoundsOrMissingTile],
        Some(t) => {
            let e1 = if t is Water { seq![RoadPlacementError::InvalidTerrain] } else { seq![] };
            let e2 = if f.resource_node { seq![RoadPlacementError::BlockedByResourceNode] } else { seq![] };
            let e3 = if f.building_or_blueprint { seq![RoadPlacementError::OverlapsBuildingOrPlot] } else { seq![] };
            let e4 = if f.pending_road { seq![RoadPlacementError::PendingRoadOperation] } else { seq![] };
            let e5 = if f.completed_tier matches Some(c) && c.rank() >= tier.rank() {
                seq![RoadPlacementError::SameOrHigherTier]
            } else {
                seq![]
            };
            let e6 = if t is Water { seq![RoadPlacementError::NotWalkableGround] } else { seq![] };
            e1 + e2 + e3 + e4 + e5 + e6
        },
    }
}

pub fn road_placement_errors(tier: RoadTier, f: RoadCellFacts) -> (r: Vec<RoadPlacementError>)
    ensures
        r@ == spec_road_placement_errors(tier, f),
{
    let mut errors: Vec<RoadPlacementError> = Vec::new();
    let t = match f.terrain {
        None => {
            errors.push(RoadPlacementError::OutOfBoundsOrMissingTile);
            proof {
                assert(errors@ =~= spec_road_placement_errors(tier, f));
            }
            return errors;
        },
        Some(t) => t,
    };
    let water = match t {
        TerrainKind::Water => true,
        _ => false,
    };
    if water {
        errors.push(RoadPlacementError::InvalidTerrain);
    }
    if f.resource_node {
        errors.push(RoadPlacementError::BlockedByResourceNode);
    }
    if f.building_or_blueprint {
        errors.push(RoadPlacementError::OverlapsBuildingOrPlot);
    }
    if f.pending_road {
        errors.push(RoadPlacementError::PendingRoadOperation);
    }
    if let Some(c) = f.completed_tier {
        if c.index() >= tier.index() {
            errors.push(RoadPlacementError::SameOrHigherTier);
        }
    }
    if water {
        errors.push(RoadPlacementError::NotWalkableGround);
    }
    proof {
        assert(errors@ =~= spec_road_placement_errors(tier, f));
    }
    errors
}

/// The cells of a batch with repeats dropped, each where it first occurs.
pub open spec fn first_occurrences(s: Seq<CellCoord>) -> Seq<CellCoord>
    decreases s.len(),
{
    if s.len() == 0 {
        seq![]
    } else {
        let p = first_occurrences(s.drop_last());
        if p.contains(s.last()) { p } else { p.push(s.last()) }
    }
}

/// Indices of the first occurrence of each cell, in order.
pub open spec fn first_occurrence_indices(s: Seq<CellCoord>) -> Seq<int>
    decreases s.len(),
{
    if s.len() == 0 {
        seq![]
    } else {
        let p = first_occurrences(s.drop_last());
        let q = first_occurrence_indices(s.drop_last());
        if p.contains(s.last()) { q } else { q.push(s.len() - 1) }
    }
}

/// A cost per cell times a count of cells, each kind saturating.
pub open spec fn scaled_cost(unit: ResourceAmounts, n: int) -> ResourceAmounts {
    let m = if n > u32::MAX { u32::MAX as int } else { n };
    ResourceAmounts {
        wood: crate::resources::sat_add_u32(0, unit.wood * m) as u32,
        stone: crate::resources::sat_add_u32(0, unit.stone * m) as u32,
        food: crate::resources::sat_add_u32(0, unit.food * m) as u32,
        gold: crate::resources::sat_add_u32(0, unit.gold * m) as u32,
    }
}

fn sat_mul(a: u32, b: u32) -> (r: u32)
    ensures
        r == crate::resources::sat_add_u32(0, a * b),
{
    match a.checked_mul(b) {
        Some(v) => v,
        None => u32::MAX,
    }
}

fn scale_cost(unit: ResourceAmounts, n: usize) -> (r: ResourceAmounts)
    ensures
        r == scaled_cost(unit, n as int),
{
    let m: u32 = if n > u32::MAX as usize { u32::MAX } else { n as u32 };
    ResourceAmounts::new(
        sat_mul(unit.get(ResourceKind::Wood), m),
        sat_mul(unit.get(ResourceKind::Stone), m),
        sat_mul(unit.get(ResourceKind::Food), m),
        sat_mul(unit.get(ResourceKind::Gold), m),
    )
}

/// Validates placing roads of a tier on cells (with `facts[i]` describing
/// `coords[i]`): repeated cells count once, each distinct cell gets its
/// errors, and the cost is the tier's material cost per cell times the
/// number of distinct cells.
pub fn validate_road_placement_batch(
    tier: RoadTier,
    coords: &[CellCoord],
    facts: &[RoadCellFacts],
) -> (r: RoadPlacementBatchResult)
    requires
        coords@.len() == facts@.len(),
    ensures
        ({
            let firsts = first_occurrence_indices(coords@);
            &&& r.cells@.len() == firsts.len()
            &&& forall|i: int| 0 <= i < firsts.len() ==> (#[trigger] r.cells@[i]).coord == coords@[firsts[i]]
                && r.cells@[i].errors@ == spec_road_placement_errors(tier, facts@[firsts[i]])
            &&& r.aggregate_cost == scaled_cost(tier.spec_material_cost(), firsts.len() as int)
        }),
{
    let mut seen: Vec<CellCoord> = Vec::new();
    let mut cells: Vec<RoadPlacementCellResult> = Vec::new();
    let ghost mut firsts: Seq<int> = seq![];
    let mut i: usize = 0;
    while i < coords.len()
        invariant
            0 <= i <= coords@.len(),
            coords@.len() == facts@.len(),
            seen@ == first_occurrences(coords@.subrange(0, i as int)),
            firsts == first_occurrence_indices(coords@.subrange(0, i as int)),
            firsts.len() == seen@.len(),
            cells@.len() == firsts.len(),
            forall|k: int| 0 <= k < firsts.len() ==> 0 <= #[trigger] firsts[k] < i,
            forall|k: int| 0 <= k < firsts.len() ==> (#[trigger] cells@[k]).coord == coords@[firsts[k]]
                && cells@[k].errors@ == spec_road_placement_errors(tier, facts@[firsts[k]]),
        decreases coords@.len() - i,
    {
        let c = coords[i];
        proof {
            let sub = coords@.subrange(0, i as int + 1);
            assert(sub.drop_last() =~= coords@.subrange(0, i as int));
            assert(sub.last() == c);
        }
        let mut found = false;
        let mut j: usize = 0;
        while j < seen.len()
            invariant
                0 <= j <= seen@.len(),
                found == exists|k: int| 0 <= k < j && seen@[k] == c,
            decreases seen@.len() - j,
        {
            if seen[j] == c {
                found = true;
            }
            j = j + 1;
        }
        proof {
            assert(found == seen@.contains(c));
        }
        if !found {
            seen.push(c);
            let errors = road_placement_errors(tier, facts[i]);
            cells.push(RoadPlacementCellResult { coord: c, errors });
            proof {
                firsts = firsts.push(i as int);
            }
        }
        i = i + 1;
    }
    proof {
        assert(coords@.subrange(0, coords@.len() as int) =~= coords@);
    }
    let aggregate_cost = scale_cost(tier.material_cost(), seen.len());
    RoadPlacementBatchResult { cells, aggregate_cost }
}

/// The blueprints a valid batch places (one per distinct cell, in order),
/// or the failed validation itself.
pub fn road_blueprints_for(validation: RoadPlacementBatchResult, tier: RoadTier) -> (r: Result<
    Vec<RoadBlueprint>,
    RoadPlacementBatchResult,
>)
    ensures
        !batch_valid(validation.cells@) ==> r == Err::<Vec<RoadBlueprint>, RoadPlacementBatchResult>(validation),
        batch_valid(validation.cells@) ==> (r matches Ok(v) && v@.len() == validation.cells@.len() && forall|i: int|
            0 <= i < v@.len() ==> #[trigger] v@[i] == (RoadBlueprint { coord: validation.cells@[i].coord, target_tier: tier })),
{
    if !validation.is_valid() {
        return Err(validation);
    }
    let mut out: Vec<RoadBlueprint> = Vec::new();
    let mut i: usize = 0;
    while i < validation.cells.len()
        invariant
            0 <= i <= validation.cells@.len(),
            out@.len() == i,
            forall|k: int| 0 <= k < i ==> #[trigger] out@[k] == (RoadBlueprint { coord: validation.cells@[k].coord, target_tier: tier }),
        decreases validation.cells@.len() - i,
    {
        out.push(RoadBlueprint { coord: validation.cells[i].coord, target_tier: tier });
        i = i + 1;
    }
    Ok(out)
}

/// What a cell shows of its road: the completed tier, a pending target
/// tier, and construction progress; `None` when it has neither road nor
/// blueprint.
#[derive(Debug, Clone, Copy, PartialEq, Eq, Structural)]
pub struct RoadCellView {
    pub coord: CellCoord,
    pub completed_tier: Option<RoadTier>,
    pub target_tier: Option<RoadTier>,
    pub construction: Option<ConstructionProgress>,
}

pub fn road_cell_view(
    coord: CellCoord,
    completed_tier: Option<RoadTier>,
    target_tier: Option<RoadTier>,
    construction: Option<ConstructionProgress>,
) -> (r: Option<RoadCellView>)
    ensures
        r == if completed_tier is None && target_tier is None {
            None
        } else {
            Some(RoadCellView { coord, completed_tier, target_tier, construction })
        },
{
    if completed_tier.is_none() && target_tier.is_none() {
        None
    } else {
        Some(RoadCellView { coord, completed_tier, target_tier, construction })
    }
}

/// A road blueprint whose target tier's material cost is fully deposited
/// becomes a completed road of that tier.
pub fn completed_road(blueprint: RoadBlueprint, progress: ConstructionProgress) -> (r: Option<Road>)
    ensures
        r == if deposits_cover(blueprint.target_tier.spec_material_cost(), progress.deposited) {
            Some(Road { coord: blueprint.coord, tier: blueprint.target_tier })
        } else {
            None
        },
{
    if progress.is_complete(blueprint.target_tier.material_cost()) {
        Some(Road { coord: blueprint.coord, tier: blueprint.target_tier })
    } else {
        None
    }
}

} // verus!
