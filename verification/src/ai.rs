use crate::buildings::{
    footprint_cells, footprint_contains, footprint_within, remaining_of, BuildingBlueprint, BuildingFootprint,
    BuildingKind, ConstructionProgress,
};
use crate::resources::deposits_cover;
use crate::components::{
    AiConstructBuilding, AiGatherResource, AiIdleRoam, AiKeepEnoughFoodInInventory, NpcInventory, ResourceNode,
};
use crate::skills::{NpcSkills, SkillKind, clamp_skill};
use crate::entity::EntityId;
use crate::grid::{grid_contains, CellCoord, GridSize};
use crate::housing::House;
use crate::farming::{FieldRecord, FarmRecord, field_seeding_is_actionable, field_harvest_is_actionable, spec_field_seeding_target, spec_field_harvest_target};
use crate::forestry::{TreePlotRecord, LodgeRecord, tree_plot_seeding_is_actionable, tree_plot_cutting_is_actionable, spec_tree_plot_seeding_target, spec_tree_plot_cutting_target};
use crate::navigation::{NavigationSnapshot, reach};
use crate::resources::{ResourceAmounts, ResourceKind};
use vstd::prelude::*;

verus! {

pub const DEFAULT_NPC_FOOD_INVENTORY_START_THRESHOLD: u32 = 5;

pub const DEFAULT_NPC_FOOD_INVENTORY_TARGET: u32 = 100;

pub const DEFAULT_NPC_IDLE_ROAM_RADIUS: u32 = 3;

pub const DEFAULT_NPC_IDLE_DWELL_TICKS: u32 = 180;

pub const RESOURCE_GATHER_TICKS_PER_UNIT: u32 = 60;

pub const CONSTRUCTION_RESOURCE_DEPOSIT_BATCH_SIZE: u32 = 10;

/// Number of idle roam offsets.
pub const IDLE_ROAM_OFFSET_COUNT: usize = 24;

/// The idle roam offsets: rings of Manhattan radius one to three around the
/// origin, each ring walked from its eastmost cell.
pub open spec fn idle_roam_offset(i: int) -> (int, int) {
    if i == 0 { (1, 0) }
    else if i == 1 { (0, 1) }
    else if i == 2 { (-1, 0) }
    else if i == 3 { (0, -1) }
    else if i == 4 { (2, 0) }
    else if i == 5 { (1, 1) }
    else if i == 6 { (0, 2) }
    else if i == 7 { (-1, 1) }
    else if i == 8 { (-2, 0) }
    else if i == 9 { (-1, -1) }
    else if i == 10 { (0, -2) }
    else if i == 11 { (1, -1) }
    else if i == 12 { (3, 0) }
    else if i == 13 { (2, 1) }
    else if i == 14 { (1, 2) }
    else if i == 15 { (0, 3) }
    else if i == 16 { (-1, 2) }
    else if i == 17 { (-2, 1) }
    else if i == 18 { (-3, 0) }
    else if i == 19 { (-2, -1) }
    else if i == 20 { (-1, -2) }
    else if i == 21 { (0, -3) }
    else if i == 22 { (1, -2) }
    else { (2, -1) }
}

/// The idle roam offset at a position of the offset ring.
pub fn idle_roam_offset_at(i: usize) -> (r: (i32, i32))
    requires
        i < IDLE_ROAM_OFFSET_COUNT,
    ensures
        r.0 == idle_roam_offset(i as int).0,
        r.1 == idle_roam_offset(i as int).1,
{
    let offsets: [(i32, i32); 24] = [
        (1, 0),
        (0, 1),
        (-1, 0),
        (0, -1),
        (2, 0),
        (1, 1),
        (0, 2),
        (-1, 1),
        (-2, 0),
        (-1, -1),
        (0, -2),
        (1, -1),
        (3, 0),
        (2, 1),
        (1, 2),
        (0, 3),
        (-1, 2),
        (-2, 1),
        (-3, 0),
        (-2, -1),
        (-1, -2),
        (0, -3),
        (1, -2),
        (2, -1),
    ];
    offsets[i]
}

/// A resource node entity and the tile it stands on.
#[derive(Debug, Clone, Copy, PartialEq, Eq, Structural)]
pub struct ResourceNodeRecord {
    pub entity: EntityId,
    pub coord: CellCoord,
    pub node: ResourceNode,
}

/// `|a - b|` of two `i32` values.
pub open spec fn abs_diff(a: int, b: int) -> int {
    if a >= b { a - b } else { b - a }
}

/// Manhattan distance, saturating at `u32::MAX`.
pub open spec fn manhattan(a: CellCoord, b: CellCoord) -> int {
    let d = abs_diff(a.x as int, b.x as int) + abs_diff(a.y as int, b.y as int);
    if d > u32::MAX { u32::MAX as int } else { d }
}

fn abs_diff_i32(a: i32, b: i32) -> (r: u32)
    ensures
        r == abs_diff(a as int, b as int),
{
    if a >= b {
        (a as i64 - b as i64) as u32
    } else {
        (b as i64 - a as i64) as u32
    }
}

/// Manhattan distance between two cells, saturating at `u32::MAX`.
pub fn manhattan_distance(a: CellCoord, b: CellCoord) -> (r: u32)
    ensures
        r == manhattan(a, b),
{
    abs_diff_i32(a.x, b.x).saturating_add(abs_diff_i32(a.y, b.y))
}

/// Whether two cells share an edge.
pub open spec fn cardinally_adjacent(a: CellCoord, b: CellCoord) -> bool {
    abs_diff(a.x as int, b.x as int) + abs_diff(a.y as int, b.y as int) == 1
}

pub fn is_cardinally_adjacent(a: CellCoord, b: CellCoord) -> (r: bool)
    ensures
        r == cardinally_adjacent(a, b),
{
    manhattan_distance(a, b) == 1
}

/// The in-range cardinal neighbours of a cell: north, west, east, south.
pub open spec fn spec_cardinal_cells(c: CellCoord) -> Seq<CellCoord> {
    let north = if c.y > i32::MIN { seq![CellCoord { x: c.x, y: (c.y - 1) as i32 }] } else { seq![] };
    let west = if c.x > i32::MIN { seq![CellCoord { x: (c.x - 1) as i32, y: c.y }] } else { seq![] };
    let east = if c.x < i32::MAX { seq![CellCoord { x: (c.x + 1) as i32, y: c.y }] } else { seq![] };
    let south = if c.y < i32::MAX { seq![CellCoord { x: c.x, y: (c.y + 1) as i32 }] } else { seq![] };
    north + west + east + south
}

/// Cells from which an NPC interacts with a cell: its cardinal neighbours.
pub fn cardinal_interaction_cells(coord: CellCoord) -> (r: Vec<CellCoord>)
    ensures
        r@ == spec_cardinal_cells(coord),
{
    let mut cells: Vec<CellCoord> = Vec::new();
    if coord.y > i32::MIN {
        cells.push(CellCoord::new(coord.x, coord.y - 1));
    }
    let ghost n = cells@;
    if coord.x > i32::MIN {
        cells.push(CellCoord::new(coord.x - 1, coord.y));
    }
    let ghost w = cells@;
    if coord.x < i32::MAX {
        cells.push(CellCoord::new(coord.x + 1, coord.y));
    }
    let ghost e = cells@;
    if coord.y < i32::MAX {
        cells.push(CellCoord::new(coord.x, coord.y + 1));
    }
    assert(cells@ =~= spec_cardinal_cells(coord));
    cells
}

/// Whether the NPC should start topping up the food it carries.
pub open spec fn spec_should_start_food_refill(
    carried_food: int,
    free_size: int,
    keep_food: AiKeepEnoughFoodInInventory,
) -> bool {
    carried_food <= keep_food.spec_start_threshold() && carried_food < keep_food.spec_target()
        && free_size > 0
}

/// Whether the NPC should keep topping up the food it carries.
pub open spec fn spec_should_continue_food_refill(
    carried_food: int,
    free_size: int,
    keep_food: AiKeepEnoughFoodInInventory,
) -> bool {
    carried_food < keep_food.spec_target() && free_size > 0
}

pub fn should_start_food_refill(inventory: &NpcInventory, keep_food: &AiKeepEnoughFoodInInventory) -> (r:
    bool)
    ensures
        r == spec_should_start_food_refill(
            inventory.store().spec_contents().food as int,
            inventory.store().spec_free_size(),
            *keep_food,
        ),
{
    let carried_food = inventory.contents().get(ResourceKind::Food);
    carried_food <= keep_food.start_threshold() && carried_food < keep_food.target()
        && inventory.free_size() > 0
}

pub fn should_continue_food_refill(
    inventory: &NpcInventory,
    keep_food: &AiKeepEnoughFoodInInventory,
) -> (r: bool)
    ensures
        r == spec_should_continue_food_refill(
            inventory.store().spec_contents().food as int,
            inventory.store().spec_free_size(),
            *keep_food,
        ),
{
    inventory.contents().get(ResourceKind::Food) < keep_food.target() && inventory.free_size() > 0
}

/// Whether some node of a kind has anything left.
pub open spec fn spec_kind_available(kind: ResourceKind, nodes: Seq<ResourceNodeRecord>) -> bool {
    exists|i: int| 0 <= i < nodes.len() && (#[trigger] nodes[i]).node.kind == kind && nodes[i].node.quantity > 0
}

pub fn resource_kind_available(kind: ResourceKind, nodes: &[ResourceNodeRecord]) -> (r: bool)
    ensures
        r == spec_kind_available(kind, nodes@),
{
    let mut i: usize = 0;
    while i < nodes.len()
        invariant
            0 <= i <= nodes@.len(),
            forall|j: int|
                0 <= j < i ==> !((#[trigger] nodes@[j]).node.kind == kind && nodes@[j].node.quantity > 0),
        decreases nodes@.len() - i,
    {
        if nodes[i].node.kind == kind && nodes[i].node.quantity > 0 {
            proof {
                assert(nodes@[i as int].node.kind == kind);
            }
            return true;
        }
        i = i + 1;
    }
    false
}

/// Whether an NPC with a food goal should drop other work to refill food.
pub fn should_interrupt_for_food(
    inventory: &NpcInventory,
    keep_food: Option<AiKeepEnoughFoodInInventory>,
    nodes: &[ResourceNodeRecord],
) -> (r: bool)
    ensures
        r == (match keep_food {
            Some(goal) => spec_should_start_food_refill(
                inventory.store().spec_contents().food as int,
                inventory.store().spec_free_size(),
                goal,
            ) && spec_kind_available(ResourceKind::Food, nodes@),
            None => false,
        }),
{
    match keep_food {
        Some(goal) => should_start_food_refill(inventory, &goal) && resource_kind_available(
            ResourceKind::Food,
            nodes,
        ),
        None => false,
    }
}

/// Lexicographic order on the search key of a resource node: distance from
/// the origin, then row, column and entity bits.
pub open spec fn node_key_lt(origin: CellCoord, a: ResourceNodeRecord, b: ResourceNodeRecord) -> bool {
    let da = manhattan(origin, a.coord);
    let db = manhattan(origin, b.coord);
    da < db || (da == db && (a.coord.y < b.coord.y || (a.coord.y == b.coord.y && (a.coord.x
        < b.coord.x || (a.coord.x == b.coord.x && a.entity.bits < b.entity.bits)))))
}

fn node_key_less(origin: CellCoord, a: ResourceNodeRecord, b: ResourceNodeRecord) -> (r: bool)
    ensures
        r == node_key_lt(origin, a, b),
{
    let da = manhattan_distance(origin, a.coord);
    let db = manhattan_distance(origin, b.coord);
    da < db || (da == db && (a.coord.y < b.coord.y || (a.coord.y == b.coord.y && (a.coord.x
        < b.coord.x || (a.coord.x == b.coord.x && a.entity.bits < b.entity.bits)))))
}

/// Whether a node of a kind still holds resources.
pub open spec fn node_candidate(n: ResourceNodeRecord, kind: ResourceKind) -> bool {
    n.node.kind == kind && n.node.quantity > 0
}

/// Whether position `i` holds the first candidate whose key is smallest.
pub open spec fn is_nearest_node(
    origin: CellCoord,
    kind: ResourceKind,
    nodes: Seq<ResourceNodeRecord>,
    i: int,
) -> bool {
    &&& 0 <= i < nodes.len()
    &&& node_candidate(nodes[i], kind)
    &&& forall|j: int|
        0 <= j < nodes.len() && node_candidate(#[trigger] nodes[j], kind) ==> !node_key_lt(
            origin,
            nodes[j],
            nodes[i],
        ) && (j < i ==> node_key_lt(origin, nodes[i], nodes[j]))
}

/// The nearest node of a kind that has resources left: least distance, then
/// row, column and entity bits; the first such node on ties.
pub fn nearest_resource_node_of_kind(
    origin: CellCoord,
    kind: ResourceKind,
    nodes: &[ResourceNodeRecord],
) -> (r: Option<(EntityId, CellCoord)>)
    ensures
        r is None <==> !spec_kind_available(kind, nodes@),
        r matches Some((e, c)) ==> exists|i: int|
            is_nearest_node(origin, kind, nodes@, i) && nodes@[i].entity == e && nodes@[i].coord == c,
{
    let mut best: Option<usize> = None;
    let mut i: usize = 0;
    while i < nodes.len()
        invariant
            0 <= i <= nodes@.len(),
            best is None <==> forall|j: int| 0 <= j < i ==> !node_candidate(#[trigger] nodes@[j], kind),
            best matches Some(b) ==> b < i && node_candidate(nodes@[b as int], kind) && forall|j: int|
                0 <= j < i && node_candidate(#[trigger] nodes@[j], kind) ==> !node_key_lt(
                    origin,
                    nodes@[j],
                    nodes@[b as int],
                ) && (j < b ==> node_key_lt(origin, nodes@[b as int], nodes@[j])),
        decreases nodes@.len() - i,
    {
        let n = nodes[i];
        if n.node.kind == kind && n.node.quantity > 0 {
            match best {
                None => {
                    best = Some(i);
                },
                Some(b) => {
                    if node_key_less(origin, n, nodes[b]) {
                        proof {
                            lemma_node_key_lt_transitive_total(origin, nodes@, i as int, b as int);
                        }
                        best = Some(i);
                    }
                },
            }
        }
        i = i + 1;
    }
    match best {
        Some(b) => {
            proof {
                assert(is_nearest_node(origin, kind, nodes@, b as int));
            }
            Some((nodes[b].entity, nodes[b].coord))
        },
        None => {
            proof {
                if spec_kind_available(kind, nodes@) {
                    let j = choose|j: int|
                        0 <= j < nodes@.len() && (#[trigger] nodes@[j]).node.kind == kind
                            && nodes@[j].node.quantity > 0;
                    assert(node_candidate(nodes@[j], kind));
                }
            }
            None
        },
    }
}

/// The node key order is a strict total order.
proof fn lemma_node_key_lt_transitive_total(
    origin: CellCoord,
    nodes: Seq<ResourceNodeRecord>,
    i: int,
    b: int,
)
    requires
        0 <= b < i < nodes.len(),
        node_key_lt(origin, nodes[i], nodes[b]),
    ensures
        forall|j: int|
            0 <= j < nodes.len() && node_key_lt(origin, nodes[b], nodes[j]) ==> node_key_lt(
                origin,
                nodes[i],
                #[trigger] nodes[j],
            ),
        forall|j: int|
            0 <= j < nodes.len() && !node_key_lt(origin, nodes[j], nodes[b]) ==> !node_key_lt(
                origin,
                #[trigger] nodes[j],
                nodes[i],
            ),
        !node_key_lt(origin, nodes[b], nodes[i]),
{
}

/// Whether a cell is inside a footprint or next to one of its cells.
pub open spec fn at_or_beside_footprint(footprint: BuildingFootprint, position: CellCoord) -> bool {
    footprint_contains(footprint, position) || exists|i: int|
        0 <= i < footprint_cells(footprint).len() && cardinally_adjacent(
            position,
            #[trigger] footprint_cells(footprint)[i],
        )
}

fn beside_any(cells: &Vec<CellCoord>, position: CellCoord) -> (r: bool)
    ensures
        r == exists|i: int| 0 <= i < cells@.len() && cardinally_adjacent(position, #[trigger] cells@[i]),
{
    let mut i: usize = 0;
    while i < cells.len()
        invariant
            0 <= i <= cells@.len(),
            forall|j: int| 0 <= j < i ==> !cardinally_adjacent(position, #[trigger] cells@[j]),
        decreases cells@.len() - i,
    {
        if is_cardinally_adjacent(position, cells[i]) {
            return true;
        }
        i = i + 1;
    }
    false
}

/// Whether an NPC at `position` can work on a building: inside its footprint,
/// or, except for fields and tree plots, beside it.
pub fn building_interaction_reached(
    kind: BuildingKind,
    footprint: BuildingFootprint,
    position: CellCoord,
) -> (r: bool)
    ensures
        r == (footprint_contains(footprint, position) || (kind != BuildingKind::Field && kind
            != BuildingKind::TreePlot && at_or_beside_footprint(footprint, position))),
{
    if footprint.contains(position) {
        true
    } else if kind == BuildingKind::Field || kind == BuildingKind::TreePlot {
        false
    } else {
        let cells = footprint.iter_coords();
        beside_any(&cells, position)
    }
}

/// Whether an NPC carries something a blueprint still needs.
pub open spec fn spec_has_depositable(
    carried: ResourceAmounts,
    deposited: ResourceAmounts,
    cost: ResourceAmounts,
) -> bool {
    exists|k: ResourceKind| #[trigger] carried.amount(k) > 0 && remaining_of(cost, deposited, k) > 0
}

pub fn has_depositable_construction_resources(
    inventory: &NpcInventory,
    progress: &ConstructionProgress,
    cost: ResourceAmounts,
) -> (r: bool)
    ensures
        r == spec_has_depositable(inventory.store().spec_contents(), progress.deposited, cost),
{
    let carried = inventory.contents();
    let r = (carried.wood > 0 && progress.remaining(cost, ResourceKind::Wood) > 0) || (carried.stone
        > 0 && progress.remaining(cost, ResourceKind::Stone) > 0) || (carried.food > 0
        && progress.remaining(cost, ResourceKind::Food) > 0) || (carried.gold > 0
        && progress.remaining(cost, ResourceKind::Gold) > 0);
    proof {
        if r {
            if carried.wood > 0 && remaining_of(cost, progress.deposited, ResourceKind::Wood) > 0 {
                assert(carried.amount(ResourceKind::Wood) > 0);
            } else if carried.stone > 0 && remaining_of(cost, progress.deposited, ResourceKind::Stone) > 0 {
                assert(carried.amount(ResourceKind::Stone) > 0);
            } else if carried.food > 0 && remaining_of(cost, progress.deposited, ResourceKind::Food) > 0 {
                assert(carried.amount(ResourceKind::Food) > 0);
            } else {
                assert(carried.amount(ResourceKind::Gold) > 0);
            }
        }
    }
    r
}

/// Whether some kind the blueprint still needs can be gathered from a node.
pub open spec fn spec_needed_kind_available(
    deposited: ResourceAmounts,
    cost: ResourceAmounts,
    nodes: Seq<ResourceNodeRecord>,
) -> bool {
    exists|k: ResourceKind|
        #[trigger] remaining_of(cost, deposited, k) > 0 && spec_kind_available(k, nodes)
}

fn needed_kind_available(
    progress: &ConstructionProgress,
    cost: ResourceAmounts,
    nodes: &[ResourceNodeRecord],
) -> (r: bool)
    ensures
        r == spec_needed_kind_available(progress.deposited, cost, nodes@),
{
    let w = progress.remaining(cost, ResourceKind::Wood) > 0 && resource_kind_available(ResourceKind::Wood, nodes);
    let s = progress.remaining(cost, ResourceKind::Stone) > 0 && resource_kind_available(ResourceKind::Stone, nodes);
    let f = progress.remaining(cost, ResourceKind::Food) > 0 && resource_kind_available(ResourceKind::Food, nodes);
    let g = progress.remaining(cost, ResourceKind::Gold) > 0 && resource_kind_available(ResourceKind::Gold, nodes);
    proof {
        if spec_needed_kind_available(progress.deposited, cost, nodes@) {
            let k = choose|k: ResourceKind|
                #[trigger] remaining_of(cost, progress.deposited, k) > 0 && spec_kind_available(k, nodes@);
            match k {
                ResourceKind::Wood => {},
                ResourceKind::Stone => {},
                ResourceKind::Food => {},
                ResourceKind::Gold => {},
            }
        }
        if w {
            assert(remaining_of(cost, progress.deposited, ResourceKind::Wood) > 0);
        }
        if s {
            assert(remaining_of(cost, progress.deposited, ResourceKind::Stone) > 0);
        }
        if f {
            assert(remaining_of(cost, progress.deposited, ResourceKind::Food) > 0);
        }
        if g {
            assert(remaining_of(cost, progress.deposited, ResourceKind::Gold) > 0);
        }
    }
    w || s || f || g
}

/// Whether an NPC can do something for a blueprint: deliver what it carries,
/// or gather a needed kind while it has free space.
pub fn construction_work_is_actionable(
    inventory: &NpcInventory,
    progress: &ConstructionProgress,
    cost: ResourceAmounts,
    nodes: &[ResourceNodeRecord],
) -> (r: bool)
    ensures
        r == (spec_has_depositable(inventory.store().spec_contents(), progress.deposited, cost) || (
        inventory.store().spec_free_size() > 0 && spec_needed_kind_available(
            progress.deposited,
            cost,
            nodes@,
        ))),
{
    has_depositable_construction_resources(inventory, progress, cost) || (inventory.free_size() > 0
        && needed_kind_available(progress, cost, nodes))
}

/// `min(remaining, CONSTRUCTION_RESOURCE_DEPOSIT_BATCH_SIZE)`.
pub open spec fn batch_target(remaining: int) -> int {
    if remaining < CONSTRUCTION_RESOURCE_DEPOSIT_BATCH_SIZE {
        remaining
    } else {
        CONSTRUCTION_RESOURCE_DEPOSIT_BATCH_SIZE as int
    }
}

/// Whether a builder should carry what it holds to the blueprint now: it holds
/// something needed, and either it has no target kind, its target kind is no
/// longer needed or not carried, it carries a full batch of it, or no node of
/// it is left.
pub open spec fn spec_should_route_to_deposit(
    carried: ResourceAmounts,
    target_kind: Option<ResourceKind>,
    deposited: ResourceAmounts,
    cost: ResourceAmounts,
    nodes: Seq<ResourceNodeRecord>,
) -> bool {
    spec_has_depositable(carried, deposited, cost) && match target_kind {
        None => true,
        Some(k) => {
            let remaining = remaining_of(cost, deposited, k);
            let held = carried.amount(k) as int;
            remaining == 0 || held == 0 || held >= batch_target(remaining) || !spec_kind_available(
                k,
                nodes,
            )
        },
    }
}

pub fn should_route_to_construction_deposit(
    inventory: &NpcInventory,
    construction: &AiConstructBuilding,
    progress: &ConstructionProgress,
    cost: ResourceAmounts,
    nodes: &[ResourceNodeRecord],
) -> (r: bool)
    ensures
        r == spec_should_route_to_deposit(
            inventory.store().spec_contents(),
            construction.target_kind,
            progress.deposited,
            cost,
            nodes@,
        ),
{
    if !has_depositable_construction_resources(inventory, progress, cost) {
        return false;
    }
    let kind = match construction.target_kind() {
        Some(k) => k,
        None => return true,
    };
    let remaining = progress.remaining(cost, kind);
    let carried = inventory.contents().get(kind);
    if remaining == 0 || carried == 0 {
        return true;
    }
    let batch = if remaining < CONSTRUCTION_RESOURCE_DEPOSIT_BATCH_SIZE {
        remaining
    } else {
        CONSTRUCTION_RESOURCE_DEPOSIT_BATCH_SIZE
    };
    carried >= batch || !resource_kind_available(kind, nodes)
}

/// A nearest node exists whenever some node of the kind has resources left.
pub proof fn lemma_nearest_exists(origin: CellCoord, kind: ResourceKind, nodes: Seq<ResourceNodeRecord>, w: int)
    requires
        0 <= w < nodes.len(),
        node_candidate(nodes[w], kind),
    ensures
        exists|i: int| is_nearest_node(origin, kind, nodes, i),
    decreases nodes.len(),
{
    let n = nodes.len() - 1;
    let p = nodes.drop_last();
    if exists|v: int| 0 <= v < n && node_candidate(#[trigger] nodes[v], kind) {
        let v = choose|v: int| 0 <= v < n && node_candidate(#[trigger] nodes[v], kind);
        assert(p[v] == nodes[v]);
        lemma_nearest_exists(origin, kind, p, v);
        let i = choose|i: int| is_nearest_node(origin, kind, p, i);
        assert(p[i] == nodes[i]);
        if node_candidate(nodes[n], kind) && node_key_lt(origin, nodes[n], nodes[i]) {
            assert forall|j: int| 0 <= j < nodes.len() && node_candidate(#[trigger] nodes[j], kind) implies !node_key_lt(
                origin,
                nodes[j],
                nodes[n],
            ) && (j < n ==> node_key_lt(origin, nodes[n], nodes[j])) by {
                if j < n {
                    assert(p[j] == nodes[j]);
                    assert(node_candidate(p[j], kind));
                    assert(!node_key_lt(origin, p[j], p[i]));
                }
            }
            assert(is_nearest_node(origin, kind, nodes, n));
        } else {
            assert forall|j: int| 0 <= j < nodes.len() && node_candidate(#[trigger] nodes[j], kind) implies !node_key_lt(
                origin,
                nodes[j],
                nodes[i],
            ) && (j < i ==> node_key_lt(origin, nodes[i], nodes[j])) by {
                if j < n {
                    assert(p[j] == nodes[j]);
                    assert(node_candidate(p[j], kind));
                }
            }
            assert(is_nearest_node(origin, kind, nodes, i));
        }
    } else {
        assert(w == n);
        assert forall|j: int| 0 <= j < nodes.len() && node_candidate(#[trigger] nodes[j], kind) implies !node_key_lt(
            origin,
            nodes[j],
            nodes[n],
        ) && (j < n ==> node_key_lt(origin, nodes[n], nodes[j])) by {
            if j < n {
                assert(node_candidate(nodes[j], kind));
            }
        }
        assert(is_nearest_node(origin, kind, nodes, n));
    }
}

/// Nearest nodes are unique: two positions that both qualify are the same.
pub proof fn lemma_nearest_node_unique(
    origin: CellCoord,
    kind: ResourceKind,
    nodes: Seq<ResourceNodeRecord>,
    i: int,
    j: int,
)
    requires
        is_nearest_node(origin, kind, nodes, i),
        is_nearest_node(origin, kind, nodes, j),
    ensures
        i == j,
{
    if i < j {
        assert(node_key_lt(origin, nodes[i], nodes[j]));
    } else if j < i {
        assert(node_key_lt(origin, nodes[j], nodes[i]));
    }
}

/// Position of the nearest node of a kind (meaningful when one is available).
pub open spec fn nearest_index(origin: CellCoord, kind: ResourceKind, nodes: Seq<ResourceNodeRecord>) -> int {
    choose|i: int| is_nearest_node(origin, kind, nodes, i)
}

/// Order on construction target kinds: by the key of each kind's nearest
/// node, then by the kind's position in `ResourceKind::ALL`.
pub open spec fn target_kind_lt(
    origin: CellCoord,
    nodes: Seq<ResourceNodeRecord>,
    a: ResourceKind,
    b: ResourceKind,
) -> bool {
    let na = nodes[nearest_index(origin, a, nodes)];
    let nb = nodes[nearest_index(origin, b, nodes)];
    node_key_lt(origin, na, nb) || (!node_key_lt(origin, nb, na) && a.ordinal() < b.ordinal())
}

/// Whether a kind is still owed to a blueprint and can be gathered.
pub open spec fn target_kind_candidate(
    deposited: ResourceAmounts,
    cost: ResourceAmounts,
    nodes: Seq<ResourceNodeRecord>,
    k: ResourceKind,
) -> bool {
    remaining_of(cost, deposited, k) > 0 && spec_kind_available(k, nodes)
}

/// The kind a builder should gather next: among kinds still owed that some
/// node can supply, the one whose nearest node is closest (ties by row,
/// column, entity bits, then kind order).
pub fn construction_resource_target_kind(
    origin: CellCoord,
    progress: &ConstructionProgress,
    cost: ResourceAmounts,
    nodes: &[ResourceNodeRecord],
) -> (r: Option<ResourceKind>)
    ensures
        r is None <==> forall|k: ResourceKind| !#[trigger] target_kind_candidate(progress.deposited, cost, nodes@, k),
        r matches Some(k) ==> target_kind_candidate(progress.deposited, cost, nodes@, k) && forall|
            other: ResourceKind,
        |
            other != k && #[trigger] target_kind_candidate(progress.deposited, cost, nodes@, other)
                ==> target_kind_lt(origin, nodes@, k, other),
{
    let kinds: [ResourceKind; 4] = [
        ResourceKind::Wood,
        ResourceKind::Stone,
        ResourceKind::Food,
        ResourceKind::Gold,
    ];
    let mut best: Option<(ResourceKind, ResourceNodeRecord)> = None;
    let mut i: usize = 0;
    while i < 4
        invariant
            0 <= i <= 4,
            kinds@ == seq![ResourceKind::Wood, ResourceKind::Stone, ResourceKind::Food, ResourceKind::Gold],
            forall|k: ResourceKind|
                k.ordinal() < i && #[trigger] target_kind_candidate(progress.deposited, cost, nodes@, k)
                    ==> best is Some,
            best matches Some((bk, bn)) ==> {
                &&& bk.ordinal() < i
                &&& target_kind_candidate(progress.deposited, cost, nodes@, bk)
                &&& bn == nodes@[nearest_index(origin, bk, nodes@)]
                &&& forall|k: ResourceKind|
                    k != bk && k.ordinal() < i && #[trigger] target_kind_candidate(
                        progress.deposited,
                        cost,
                        nodes@,
                        k,
                    ) ==> target_kind_lt(origin, nodes@, bk, k)
            },
        decreases 4 - i,
    {
        let kind = kinds[i];
        assert(kind.ordinal() == i);
        if progress.remaining(cost, kind) > 0 {
            let found = nearest_node_record(origin, kind, nodes);
            if let Some(n) = found {
                match best {
                    None => {
                        best = Some((kind, n));
                    },
                    Some((bk, bn)) => {
                        if node_key_less(origin, n, bn) {
                            best = Some((kind, n));
                        }
                    },
                }
            }
        }
        i = i + 1;
    }
    match best {
        Some((k, _)) => Some(k),
        None => None,
    }
}

/// The record of the nearest node of a kind.
fn nearest_node_record(origin: CellCoord, kind: ResourceKind, nodes: &[ResourceNodeRecord]) -> (r:
    Option<ResourceNodeRecord>)
    ensures
        r is None <==> !spec_kind_available(kind, nodes@),
        r matches Some(n) ==> n == nodes@[nearest_index(origin, kind, nodes@)] && is_nearest_node(
            origin,
            kind,
            nodes@,
            nearest_index(origin, kind, nodes@),
        ),
{
    let mut best: Option<usize> = None;
    let mut i: usize = 0;
    while i < nodes.len()
        invariant
            0 <= i <= nodes@.len(),
            best is None <==> forall|j: int| 0 <= j < i ==> !node_candidate(#[trigger] nodes@[j], kind),
            best matches Some(b) ==> b < i && node_candidate(nodes@[b as int], kind) && forall|j: int|
                0 <= j < i && node_candidate(#[trigger] nodes@[j], kind) ==> !node_key_lt(
                    origin,
                    nodes@[j],
                    nodes@[b as int],
                ) && (j < b ==> node_key_lt(origin, nodes@[b as int], nodes@[j])),
        decreases nodes@.len() - i,
    {
        let n = nodes[i];
        if n.node.kind == kind && n.node.quantity > 0 {
            match best {
                None => {
                    best = Some(i);
                },
                Some(b) => {
                    if node_key_less(origin, n, nodes[b]) {
                        proof {
                            lemma_node_key_lt_transitive_total(origin, nodes@, i as int, b as int);
                        }
                        best = Some(i);
                    }
                },
            }
        }
        i = i + 1;
    }
    match best {
        Some(b) => {
            proof {
                assert(is_nearest_node(origin, kind, nodes@, b as int));
                let c = nearest_index(origin, kind, nodes@);
                lemma_nearest_node_unique(origin, kind, nodes@, b as int, c);
            }
            Some(nodes[b])
        },
        None => {
            proof {
                if spec_kind_available(kind, nodes@) {
                    let j = choose|j: int|
                        0 <= j < nodes@.len() && (#[trigger] nodes@[j]).node.kind == kind
                            && nodes@[j].node.quantity > 0;
                    assert(node_candidate(nodes@[j], kind));
                }
            }
            None
        },
    }
}

/// A blueprint entity with its construction progress and cost.
#[derive(Debug, Clone, Copy, PartialEq, Eq, Structural)]
pub struct BlueprintRecord {
    pub entity: EntityId,
    pub blueprint: BuildingBlueprint,
    pub progress: ConstructionProgress,
    pub cost: ResourceAmounts,
}

/// The first record of an entity, if any.
#[verifier::opaque]
pub open spec fn first_blueprint(records: Seq<BlueprintRecord>, e: EntityId) -> Option<BlueprintRecord> {
    if exists|i: int| 0 <= i < records.len() && records[i].entity == e {
        Some(
            records[choose|i: int|
                0 <= i < records.len() && records[i].entity == e && forall|j: int|
                    0 <= j < i ==> (#[trigger] records[j]).entity != e],
        )
    } else {
        None
    }
}

/// Looks up the first record of an entity.
pub fn find_blueprint(records: &[BlueprintRecord], e: EntityId) -> (r: Option<BlueprintRecord>)
    ensures
        r == first_blueprint(records@, e),
{
    let mut i: usize = 0;
    while i < records.len()
        invariant
            0 <= i <= records@.len(),
            forall|j: int| 0 <= j < i ==> (#[trigger] records@[j]).entity != e,
        decreases records@.len() - i,
    {
        if records[i].entity == e {
            proof {
                reveal(first_blueprint);
                let c = choose|c: int|
                    0 <= c < records@.len() && records@[c].entity == e && forall|j: int|
                        0 <= j < c ==> (#[trigger] records@[j]).entity != e;
                if c < i {
                } else if c > i {
                    assert(records@[i as int].entity == e);
                }
            }
            return Some(records[i]);
        }
        i = i + 1;
    }
    proof {
        reveal(first_blueprint);
    }
    None
}

/// Whether a construction task's blueprint exists, is incomplete, and the NPC
/// can do something for it.
pub open spec fn task_candidate(
    inventory: NpcInventory,
    records: Seq<BlueprintRecord>,
    nodes: Seq<ResourceNodeRecord>,
    task: EntityId,
) -> bool {
    match first_blueprint(records, task) {
        Some(b) => !deposits_cover(b.cost, b.progress.deposited) && (spec_has_depositable(
            inventory.store().spec_contents(),
            b.progress.deposited,
            b.cost,
        ) || (inventory.store().spec_free_size() > 0 && spec_needed_kind_available(
            b.progress.deposited,
            b.cost,
            nodes,
        ))),
        None => false,
    }
}

/// Order on blueprints to work on: distance from the NPC to the footprint
/// origin, then the origin's row and column, then entity bits.
pub open spec fn blueprint_key_lt(origin: CellCoord, a: BlueprintRecord, b: BlueprintRecord) -> bool {
    let oa = a.blueprint.footprint.origin;
    let ob = b.blueprint.footprint.origin;
    let da = manhattan(origin, oa);
    let db = manhattan(origin, ob);
    da < db || (da == db && (oa.y < ob.y || (oa.y == ob.y && (oa.x < ob.x || (oa.x == ob.x
        && a.entity.bits < b.entity.bits)))))
}

fn blueprint_key_less(origin: CellCoord, a: BlueprintRecord, b: BlueprintRecord) -> (r: bool)
    ensures
        r == blueprint_key_lt(origin, a, b),
{
    let oa = a.blueprint.footprint.origin;
    let ob = b.blueprint.footprint.origin;
    let da = manhattan_distance(origin, oa);
    let db = manhattan_distance(origin, ob);
    da < db || (da == db && (oa.y < ob.y || (oa.y == ob.y && (oa.x < ob.x || (oa.x == ob.x
        && a.entity.bits < b.entity.bits)))))
}

/// The blueprint an idle NPC should work on: among construction tasks whose
/// blueprint is incomplete and actionable for the NPC, the first one with the
/// least key.
pub fn construction_work_target(
    origin: CellCoord,
    inventory: &NpcInventory,
    tasks: &[EntityId],
    records: &[BlueprintRecord],
    nodes: &[ResourceNodeRecord],
) -> (r: Option<EntityId>)
    ensures
        r is None <==> forall|t: int| 0 <= t < tasks@.len() ==> !task_candidate(*inventory, records@, nodes@, #[trigger] tasks@[t]),
        r matches Some(e) ==> exists|t: int|
            0 <= t < tasks@.len() && task_candidate(*inventory, records@, nodes@, tasks@[t])
                && first_blueprint(records@, tasks@[t]).unwrap().entity == e && forall|u: int|
                0 <= u < tasks@.len() && task_candidate(*inventory, records@, nodes@, #[trigger] tasks@[u])
                    ==> !blueprint_key_lt(
                    origin,
                    first_blueprint(records@, tasks@[u]).unwrap(),
                    first_blueprint(records@, tasks@[t]).unwrap(),
                ),
{
    let mut best: Option<(usize, BlueprintRecord)> = None;
    let mut i: usize = 0;
    while i < tasks.len()
        invariant
            0 <= i <= tasks@.len(),
            best is None <==> forall|t: int| 0 <= t < i ==> !task_candidate(*inventory, records@, nodes@, #[trigger] tasks@[t]),
            best matches Some((bt, br)) ==> {
                &&& bt < i
                &&& task_candidate(*inventory, records@, nodes@, tasks@[bt as int])
                &&& br == first_blueprint(records@, tasks@[bt as int]).unwrap()
                &&& forall|u: int|
                    0 <= u < i && task_candidate(*inventory, records@, nodes@, #[trigger] tasks@[u])
                        ==> !blueprint_key_lt(origin, first_blueprint(records@, tasks@[u]).unwrap(), br)
            },
        decreases tasks@.len() - i,
    {
        let task = tasks[i];
        if let Some(record) = find_blueprint(records, task) {
            let complete = record.progress.is_complete(record.cost);
            if !complete && construction_work_is_actionable(inventory, &record.progress, record.cost, nodes) {
                match best {
                    None => {
                        best = Some((i, record));
                    },
                    Some((_, br)) => {
                        if blueprint_key_less(origin, record, br) {
                            best = Some((i, record));
                        }
                    },
                }
            }
        }
        i = i + 1;
    }
    match best {
        Some((_, br)) => Some(br.entity),
        None => None,
    }
}

/// The cell `origin + offset`, if it fits in `i32`.
pub open spec fn offset_cell(origin: CellCoord, offset: (int, int)) -> Option<CellCoord> {
    let x = origin.x + offset.0;
    let y = origin.y + offset.1;
    if i32::MIN <= x <= i32::MAX && i32::MIN <= y <= i32::MAX {
        Some(CellCoord { x: x as i32, y: y as i32 })
    } else {
        None
    }
}

/// Whether the roam offset at a position of the ring gives a usable target.
pub open spec fn roam_target_ok(origin: CellCoord, current: CellCoord, size: GridSize, index: int) -> bool {
    match offset_cell(origin, idle_roam_offset(index)) {
        Some(t) => t != current && grid_contains(size, t),
        None => false,
    }
}

/// The next idle roam target around `origin`: walking the offset ring from
/// `start_offset_index`, the first offset that gives an in-grid cell other
/// than the current one, with the ring position after it.
pub fn idle_roam_target(
    origin: CellCoord,
    current: CellCoord,
    size: GridSize,
    start_offset_index: usize,
) -> (r: Option<(CellCoord, usize)>)
    ensures
        r is None <==> forall|step: int|
            0 <= step < 24 ==> !#[trigger] roam_target_ok(origin, current, size, (start_offset_index + step) % 24),
        r matches Some((t, next)) ==> exists|step: int|
            0 <= step < 24 && #[trigger] roam_target_ok(origin, current, size, (start_offset_index + step) % 24)
                && (forall|s: int| 0 <= s < step ==> !#[trigger] roam_target_ok(origin, current, size, (start_offset_index + s) % 24))
                && Some(t) == offset_cell(origin, idle_roam_offset((start_offset_index + step) % 24))
                && next == ((start_offset_index + step) % 24 + 1) % 24,
{
    let mut step: usize = 0;
    while step < IDLE_ROAM_OFFSET_COUNT
        invariant
            0 <= step <= 24,
            forall|s: int| 0 <= s < step ==> !#[trigger] roam_target_ok(origin, current, size, (start_offset_index + s) % 24),
        decreases 24 - step,
    {
        let index = (start_offset_index % IDLE_ROAM_OFFSET_COUNT + step) % IDLE_ROAM_OFFSET_COUNT;
        proof {
            vstd::arithmetic::div_mod::lemma_add_mod_noop(start_offset_index as int, step as int, 24);
            vstd::arithmetic::div_mod::lemma_small_mod(step as nat, 24);
        }
        let offset = idle_roam_offset_at(index);
        let x = origin.x as i64 + offset.0 as i64;
        let y = origin.y as i64 + offset.1 as i64;
        if x >= i32::MIN as i64 && x <= i32::MAX as i64 && y >= i32::MIN as i64 && y <= i32::MAX as i64 {
            let target = CellCoord::new(x as i32, y as i32);
            if target != current && size.contains(target) {
                proof {
                    let k = (start_offset_index + step) % 24;
                    assert(offset_cell(origin, idle_roam_offset(k)) == Some(target));
                    assert(roam_target_ok(origin, current, size, k));
                }
                return Some((target, (index + 1) % IDLE_ROAM_OFFSET_COUNT));
            }
        }
        step = step + 1;
    }
    None
}

/// Whether `step` is the first position of the offset ring, walked from
/// `start`, that gives a usable roam target.
pub open spec fn roam_step_first(origin: CellCoord, current: CellCoord, size: GridSize, start: int, step: int) -> bool {
    &&& 0 <= step < 24
    &&& roam_target_ok(origin, current, size, (start + step) % 24)
    &&& forall|s: int| 0 <= s < step ==> !#[trigger] roam_target_ok(origin, current, size, (start + s) % 24)
}

/// The idle roam target around `origin` and the ring position after it:
/// the first usable offset walking the ring from `start`, or `None`.
pub open spec fn spec_idle_roam_target(origin: CellCoord, current: CellCoord, size: GridSize, start: int) -> Option<(CellCoord, usize)> {
    if exists|step: int| #[trigger] roam_step_first(origin, current, size, start, step) {
        let st = choose|step: int| #[trigger] roam_step_first(origin, current, size, start, step);
        Some((offset_cell(origin, idle_roam_offset((start + st) % 24)).unwrap(), (((start + st) % 24 + 1) % 24) as usize))
    } else {
        None
    }
}

/// What `idle_roam_target` returns is `spec_idle_roam_target`: the first
/// usable step of the ring is unique.
pub proof fn lemma_idle_roam_target_is_first(
    origin: CellCoord,
    current: CellCoord,
    size: GridSize,
    start: usize,
    r: Option<(CellCoord, usize)>,
)
    requires
        r is None <==> forall|step: int|
            0 <= step < 24 ==> !#[trigger] roam_target_ok(origin, current, size, (start + step) % 24),
        r matches Some((t, next)) ==> exists|step: int|
            0 <= step < 24 && #[trigger] roam_target_ok(origin, current, size, (start + step) % 24)
                && (forall|s: int| 0 <= s < step ==> !#[trigger] roam_target_ok(origin, current, size, (start + s) % 24))
                && Some(t) == offset_cell(origin, idle_roam_offset((start + step) % 24))
                && next == ((start + step) % 24 + 1) % 24,
    ensures
        r == spec_idle_roam_target(origin, current, size, start as int),
{
    match r {
        None => {
            if exists|step: int| #[trigger] roam_step_first(origin, current, size, start as int, step) {
                let st = choose|step: int| #[trigger] roam_step_first(origin, current, size, start as int, step);
                assert(roam_target_ok(origin, current, size, (start + st) % 24));
            }
        },
        Some((t, next)) => {
            let st0 = choose|step: int|
                0 <= step < 24 && #[trigger] roam_target_ok(origin, current, size, (start + step) % 24)
                    && (forall|s: int| 0 <= s < step ==> !#[trigger] roam_target_ok(origin, current, size, (start + s) % 24))
                    && Some(t) == offset_cell(origin, idle_roam_offset((start + step) % 24))
                    && next == ((start + step) % 24 + 1) % 24;
            assert(roam_step_first(origin, current, size, start as int, st0));
            let st = choose|step: int| #[trigger] roam_step_first(origin, current, size, start as int, step);
            assert(roam_step_first(origin, current, size, start as int, st));
            if st < st0 {
                assert(roam_target_ok(origin, current, size, (start + st) % 24));
            }
            if st0 < st {
                assert(roam_target_ok(origin, current, size, (start + st0) % 24));
            }
            assert(st == st0);
        },
    }
}

/// A change to an NPC's movement, applied by the system that drives it.
#[derive(Debug, Clone, Copy, PartialEq, Eq, Structural)]
pub enum MoveCommand {
    /// Leave the movement as it is.
    Keep,
    /// Stop: drop the movement target.
    Stop,
    /// Route to the cells around a footprint (`footprint_approach_goals`),
    /// heading for its origin.
    ApproachFootprint(BuildingFootprint),
    /// Route to the cardinal neighbours of a cell (`cardinal_interaction_cells`),
    /// heading for the cell.
    ApproachCell(CellCoord),
    /// Route onto a cell.
    GoTo(CellCoord),
}

/// The cells of `cs` outside a footprint, in order.
pub open spec fn outside_footprint(f: BuildingFootprint, cs: Seq<CellCoord>) -> Seq<CellCoord>
    decreases cs.len(),
{
    if cs.len() == 0 {
        seq![]
    } else {
        outside_footprint(f, cs.drop_last()) + if footprint_contains(f, cs.last()) {
            seq![]
        } else {
            seq![cs.last()]
        }
    }
}

/// For each cell in `cells` in turn, its cardinal neighbours outside the
/// footprint.
pub open spec fn approach_goals_of(f: BuildingFootprint, cells: Seq<CellCoord>) -> Seq<CellCoord>
    decreases cells.len(),
{
    if cells.len() == 0 {
        seq![]
    } else {
        approach_goals_of(f, cells.drop_last()) + outside_footprint(f, spec_cardinal_cells(cells.last()))
    }
}

/// The cells from which to work on a footprint from outside: the cardinal
/// neighbours of its cells that lie outside it, cell by cell, repeats kept.
pub fn footprint_approach_goals(footprint: BuildingFootprint) -> (r: Vec<CellCoord>)
    ensures
        r@ == approach_goals_of(footprint, footprint_cells(footprint)),
{
    let cells = footprint.iter_coords();
    let mut goals: Vec<CellCoord> = Vec::new();
    let mut i: usize = 0;
    while i < cells.len()
        invariant
            cells@ == footprint_cells(footprint),
            0 <= i <= cells@.len(),
            goals@ == approach_goals_of(footprint, cells@.subrange(0, i as int)),
        decreases cells@.len() - i,
    {
        let around = cardinal_interaction_cells(cells[i]);
        let ghost g0 = goals@;
        let mut j: usize = 0;
        while j < around.len()
            invariant
                0 <= j <= around@.len(),
                goals@ == g0 + outside_footprint(footprint, around@.subrange(0, j as int)),
            decreases around@.len() - j,
        {
            let c = around[j];
            proof {
                assert(around@.subrange(0, j as int + 1).drop_last() =~= around@.subrange(0, j as int));
            }
            if !footprint.contains(c) {
                goals.push(c);
            }
            proof {
                assert(goals@ =~= g0 + outside_footprint(footprint, around@.subrange(0, j as int + 1)));
            }
            j = j + 1;
        }
        proof {
            assert(around@.subrange(0, around@.len() as int) =~= around@);
            assert(cells@.subrange(0, i as int + 1).drop_last() =~= cells@.subrange(0, i as int));
        }
        i = i + 1;
    }
    proof {
        assert(cells@.subrange(0, cells@.len() as int) =~= cells@);
    }
    goals
}

/// How an NPC at `position` with movement target `movement` heads for a
/// footprint: stops (or keeps still) once inside or beside it, otherwise
/// routes to the cells around it.
pub open spec fn spec_footprint_approach(
    footprint: BuildingFootprint,
    position: CellCoord,
    movement: Option<CellCoord>,
) -> MoveCommand {
    if at_or_beside_footprint(footprint, position) {
        if movement is Some { MoveCommand::Stop } else { MoveCommand::Keep }
    } else {
        MoveCommand::ApproachFootprint(footprint)
    }
}

pub fn footprint_approach(
    footprint: BuildingFootprint,
    position: CellCoord,
    movement: Option<CellCoord>,
) -> (r: MoveCommand)
    ensures
        r == spec_footprint_approach(footprint, position, movement),
{
    let reached = if footprint.contains(position) {
        true
    } else {
        let cells = footprint.iter_coords();
        beside_any(&cells, position)
    };
    if reached {
        if movement.is_some() { MoveCommand::Stop } else { MoveCommand::Keep }
    } else {
        MoveCommand::ApproachFootprint(footprint)
    }
}

/// Heads for the cells around `coord` unless already moving to it.
pub open spec fn spec_cell_approach(coord: CellCoord, movement: Option<CellCoord>) -> MoveCommand {
    if movement != Some(coord) { MoveCommand::ApproachCell(coord) } else { MoveCommand::Keep }
}

/// Heads onto `coord`: stops (or keeps still) once there, otherwise routes
/// to it unless already moving to it.
pub open spec fn spec_cell_visit(position: CellCoord, coord: CellCoord, movement: Option<CellCoord>) -> MoveCommand {
    if position == coord {
        if movement is Some { MoveCommand::Stop } else { MoveCommand::Keep }
    } else if movement != Some(coord) {
        MoveCommand::GoTo(coord)
    } else {
        MoveCommand::Keep
    }
}

pub fn cell_visit(position: CellCoord, coord: CellCoord, movement: Option<CellCoord>) -> (r: MoveCommand)
    ensures
        r == spec_cell_visit(position, coord, movement),
{
    if position == coord {
        if movement.is_some() { MoveCommand::Stop } else { MoveCommand::Keep }
    } else if movement != Some(coord) {
        MoveCommand::GoTo(coord)
    } else {
        MoveCommand::Keep
    }
}

/// What a builder does this tick.
#[derive(Debug, Clone, Copy, PartialEq, Eq, Structural)]
pub enum ConstructionStep {
    /// Busy with food, gathering or a haul: nothing.
    Skip,
    /// Give up the construction task and stop moving.
    Abandon,
    /// Change movement.
    Move(MoveCommand),
    /// Start gathering from a node next to the builder, stopping first when moving.
    Gather { node: EntityId, stop_moving: bool },
}

/// A blueprint a builder works on, with its progress and cost.
#[derive(Debug, Clone, Copy, PartialEq, Eq, Structural)]
pub struct ConstructionSite {
    pub blueprint: BuildingBlueprint,
    pub progress: ConstructionProgress,
    pub cost: ResourceAmounts,
}

/// Having settled on `kind`, a builder carries a full batch (or what it
/// holds, when it cannot gather more) to the footprint, or goes to gather
/// from the nearest node of the kind; it gives up with nothing to bring.
pub open spec fn spec_gather_or_deliver(
    position: CellCoord,
    contents: ResourceAmounts,
    free: int,
    site: ConstructionSite,
    kind: ResourceKind,
    movement: Option<CellCoord>,
    nodes: Seq<ResourceNodeRecord>,
) -> ConstructionStep {
    let remaining = remaining_of(site.cost, site.progress.deposited, kind);
    let carried = contents.amount(kind) as int;
    let deliver = ConstructionStep::Move(spec_footprint_approach(site.blueprint.footprint, position, movement));
    if carried >= batch_target(remaining) {
        deliver
    } else if free == 0 || !spec_kind_available(kind, nodes) {
        if carried > 0 { deliver } else { ConstructionStep::Abandon }
    } else {
        let n = nodes[nearest_index(position, kind, nodes)];
        if cardinally_adjacent(position, n.coord) {
            ConstructionStep::Gather { node: n.entity, stop_moving: movement is Some }
        } else {
            ConstructionStep::Move(spec_cell_approach(n.coord, movement))
        }
    }
}

/// A builder carrying some of its target kind never abandons the
/// construction task: when no node of the kind is left, or its inventory
/// has no room, it takes what it carries to the blueprint. It abandons only
/// empty-handed.
pub proof fn law_loaded_builder_delivers(
    position: CellCoord,
    contents: ResourceAmounts,
    free: int,
    site: ConstructionSite,
    kind: ResourceKind,
    movement: Option<CellCoord>,
    nodes: Seq<ResourceNodeRecord>,
)
    ensures
        spec_gather_or_deliver(position, contents, free, site, kind, movement, nodes) == ConstructionStep::Abandon
            ==> contents.amount(kind) == 0,
        contents.amount(kind) > 0 && (free == 0 || forall|i: int|
            0 <= i < nodes.len() ==> !((#[trigger] nodes[i]).node.kind == kind && nodes[i].node.quantity > 0))
            ==> spec_gather_or_deliver(position, contents, free, site, kind, movement, nodes)
                == ConstructionStep::Move(spec_footprint_approach(site.blueprint.footprint, position, movement)),
{
}

fn gather_or_deliver(
    position: CellCoord,
    inventory: &NpcInventory,
    site: ConstructionSite,
    kind: ResourceKind,
    movement: Option<CellCoord>,
    nodes: &[ResourceNodeRecord],
) -> (r: ConstructionStep)
    ensures
        r == spec_gather_or_deliver(
            position,
            inventory.store().spec_contents(),
            inventory.store().spec_free_size() as int,
            site,
            kind,
            movement,
            nodes@,
        ),
{
    let remaining = site.progress.remaining(site.cost, kind);
    let batch = if remaining < CONSTRUCTION_RESOURCE_DEPOSIT_BATCH_SIZE {
        remaining
    } else {
        CONSTRUCTION_RESOURCE_DEPOSIT_BATCH_SIZE
    };
    let carried = inventory.contents().get(kind);
    let deliver = ConstructionStep::Move(footprint_approach(site.blueprint.footprint, position, movement));
    if carried >= batch {
        return deliver;
    }
    if inventory.free_size() == 0 {
        return if carried > 0 { deliver } else { ConstructionStep::Abandon };
    }
    match nearest_node_record(position, kind, nodes) {
        None => {
            if carried > 0 { deliver } else { ConstructionStep::Abandon }
        },
        Some(n) => {
            if is_cardinally_adjacent(position, n.coord) {
                ConstructionStep::Gather { node: n.entity, stop_moving: movement.is_some() }
            } else if movement != Some(n.coord) {
                ConstructionStep::Move(MoveCommand::ApproachCell(n.coord))
            } else {
                ConstructionStep::Move(MoveCommand::Keep)
            }
        },
    }
}

/// One builder's construction routing for a tick. Busy builders do
/// nothing. A missing or complete blueprint is abandoned. A builder holding
/// something the blueprint needs, when the deposit rule says so, heads for
/// the footprint. Otherwise it drops a target kind no longer owed, picks one
/// when it has none (abandoning when no kind can be gathered), and then
/// delivers or gathers as `spec_gather_or_deliver` says.
pub fn construction_routing(
    busy: bool,
    position: CellCoord,
    inventory: &NpcInventory,
    construction: &mut AiConstructBuilding,
    site: Option<ConstructionSite>,
    movement: Option<CellCoord>,
    nodes: &[ResourceNodeRecord],
) -> (r: ConstructionStep)
    ensures
        final(construction).blueprint == old(construction).blueprint,
        busy ==> r == ConstructionStep::Skip && *final(construction) == *old(construction),
        !busy && site is None ==> r == ConstructionStep::Abandon && *final(construction) == *old(construction),
        (!busy && site is Some) ==> {
            let st = site.unwrap();
            let deposited = st.progress.deposited;
            let contents = inventory.store().spec_contents();
            let free = inventory.store().spec_free_size() as int;
            let kept = match old(construction).target_kind {
                Some(k) => if remaining_of(st.cost, deposited, k) == 0 { None } else { Some(k) },
                None => None,
            };
            if deposits_cover(st.cost, deposited) {
                r == ConstructionStep::Abandon && *final(construction) == *old(construction)
            } else if spec_should_route_to_deposit(contents, old(construction).target_kind, deposited, st.cost, nodes@) {
                r == ConstructionStep::Move(spec_footprint_approach(st.blueprint.footprint, position, movement))
                    && *final(construction) == *old(construction)
            } else if kept is Some {
                final(construction).target_kind == kept
                    && r == spec_gather_or_deliver(position, contents, free, st, kept.unwrap(), movement, nodes@)
            } else if forall|k: ResourceKind| !#[trigger] target_kind_candidate(deposited, st.cost, nodes@, k) {
                r == ConstructionStep::Abandon && final(construction).target_kind is None
            } else {
                &&& final(construction).target_kind matches Some(k) && target_kind_candidate(deposited, st.cost, nodes@, k)
                    && forall|other: ResourceKind|
                    other != k && #[trigger] target_kind_candidate(deposited, st.cost, nodes@, other)
                        ==> target_kind_lt(position, nodes@, k, other)
                &&& r == spec_gather_or_deliver(position, contents, free, st, final(construction).target_kind.unwrap(), movement, nodes@)
            }
        },
{
    if busy {
        return ConstructionStep::Skip;
    }
    let st = match site {
        Some(st) => st,
        None => {
            return ConstructionStep::Abandon;
        },
    };
    if st.progress.is_complete(st.cost) {
        return ConstructionStep::Abandon;
    }
    if should_route_to_construction_deposit(inventory, construction, &st.progress, st.cost, nodes) {
        return ConstructionStep::Move(footprint_approach(st.blueprint.footprint, position, movement));
    }
    if let Some(k) = construction.target_kind() {
        if st.progress.remaining(st.cost, k) == 0 {
            construction.clear_target_kind();
        }
    }
    let kind = match construction.target_kind() {
        Some(k) => k,
        None => {
            match construction_resource_target_kind(position, &st.progress, st.cost, nodes) {
                Some(k) => {
                    construction.set_target_kind(k);
                    k
                },
                None => {
                    return ConstructionStep::Abandon;
                },
            }
        },
    };
    gather_or_deliver(position, inventory, st, kind, movement, nodes)
}

/// What each kind a builder deposits: the least of what it carries, what is
/// still owed and one batch.
pub open spec fn deposit_amount(carried: int, remaining: int) -> int {
    let a = if carried < remaining { carried } else { remaining };
    if a < CONSTRUCTION_RESOURCE_DEPOSIT_BATCH_SIZE { a } else { CONSTRUCTION_RESOURCE_DEPOSIT_BATCH_SIZE as int }
}

/// Moves, kind by kind, up to one batch of what a builder carries and the
/// blueprint still needs from the inventory into the construction progress.
/// Returns whether anything was deposited.
pub fn deposit_construction_resources(
    inventory: &mut NpcInventory,
    progress: &mut ConstructionProgress,
    cost: ResourceAmounts,
) -> (deposited_any: bool)
    ensures
        forall|k: ResourceKind| #![trigger final(progress).deposited.amount(k)]
            final(progress).deposited.amount(k) == old(progress).deposited.amount(k) + deposit_amount(
                old(inventory).store().spec_contents().amount(k) as int,
                remaining_of(cost, old(progress).deposited, k),
            ),
        forall|k: ResourceKind| #![trigger final(inventory).store().spec_contents().amount(k)]
            final(inventory).store().spec_contents().amount(k) == old(inventory).store().spec_contents().amount(k)
                - deposit_amount(
                old(inventory).store().spec_contents().amount(k) as int,
                remaining_of(cost, old(progress).deposited, k),
            ),
        final(inventory).store().spec_max_size() == old(inventory).store().spec_max_size(),
        old(inventory).store().wf() ==> final(inventory).store().wf(),
        deposited_any == exists|k: ResourceKind| deposit_amount(
            old(inventory).store().spec_contents().amount(k) as int,
            remaining_of(cost, old(progress).deposited, k),
        ) > 0,
{
    let kinds: [ResourceKind; 4] = [ResourceKind::Wood, ResourceKind::Stone, ResourceKind::Food, ResourceKind::Gold];
    let mut deposited_any = false;
    let mut i: usize = 0;
    while i < 4
        invariant
            0 <= i <= 4,
            kinds@ == seq![ResourceKind::Wood, ResourceKind::Stone, ResourceKind::Food, ResourceKind::Gold],
            forall|k: ResourceKind| #![trigger progress.deposited.amount(k)]
                progress.deposited.amount(k) == old(progress).deposited.amount(k) + if k.ordinal() < i {
                    deposit_amount(
                        old(inventory).store().spec_contents().amount(k) as int,
                        remaining_of(cost, old(progress).deposited, k),
                    )
                } else {
                    0
                },
            forall|k: ResourceKind| #![trigger inventory.store().spec_contents().amount(k)]
                inventory.store().spec_contents().amount(k) == old(inventory).store().spec_contents().amount(k) - if k.ordinal() < i {
                    deposit_amount(
                        old(inventory).store().spec_contents().amount(k) as int,
                        remaining_of(cost, old(progress).deposited, k),
                    )
                } else {
                    0
                },
            inventory.store().spec_max_size() == old(inventory).store().spec_max_size(),
            old(inventory).store().wf() ==> inventory.store().wf(),
            deposited_any == exists|k: ResourceKind| k.ordinal() < i && deposit_amount(
                old(inventory).store().spec_contents().amount(k) as int,
                remaining_of(cost, old(progress).deposited, k),
            ) > 0,
        decreases 4 - i,
    {
        let kind = kinds[i];
        assert(kind.ordinal() == i);
        let ghost d0 = progress.deposited;
        let ghost c0 = inventory.store().spec_contents();
        let carried = inventory.contents().get(kind);
        let remaining = progress.remaining(cost, kind);
        let a = if carried < remaining { carried } else { remaining };
        let amount = if a < CONSTRUCTION_RESOURCE_DEPOSIT_BATCH_SIZE { a } else { CONSTRUCTION_RESOURCE_DEPOSIT_BATCH_SIZE };
        proof {
            assert(c0.amount(kind) == old(inventory).store().spec_contents().amount(kind));
            assert(d0.amount(kind) == old(progress).deposited.amount(kind));
            assert(remaining_of(cost, d0, kind) == remaining_of(cost, old(progress).deposited, kind));
        }
        if amount > 0 {
            let ok = inventory.consume(kind, amount);
            assert(ok);
            progress.deposit(kind, amount, cost);
            deposited_any = true;
        }
        proof {
            assert forall|k: ResourceKind| #![trigger progress.deposited.amount(k)]
                progress.deposited.amount(k) == old(progress).deposited.amount(k) + if k.ordinal() < i + 1 {
                    deposit_amount(
                        old(inventory).store().spec_contents().amount(k) as int,
                        remaining_of(cost, old(progress).deposited, k),
                    )
                } else {
                    0
                } by {
                if k != kind {
                    assert(progress.deposited.amount(k) == d0.amount(k));
                }
            }
            assert forall|k: ResourceKind| #![trigger inventory.store().spec_contents().amount(k)]
                inventory.store().spec_contents().amount(k) == old(inventory).store().spec_contents().amount(k) - if k.ordinal() < i + 1 {
                    deposit_amount(
                        old(inventory).store().spec_contents().amount(k) as int,
                        remaining_of(cost, old(progress).deposited, k),
                    )
                } else {
                    0
                } by {
                if k != kind {
                    assert(inventory.store().spec_contents().amount(k) == c0.amount(k));
                }
            }
            if deposit_amount(c0.amount(kind) as int, remaining_of(cost, d0, kind)) > 0 {
                assert(deposited_any);
            }
        }
        i = i + 1;
    }
    proof {
        if exists|k: ResourceKind| deposit_amount(
            old(inventory).store().spec_contents().amount(k) as int,
            remaining_of(cost, old(progress).deposited, k),
        ) > 0 {
            let k = choose|k: ResourceKind| deposit_amount(
                old(inventory).store().spec_contents().amount(k) as int,
                remaining_of(cost, old(progress).deposited, k),
            ) > 0;
            assert(k.ordinal() < 4);
        }
    }
    deposited_any
}

/// Whether an NPC starts, keeps or ends its search for food.
#[derive(Debug, Clone, Copy, PartialEq, Eq, Structural)]
pub enum FoodSearchChange {
    /// Leave things as they are.
    Unchanged,
    /// Start searching for food.
    Start,
    /// End the search and stop moving.
    Stop,
}

/// Keeping enough food: a searching NPC stops once it should no longer keep
/// refilling or no food is left anywhere; an NPC not searching starts when
/// it should start refilling and food is available.
pub open spec fn spec_food_goal_change(
    carried_food: int,
    free_size: int,
    goal: AiKeepEnoughFoodInInventory,
    searching: bool,
    food_available: bool,
) -> FoodSearchChange {
    if searching {
        if !spec_should_continue_food_refill(carried_food, free_size, goal) || !food_available {
            FoodSearchChange::Stop
        } else {
            FoodSearchChange::Unchanged
        }
    } else if spec_should_start_food_refill(carried_food, free_size, goal) && food_available {
        FoodSearchChange::Start
    } else {
        FoodSearchChange::Unchanged
    }
}

pub fn food_goal_change(
    inventory: &NpcInventory,
    goal: &AiKeepEnoughFoodInInventory,
    searching: bool,
    food_available: bool,
) -> (r: FoodSearchChange)
    ensures
        r == spec_food_goal_change(
            inventory.store().spec_contents().food as int,
            inventory.store().spec_free_size() as int,
            *goal,
            searching,
            food_available,
        ),
{
    if searching {
        if !should_continue_food_refill(inventory, goal) || !food_available {
            FoodSearchChange::Stop
        } else {
            FoodSearchChange::Unchanged
        }
    } else if should_start_food_refill(inventory, goal) && food_available {
        FoodSearchChange::Start
    } else {
        FoodSearchChange::Unchanged
    }
}

/// What a food-searching NPC does this tick.
#[derive(Debug, Clone, Copy, PartialEq, Eq, Structural)]
pub enum FoodSearchStep {
    /// End the search and stop moving.
    Stop,
    /// Next to the nearest food node: stop moving when moving, and start
    /// gathering from it unless already doing so.
    AtFood { node: EntityId, stop_moving: bool, start_gathering: bool },
    /// Change movement towards the nearest food node.
    Move(MoveCommand),
}

/// A searching NPC ends the search once it should no longer refill or no
/// food node is left; next to the nearest food node it gathers there;
/// otherwise it heads for the cells around that node.
pub open spec fn spec_food_search_step(
    position: CellCoord,
    carried_food: int,
    free_size: int,
    goal: AiKeepEnoughFoodInInventory,
    gathering: Option<EntityId>,
    movement: Option<CellCoord>,
    nodes: Seq<ResourceNodeRecord>,
) -> FoodSearchStep {
    if !spec_should_continue_food_refill(carried_food, free_size, goal) || !spec_kind_available(ResourceKind::Food, nodes) {
        FoodSearchStep::Stop
    } else {
        let n = nodes[nearest_index(position, ResourceKind::Food, nodes)];
        if cardinally_adjacent(position, n.coord) {
            FoodSearchStep::AtFood {
                node: n.entity,
                stop_moving: movement is Some,
                start_gathering: gathering != Some(n.entity),
            }
        } else {
            FoodSearchStep::Move(spec_cell_approach(n.coord, movement))
        }
    }
}

/// Next to a food node, a searching NPC gathers there: it starts gathering
/// exactly when it is not already gathering that node, the node is a food
/// node with food left next to it, and it stops moving exactly when it was
/// moving.
pub proof fn law_food_search_gathers_at_food(
    position: CellCoord,
    carried_food: int,
    free_size: int,
    goal: AiKeepEnoughFoodInInventory,
    gathering: Option<EntityId>,
    movement: Option<CellCoord>,
    nodes: Seq<ResourceNodeRecord>,
)
    ensures
        spec_food_search_step(position, carried_food, free_size, goal, gathering, movement, nodes) matches
            FoodSearchStep::AtFood { node, stop_moving, start_gathering } ==> {
            &&& start_gathering == (gathering != Some(node))
            &&& stop_moving == (movement is Some)
            &&& exists|i: int| 0 <= i < nodes.len() && (#[trigger] nodes[i]).entity == node
                && nodes[i].node.kind == ResourceKind::Food && nodes[i].node.quantity > 0
                && cardinally_adjacent(position, nodes[i].coord)
        },
        forall|k: int|
            #![trigger is_nearest_node(position, ResourceKind::Food, nodes, k)]
            is_nearest_node(position, ResourceKind::Food, nodes, k) && cardinally_adjacent(position, nodes[k].coord)
                && spec_should_continue_food_refill(carried_food, free_size, goal)
                ==> spec_food_search_step(position, carried_food, free_size, goal, gathering, movement, nodes)
                    == (FoodSearchStep::AtFood {
                        node: nodes[k].entity,
                        stop_moving: movement is Some,
                        start_gathering: gathering != Some(nodes[k].entity),
                    }),
{
    assert forall|k: int|
        #![trigger is_nearest_node(position, ResourceKind::Food, nodes, k)]
        is_nearest_node(position, ResourceKind::Food, nodes, k) && cardinally_adjacent(position, nodes[k].coord)
            && spec_should_continue_food_refill(carried_food, free_size, goal)
            implies spec_food_search_step(position, carried_food, free_size, goal, gathering, movement, nodes)
                == (FoodSearchStep::AtFood {
                    node: nodes[k].entity,
                    stop_moving: movement is Some,
                    start_gathering: gathering != Some(nodes[k].entity),
                }) by {
        assert(spec_kind_available(ResourceKind::Food, nodes));
        let c = nearest_index(position, ResourceKind::Food, nodes);
        assert(is_nearest_node(position, ResourceKind::Food, nodes, c));
        lemma_nearest_node_unique(position, ResourceKind::Food, nodes, c, k);
    }
    let r = spec_food_search_step(position, carried_food, free_size, goal, gathering, movement, nodes);
    if r is AtFood {
        let k = nearest_index(position, ResourceKind::Food, nodes);
        let i = choose|i: int| 0 <= i < nodes.len() && (#[trigger] nodes[i]).node.kind == ResourceKind::Food
            && nodes[i].node.quantity > 0;
        assert(node_candidate(nodes[i], ResourceKind::Food));
        lemma_nearest_exists(position, ResourceKind::Food, nodes, i);
        assert(is_nearest_node(position, ResourceKind::Food, nodes, k));
        assert(nodes[k].entity == r->node);
    }
}

pub fn food_search_step(
    position: CellCoord,
    inventory: &NpcInventory,
    goal: &AiKeepEnoughFoodInInventory,
    gathering: Option<EntityId>,
    movement: Option<CellCoord>,
    nodes: &[ResourceNodeRecord],
) -> (r: FoodSearchStep)
    ensures
        r == spec_food_search_step(
            position,
            inventory.store().spec_contents().food as int,
            inventory.store().spec_free_size() as int,
            *goal,
            gathering,
            movement,
            nodes@,
        ),
{
    if !should_continue_food_refill(inventory, goal) {
        return FoodSearchStep::Stop;
    }
    match nearest_node_record(position, ResourceKind::Food, nodes) {
        None => FoodSearchStep::Stop,
        Some(n) => {
            if is_cardinally_adjacent(position, n.coord) {
                FoodSearchStep::AtFood {
                    node: n.entity,
                    stop_moving: movement.is_some(),
                    start_gathering: gathering != Some(n.entity),
                }
            } else if movement != Some(n.coord) {
                FoodSearchStep::Move(MoveCommand::ApproachCell(n.coord))
            } else {
                FoodSearchStep::Move(MoveCommand::Keep)
            }
        },
    }
}

/// How a tick of gathering ends.
#[derive(Debug, Clone, Copy, PartialEq, Eq, Structural)]
pub enum GatherOutcome {
    /// The node is gone, out of reach or empty, or the unit does not fit:
    /// stop gathering.
    Abort,
    /// Not enough ticks yet.
    InProgress,
    /// One unit was gathered and gathering ends. The node keeps
    /// `node_remaining` units (removed at zero); `stop_search` asks to end the
    /// food search.
    Gathered { node_remaining: u32, stop_search: bool },
}

/// Whether a gatherer at `position` can work a node at `node_coord`: on it
/// or beside it.
pub open spec fn gather_reach(position: CellCoord, node_coord: CellCoord) -> bool {
    position == node_coord || cardinally_adjacent(position, node_coord)
}

/// One tick of gathering from the target node, given with its cell (`None`
/// when it no longer exists). Out of reach or empty: abort, nothing changed.
/// Otherwise one tick of progress; once `RESOURCE_GATHER_TICKS_PER_UNIT`
/// ticks are reached, one unit moves from the node to the inventory (abort,
/// nothing moved, when it does not fit), the gathering skill (when the NPC
/// has skills) gains one point, and a food search ends when food was
/// gathered and the goal no longer asks for more.
pub fn gather_tick(
    position: CellCoord,
    inventory: &mut NpcInventory,
    gather: &mut AiGatherResource,
    skills: &mut Option<NpcSkills>,
    searching: bool,
    keep_food: Option<AiKeepEnoughFoodInInventory>,
    target: Option<(CellCoord, ResourceNode)>,
) -> (r: GatherOutcome)
    ensures
        final(gather).target == old(gather).target,
        target is None ==> r == GatherOutcome::Abort && *final(gather) == *old(gather)
            && *final(inventory) == *old(inventory) && *final(skills) == *old(skills),
        target is Some && !(gather_reach(position, target.unwrap().0) && target.unwrap().1.quantity > 0) ==> r
            == GatherOutcome::Abort && *final(gather) == *old(gather) && *final(inventory) == *old(inventory)
            && *final(skills) == *old(skills),
        target is Some && gather_reach(position, target.unwrap().0) && target.unwrap().1.quantity > 0 ==> {
            let node = target.unwrap().1;
            let ticks = if old(gather).progress_ticks == u32::MAX {
                u32::MAX as int
            } else {
                old(gather).progress_ticks + 1
            };
            let kind = node.kind;
            let c0 = old(inventory).store().spec_contents();
            let fits = c0.amount(kind) + 1 <= u32::MAX && 1 <= old(inventory).store().spec_free_size();
            &&& final(gather).progress_ticks == ticks
            &&& ticks < RESOURCE_GATHER_TICKS_PER_UNIT ==> r == GatherOutcome::InProgress
                && *final(inventory) == *old(inventory) && *final(skills) == *old(skills)
            &&& ticks >= RESOURCE_GATHER_TICKS_PER_UNIT && !fits ==> r == GatherOutcome::Abort
                && *final(inventory) == *old(inventory) && *final(skills) == *old(skills)
            &&& ticks >= RESOURCE_GATHER_TICKS_PER_UNIT && fits ==> {
                let c1 = c0.with_amount(kind, (c0.amount(kind) + 1) as u32);
                let skill = SkillKind::gathering_skill(kind);
                &&& final(inventory).store().spec_contents() == c1
                &&& match *old(skills) {
                    Some(sk) => (*final(skills)) is Some && (*final(skills)).unwrap().skill(skill) == clamp_skill(sk.skill(skill) + 1)
                        && forall|k: SkillKind| k != skill ==> #[trigger] (*final(skills)).unwrap().skill(k) == sk.skill(k),
                    None => (*final(skills)) is None,
                }
                &&& r == GatherOutcome::Gathered {
                    node_remaining: (node.quantity - 1) as u32,
                    stop_search: kind == ResourceKind::Food && searching && match keep_food {
                        Some(goal) => !spec_should_continue_food_refill(
                            c1.food as int,
                            final(inventory).store().spec_free_size() as int,
                            goal,
                        ),
                        None => false,
                    },
                }
            }
        },
        final(inventory).store().spec_max_size() == old(inventory).store().spec_max_size(),
        old(inventory).store().wf() ==> final(inventory).store().wf(),
{
    let (coord, node) = match target {
        Some(t) => t,
        None => {
            return GatherOutcome::Abort;
        },
    };
    if !(position == coord || is_cardinally_adjacent(position, coord)) || node.quantity == 0 {
        proof {
            assert(target.unwrap().0 == coord);
            assert(!gather_reach(position, coord) || node.quantity == 0);
        }
        return GatherOutcome::Abort;
    }
    gather.advance_tick();
    if gather.progress_ticks() < RESOURCE_GATHER_TICKS_PER_UNIT {
        return GatherOutcome::InProgress;
    }
    let kind = node.kind;
    if !inventory.add(kind, 1) {
        return GatherOutcome::Abort;
    }
    match skills {
        Some(sk) => {
            let mut updated = *sk;
            updated.add_xp(SkillKind::for_gathered_resource(kind), 1);
            *skills = Some(updated);
        },
        None => {},
    }
    let remaining = node.quantity - 1;
    let stop_search = kind == ResourceKind::Food && searching && match keep_food {
        Some(goal) => !should_continue_food_refill(inventory, &goal),
        None => false,
    };
    GatherOutcome::Gathered { node_remaining: remaining, stop_search }
}

/// Cells `(x0 + i * dx, y0 + i * dy)` for `i` in `0..n`.
pub open spec fn line_cells(x0: int, y0: int, dx: int, dy: int, n: int) -> Seq<CellCoord> {
    Seq::new(n as nat, |i: int| CellCoord { x: (x0 + i * dx) as i32, y: (y0 + i * dy) as i32 })
}

/// The cells of `cs` that lie in the grid, in order.
pub open spec fn in_grid(size: GridSize, cs: Seq<CellCoord>) -> Seq<CellCoord>
    decreases cs.len(),
{
    if cs.len() == 0 {
        seq![]
    } else {
        in_grid(size, cs.drop_last()) + if grid_contains(size, cs.last()) {
            seq![cs.last()]
        } else {
            seq![]
        }
    }
}

fn line_coord(a0: i32, i: i32, da: i32) -> (r: i32)
    requires
        -1 <= da <= 1,
        0 <= i,
        i32::MIN <= a0 + i * da <= i32::MAX,
    ensures
        r == a0 + i * da,
{
    if da == 1 {
        assert(i * da == i) by (nonlinear_arith)
            requires
                da == 1,
        ;
        a0 + i
    } else if da == -1 {
        assert(i * da == -i) by (nonlinear_arith)
            requires
                da == -1,
        ;
        a0 - i
    } else {
        assert(i * da == 0) by (nonlinear_arith)
            requires
                da == 0,
        ;
        a0
    }
}

/// Appends the in-grid cells of a line of `n` cells from `(x0, y0)` in steps
/// of `(dx, dy)`.
fn push_line(candidates: &mut Vec<CellCoord>, size: GridSize, x0: i32, y0: i32, dx: i32, dy: i32, n: i32)
    requires
        -1 <= dx <= 1,
        -1 <= dy <= 1,
        0 <= n,
        n > 0 ==> i32::MIN <= x0 + (n - 1) * dx <= i32::MAX && i32::MIN <= y0 + (n - 1) * dy <= i32::MAX,
    ensures
        final(candidates)@ == old(candidates)@ + in_grid(size, line_cells(x0 as int, y0 as int, dx as int, dy as int, n as int)),
{
    let ghost c0 = candidates@;
    let mut i: i32 = 0;
    while i < n
        invariant
            -1 <= dx <= 1,
            -1 <= dy <= 1,
            0 <= i <= n,
            n > 0 ==> i32::MIN <= x0 + (n - 1) * dx <= i32::MAX && i32::MIN <= y0 + (n - 1) * dy <= i32::MAX,
            candidates@ == c0 + in_grid(size, line_cells(x0 as int, y0 as int, dx as int, dy as int, i as int)),
        decreases n - i,
    {
        proof {
            assert(i32::MIN <= x0 + i * dx <= i32::MAX) by (nonlinear_arith)
                requires
                    -1 <= dx <= 1,
                    0 <= i < n,
                    i32::MIN <= x0 <= i32::MAX,
                    i32::MIN <= x0 + (n - 1) * dx <= i32::MAX,
            ;
            assert(i32::MIN <= y0 + i * dy <= i32::MAX) by (nonlinear_arith)
                requires
                    -1 <= dy <= 1,
                    0 <= i < n,
                    i32::MIN <= y0 <= i32::MAX,
                    i32::MIN <= y0 + (n - 1) * dy <= i32::MAX,
            ;
        }
        let c = CellCoord { x: line_coord(x0, i, dx), y: line_coord(y0, i, dy) };
        if size.contains(c) {
            candidates.push(c);
        }
        proof {
            let l = line_cells(x0 as int, y0 as int, dx as int, dy as int, i as int + 1);
            assert(l.drop_last() =~= line_cells(x0 as int, y0 as int, dx as int, dy as int, i as int));
            assert(l.last() == c);
        }
        i = i + 1;
    }
}

/// The ring of roam cells at Manhattan distance `d` around the rectangle
/// `left..=right` by `top..=bottom`, walked clockwise from the top-left
/// corner of its top edge: top edge, north-east diagonal, right edge,
/// south-east diagonal, bottom edge (leftwards), south-west diagonal, left
/// edge (upwards), north-west diagonal; only in-grid cells. Empty when the
/// ring's edges would not fit in `i32`.
pub open spec fn roam_ring(size: GridSize, left: int, top: int, right: int, bottom: int, d: int) -> Seq<CellCoord> {
    if top - d < i32::MIN || right + d > i32::MAX || bottom + d > i32::MAX || left - d < i32::MIN {
        seq![]
    } else {
        in_grid(size, line_cells(left, top - d, 1, 0, right - left + 1))
            + in_grid(size, line_cells(right + 1, top - d + 1, 1, 1, d - 1))
            + in_grid(size, line_cells(right + d, top, 0, 1, bottom - top + 1))
            + in_grid(size, line_cells(right + d - 1, bottom + 1, -1, 1, d - 1))
            + in_grid(size, line_cells(right, bottom + d, -1, 0, right - left + 1))
            + in_grid(size, line_cells(left - 1, bottom + d - 1, -1, -1, d - 1))
            + in_grid(size, line_cells(left - d, bottom, 0, -1, bottom - top + 1))
            + in_grid(size, line_cells(left - d + 1, top - 1, 1, -1, d - 1))
    }
}

/// The cells an NPC roams between around its house: the rings at distance
/// one to `DEFAULT_NPC_IDLE_ROAM_RADIUS` around the footprint. Empty for an
/// empty footprint or one whose size or far edges do not fit in `i32`.
pub open spec fn house_roam_candidates(footprint: BuildingFootprint, size: GridSize) -> Seq<CellCoord> {
    let w = footprint.width as int;
    let h = footprint.height as int;
    let left = footprint.origin.x as int;
    let top = footprint.origin.y as int;
    if w > i32::MAX || h > i32::MAX || w == 0 || h == 0 || left + w - 1 > i32::MAX || top + h - 1 > i32::MAX {
        seq![]
    } else {
        let right = left + w - 1;
        let bottom = top + h - 1;
        roam_ring(size, left, top, right, bottom, 1) + roam_ring(size, left, top, right, bottom, 2)
            + roam_ring(size, left, top, right, bottom, 3)
    }
}

#[verifier::rlimit(40)]
fn push_ring(candidates: &mut Vec<CellCoord>, size: GridSize, left: i32, top: i32, right: i32, bottom: i32, d: i32)
    requires
        left <= right,
        top <= bottom,
        right - left + 1 <= i32::MAX,
        bottom - top + 1 <= i32::MAX,
        1 <= d <= 3,
    ensures
        final(candidates)@ == old(candidates)@ + roam_ring(size, left as int, top as int, right as int, bottom as int, d as int),
{
    let ring_top = match top.checked_sub(d) {
        Some(v) => v,
        None => {
            return;
        },
    };
    let ring_right = match right.checked_add(d) {
        Some(v) => v,
        None => {
            return;
        },
    };
    let ring_bottom = match bottom.checked_add(d) {
        Some(v) => v,
        None => {
            return;
        },
    };
    let ring_left = match left.checked_sub(d) {
        Some(v) => v,
        None => {
            return;
        },
    };
    let ghost c0 = candidates@;
    let width = right - left + 1;
    let height = bottom - top + 1;
    push_line(candidates, size, left, ring_top, 1, 0, width);
    push_line(candidates, size, right + 1, ring_top + 1, 1, 1, d - 1);
    push_line(candidates, size, ring_right, top, 0, 1, height);
    push_line(candidates, size, ring_right - 1, bottom + 1, -1, 1, d - 1);
    push_line(candidates, size, right, ring_bottom, -1, 0, width);
    push_line(candidates, size, left - 1, ring_bottom - 1, -1, -1, d - 1);
    push_line(candidates, size, ring_left, bottom, 0, -1, height);
    push_line(candidates, size, ring_left + 1, top - 1, 1, -1, d - 1);
    proof {
        assert(candidates@ =~= c0 + roam_ring(size, left as int, top as int, right as int, bottom as int, d as int));
    }
}

/// The cells an NPC roams between around its house (see `house_roam_candidates`).
pub fn house_idle_roam_candidates(footprint: BuildingFootprint, size: GridSize) -> (r: Vec<CellCoord>)
    ensures
        r@ == house_roam_candidates(footprint, size),
{
    let mut candidates: Vec<CellCoord> = Vec::new();
    if footprint.width > i32::MAX as usize || footprint.height > i32::MAX as usize {
        return candidates;
    }
    let width = footprint.width as i32;
    let height = footprint.height as i32;
    if width == 0 || height == 0 {
        return candidates;
    }
    let left = footprint.origin.x;
    let top = footprint.origin.y;
    let right = match left.checked_add(width - 1) {
        Some(v) => v,
        None => {
            return candidates;
        },
    };
    let bottom = match top.checked_add(height - 1) {
        Some(v) => v,
        None => {
            return candidates;
        },
    };
    push_ring(&mut candidates, size, left, top, right, bottom, 1);
    push_ring(&mut candidates, size, left, top, right, bottom, 2);
    push_ring(&mut candidates, size, left, top, right, bottom, 3);
    proof {
        assert(candidates@ =~= house_roam_candidates(footprint, size));
    }
    candidates
}

/// A candidate an NPC can roam to from `current`: another cell it can reach.
pub open spec fn house_roam_ok(nav: NavigationSnapshot, current: CellCoord, t: CellCoord) -> bool {
    t != current && exists|m: nat| #[trigger] reach(nav, current, m, t)
}

/// The next roam target around a house: walking the candidates from
/// `start_offset_index` (wrapping), the first one other than `current` that
/// is reachable from it, with the position after it. `None` without
/// candidates, when distances from `current` cannot be computed, or when
/// none qualifies.
pub fn house_idle_roam_target(
    footprint: BuildingFootprint,
    current: CellCoord,
    size: GridSize,
    start_offset_index: usize,
    navigation: &NavigationSnapshot,
) -> (r: Option<(CellCoord, usize)>)
    requires
        navigation.wf(),
    ensures
        ({
            let cands = house_roam_candidates(footprint, size);
            let n = cands.len() as int;
            &&& r is Some <==> {
                &&& n > 0
                &&& grid_contains(navigation.spec_size(), current)
                &&& navigation.spec_size().width * navigation.spec_size().height < u32::MAX
                &&& exists|step: int| 0 <= step < n && #[trigger] house_roam_ok(*navigation, current, cands[(start_offset_index + step) % n])
            }
            &&& r matches Some((t, next)) ==> exists|step: int|
                0 <= step < n && #[trigger] house_roam_ok(*navigation, current, cands[(start_offset_index + step) % n])
                    && (forall|s: int| 0 <= s < step ==> !#[trigger] house_roam_ok(*navigation, current, cands[(start_offset_index + s) % n]))
                    && t == cands[(start_offset_index + step) % n]
                    && next == ((start_offset_index + step) % n + 1) % n
        }),
{
    let candidates = house_idle_roam_candidates(footprint, size);
    let ghost cands = candidates@;
    let n = candidates.len();
    if n == 0 {
        return None;
    }
    let distances = match navigation.distances_from(current) {
        Some(d) => d,
        None => {
            return None;
        },
    };
    let mut step: usize = 0;
    while step < n
        invariant
            n == cands.len(),
            n > 0,
            candidates@ == cands,
            cands == house_roam_candidates(footprint, size),
            grid_contains(navigation.spec_size(), current),
            navigation.spec_size().width * navigation.spec_size().height < u32::MAX,
            distances.wf(),
            forall|c: CellCoord| #![trigger distances.distance_at(c)]
                match distances.distance_at(c) {
                    Some(k) => crate::navigation::nav_distance(*navigation, current, c, k),
                    None => crate::navigation::unreachable(*navigation, current, c),
                },
            0 <= step <= n,
            forall|s: int| 0 <= s < step ==> !#[trigger] house_roam_ok(*navigation, current, cands[(start_offset_index + s) % (n as int)]),
        decreases n - step,
    {
        let a = start_offset_index % n;
        let index = if a < n - step { a + step } else { a - (n - step) };
        proof {
            vstd::arithmetic::div_mod::lemma_add_mod_noop(start_offset_index as int, step as int, n as int);
            vstd::arithmetic::div_mod::lemma_small_mod(step as nat, n as nat);
            if a + step < n {
                vstd::arithmetic::div_mod::lemma_small_mod((a + step) as nat, n as nat);
            } else {
                vstd::arithmetic::div_mod::lemma_fundamental_div_mod_converse((a + step) as int, n as int, 1, (a + step - n) as int);
            }
            assert(index == (start_offset_index + step) % (n as int));
        }
        let target = candidates[index];
        let reachable = distances.is_reachable(target);
        proof {
            if reachable {
                let k = distances.distance_at(target).unwrap();
                assert(reach(*navigation, current, k, target));
            } else {
                assert(crate::navigation::unreachable(*navigation, current, target));
            }
        }
        if target != current && reachable {
            let next = (index + 1) % n;
            proof {
                let ni = n as int;
                assert(house_roam_ok(*navigation, current, cands[(start_offset_index + step) % ni]));
                assert(target == cands[(start_offset_index + step) % ni]);
                assert(next == ((start_offset_index + step) % ni + 1) % ni);
                assert(exists|st: int|
                    0 <= st < ni && #[trigger] house_roam_ok(*navigation, current, cands[(start_offset_index + st) % ni])
                        && (forall|s: int| 0 <= s < st ==> !#[trigger] house_roam_ok(*navigation, current, cands[(start_offset_index + s) % ni]))
                        && target == cands[(start_offset_index + st) % ni]
                        && next == ((start_offset_index + st) % ni + 1) % ni);
                assert(cands == house_roam_candidates(footprint, size));
            }
            return Some((target, next));
        }
        step = step + 1;
    }
    None
}

/// Whether `step` is the first position of the candidate ring, walked from
/// `start`, whose cell an NPC at `current` can roam to.
pub open spec fn house_step_first(nav: NavigationSnapshot, current: CellCoord, cands: Seq<CellCoord>, start: int, step: int) -> bool {
    let n = cands.len() as int;
    &&& 0 <= step < n
    &&& house_roam_ok(nav, current, cands[(start + step) % n])
    &&& forall|s: int| 0 <= s < step ==> !#[trigger] house_roam_ok(nav, current, cands[(start + s) % n])
}

/// The roam target around a house and the ring position after it: the
/// first reachable candidate walking the ring from `start`, or `None`
/// (no candidates, `current` off the navigation grid, a grid too large to
/// measure, or no reachable candidate).
pub open spec fn spec_house_idle_roam_target(
    footprint: BuildingFootprint,
    current: CellCoord,
    size: GridSize,
    start: int,
    nav: NavigationSnapshot,
) -> Option<(CellCoord, usize)> {
    let cands = house_roam_candidates(footprint, size);
    let n = cands.len() as int;
    if n > 0 && grid_contains(nav.spec_size(), current) && nav.spec_size().width * nav.spec_size().height < u32::MAX
        && exists|step: int| #[trigger] house_step_first(nav, current, cands, start, step) {
        let st = choose|step: int| #[trigger] house_step_first(nav, current, cands, start, step);
        Some((cands[(start + st) % n], (((start + st) % n + 1) % n) as usize))
    } else {
        None
    }
}

/// What `house_idle_roam_target` returns is `spec_house_idle_roam_target`.
pub proof fn lemma_house_idle_roam_target_is_first(
    footprint: BuildingFootprint,
    current: CellCoord,
    size: GridSize,
    start: usize,
    navigation: NavigationSnapshot,
    r: Option<(CellCoord, usize)>,
)
    requires
        ({
            let cands = house_roam_candidates(footprint, size);
            let n = cands.len() as int;
            &&& r is Some <==> {
                &&& n > 0
                &&& grid_contains(navigation.spec_size(), current)
                &&& navigation.spec_size().width * navigation.spec_size().height < u32::MAX
                &&& exists|step: int| 0 <= step < n && #[trigger] house_roam_ok(navigation, current, cands[(start + step) % n])
            }
            &&& r matches Some((t, next)) ==> exists|step: int|
                0 <= step < n && #[trigger] house_roam_ok(navigation, current, cands[(start + step) % n])
                    && (forall|s: int| 0 <= s < step ==> !#[trigger] house_roam_ok(navigation, current, cands[(start + s) % n]))
                    && t == cands[(start + step) % n]
                    && next == ((start + step) % n + 1) % n
        }),
    ensures
        r == spec_house_idle_roam_target(footprint, current, size, start as int, navigation),
{
    let cands = house_roam_candidates(footprint, size);
    let n = cands.len() as int;
    match r {
        None => {
            if exists|step: int| #[trigger] house_step_first(navigation, current, cands, start as int, step) {
                let st = choose|step: int| #[trigger] house_step_first(navigation, current, cands, start as int, step);
                assert(house_roam_ok(navigation, current, cands[(start + st) % n]));
            }
        },
        Some((t, next)) => {
            let st0 = choose|step: int|
                0 <= step < n && #[trigger] house_roam_ok(navigation, current, cands[(start + step) % n])
                    && (forall|s: int| 0 <= s < step ==> !#[trigger] house_roam_ok(navigation, current, cands[(start + s) % n]))
                    && t == cands[(start + step) % n]
                    && next == ((start + step) % n + 1) % n;
            assert(house_step_first(navigation, current, cands, start as int, st0));
            let st = choose|step: int| #[trigger] house_step_first(navigation, current, cands, start as int, step);
            assert(house_step_first(navigation, current, cands, start as int, st));
            if st < st0 {
                assert(house_roam_ok(navigation, current, cands[(start + st) % n]));
            }
            if st0 < st {
                assert(house_roam_ok(navigation, current, cands[(start + st0) % n]));
            }
            assert(st == st0);
        },
    }
}

/// The house an NPC is assigned to, as the idle system sees it.
#[derive(Debug, Clone, Copy, PartialEq, Eq, Structural)]
pub struct AssignedHouse {
    pub house: EntityId,
    pub footprint: BuildingFootprint,
    pub capacity: usize,
    pub slot: usize,
}

/// Whether an assignment to a house still counts for idling: the building
/// is a kind that houses people, its footprint lies in the grid, the house
/// has room and the slot is one of its beds.
pub fn assigned_house_usable(
    kind: BuildingKind,
    footprint: BuildingFootprint,
    house: House,
    slot: usize,
    size: GridSize,
) -> (r: bool)
    ensures
        r == (kind.spec_housing_capacity() is Some && footprint_within(footprint, size) && house.capacity > 0
            && slot < house.capacity),
{
    kind.housing_capacity().is_some() && footprint.is_within(size) && house.capacity() > 0 && slot < house.capacity()
}

/// The idle state an NPC starts with: around its position without a home;
/// around its house's origin with a home, starting at the part of the
/// candidate ring that matches its bed, `slot * candidates / capacity`
/// (saturating product).
pub open spec fn spec_idle_state(position: CellCoord, assigned: Option<AssignedHouse>, size: GridSize) -> AiIdleRoam {
    match assigned {
        None => AiIdleRoam {
            origin: position,
            dwell_ticks_remaining: DEFAULT_NPC_IDLE_DWELL_TICKS,
            next_offset_index: 0,
            house: None,
            house_slot: None,
        },
        Some(a) => {
            let count = house_roam_candidates(a.footprint, size).len();
            let product = if a.slot * count > usize::MAX { usize::MAX as int } else { a.slot * count };
            AiIdleRoam {
                origin: a.footprint.origin,
                dwell_ticks_remaining: DEFAULT_NPC_IDLE_DWELL_TICKS,
                next_offset_index: (product / (a.capacity as int)) as usize,
                house: Some(a.house),
                house_slot: Some(a.slot),
            }
        },
    }
}

pub fn idle_state(position: CellCoord, assigned: Option<AssignedHouse>, size: GridSize) -> (r: AiIdleRoam)
    requires
        assigned matches Some(a) ==> a.capacity > 0,
    ensures
        r == spec_idle_state(position, assigned, size),
{
    match assigned {
        None => AiIdleRoam::new(position, DEFAULT_NPC_IDLE_DWELL_TICKS),
        Some(a) => {
            let count = house_idle_roam_candidates(a.footprint, size).len();
            let product = match a.slot.checked_mul(count) {
                Some(p) => p,
                None => usize::MAX,
            };
            let next = product / a.capacity;
            AiIdleRoam::around_house(a.footprint.origin, a.house, a.slot, DEFAULT_NPC_IDLE_DWELL_TICKS, next)
        },
    }
}

fn same_home(a: Option<(EntityId, usize)>, b: Option<(EntityId, usize)>) -> (r: bool)
    ensures
        r == (a == b),
{
    match (a, b) {
        (Some((ha, sa)), Some((hb, sb))) => ha == hb && sa == sb,
        (None, None) => true,
        _ => false,
    }
}

/// What the idle system does for one NPC this tick.
#[derive(Debug, Clone, Copy, PartialEq, Eq, Structural)]
pub enum IdleStep {
    /// The NPC has work: drop its idle state.
    RemoveIdle,
    /// Its home changed: drop its route and movement and start idling anew.
    Restart(AiIdleRoam),
    /// It starts idling.
    Start(AiIdleRoam),
    /// Nothing changes.
    Unchanged,
    /// Its idle state becomes `idle`; with `go_to`, it routes onto that cell.
    Update { idle: AiIdleRoam, go_to: Option<CellCoord> },
}

/// Where an NPC whose dwell is over roams next, with the ring position
/// after it: around its house when it has one, else around its idle origin.
pub open spec fn spec_idle_next_target(
    cur: AiIdleRoam,
    position: CellCoord,
    assigned: Option<AssignedHouse>,
    size: GridSize,
    nav: NavigationSnapshot,
) -> Option<(CellCoord, usize)> {
    match assigned {
        Some(a) => spec_house_idle_roam_target(a.footprint, position, size, cur.next_offset_index as int, nav),
        None => spec_idle_roam_target(cur.origin, position, size, cur.next_offset_index as int),
    }
}

/// Idle for one NPC: working NPCs stop idling; an idle state for another
/// home (or none) restarts; a moving NPC is left alone; an NPC without idle
/// state starts one; otherwise the dwell counts down, and once it is over
/// the NPC picks the next roam target (around its house when it has one,
/// else around its idle origin), remembers where the ring continues, and
/// dwells anew.
pub fn idle_tick(
    work_assigned: bool,
    position: CellCoord,
    assigned: Option<AssignedHouse>,
    movement: Option<CellCoord>,
    idle: Option<AiIdleRoam>,
    size: GridSize,
    navigation: &NavigationSnapshot,
) -> (r: IdleStep)
    requires
        navigation.wf(),
        assigned matches Some(a) ==> a.capacity > 0,
    ensures
        work_assigned ==> r == IdleStep::RemoveIdle,
        !work_assigned && idle is Some && (match (idle.unwrap().house, idle.unwrap().house_slot) {
            (Some(h), Some(sl)) => Some((h, sl)),
            _ => None,
        }) != (match assigned {
            Some(a) => Some((a.house, a.slot)),
            None => None,
        }) ==> r == IdleStep::Restart(spec_idle_state(position, assigned, size)),
        !work_assigned && idle is None && movement is None ==> r == IdleStep::Start(spec_idle_state(position, assigned, size)),
        !work_assigned && idle is None && movement is Some ==> r == IdleStep::Unchanged,
        r matches IdleStep::Update { idle: next, go_to } ==> {
            let cur = idle.unwrap();
            &&& !work_assigned && movement is None
            &&& next.origin == cur.origin && next.house == cur.house && next.house_slot == cur.house_slot
            &&& cur.dwell_ticks_remaining > 1 ==> next.dwell_ticks_remaining == cur.dwell_ticks_remaining - 1
                && next.next_offset_index == cur.next_offset_index && go_to is None
            &&& cur.dwell_ticks_remaining <= 1 ==> next.dwell_ticks_remaining == DEFAULT_NPC_IDLE_DWELL_TICKS
            &&& cur.dwell_ticks_remaining <= 1 ==> match spec_idle_next_target(cur, position, assigned, size, *navigation) {
                Some((target, index)) => go_to == Some(target) && next.next_offset_index == index,
                None => go_to is None && next.next_offset_index == cur.next_offset_index,
            }
        },
        !work_assigned && idle is Some && movement is None && (match (idle.unwrap().house, idle.unwrap().house_slot) {
            (Some(h), Some(sl)) => Some((h, sl)),
            _ => None,
        }) == (match assigned {
            Some(a) => Some((a.house, a.slot)),
            None => None,
        }) ==> r is Update,
        !work_assigned && idle is Some && movement is Some && (match (idle.unwrap().house, idle.unwrap().house_slot) {
            (Some(h), Some(sl)) => Some((h, sl)),
            _ => None,
        }) == (match assigned {
            Some(a) => Some((a.house, a.slot)),
            None => None,
        }) ==> r == IdleStep::Unchanged,
{
    if work_assigned {
        return IdleStep::RemoveIdle;
    }
    let assigned_slot = match assigned {
        Some(a) => Some((a.house, a.slot)),
        None => None,
    };
    if let Some(cur) = idle {
        let roam_slot = match (cur.house, cur.house_slot) {
            (Some(h), Some(sl)) => Some((h, sl)),
            _ => None,
        };
        if !same_home(roam_slot, assigned_slot) {
            return IdleStep::Restart(idle_state(position, assigned, size));
        }
    }
    if movement.is_some() {
        return IdleStep::Unchanged;
    }
    let mut cur = match idle {
        Some(i) => i,
        None => {
            return IdleStep::Start(idle_state(position, assigned, size));
        },
    };
    if cur.dwell_ticks_remaining() > 0 {
        cur.advance_dwell();
        if cur.dwell_ticks_remaining() > 0 {
            return IdleStep::Update { idle: cur, go_to: None };
        }
    }
    let next_target = match assigned {
        Some(a) => house_idle_roam_target(a.footprint, position, size, cur.next_offset_index(), navigation),
        None => idle_roam_target(cur.origin(), position, size, cur.next_offset_index()),
    };
    proof {
        match assigned {
            Some(a) => lemma_house_idle_roam_target_is_first(
                a.footprint,
                position,
                size,
                cur.next_offset_index,
                *navigation,
                next_target,
            ),
            None => lemma_idle_roam_target_is_first(cur.origin, position, size, cur.next_offset_index, next_target),
        }
    }
    let mut go_to: Option<CellCoord> = None;
    if let Some((target, next_index)) = next_target {
        cur.set_next_offset_index(next_index);
        go_to = Some(target);
    }
    cur.reset_dwell(DEFAULT_NPC_IDLE_DWELL_TICKS);
    IdleStep::Update { idle: cur, go_to }
}

/// Field and tree plot work an NPC can be given.
#[derive(Debug, Clone, Copy, PartialEq, Eq, Structural)]
pub enum PlotWorkTarget {
    SeedField(EntityId),
    HarvestField(EntityId),
    SeedTreePlot(EntityId),
    CutTreePlot(EntityId),
}

/// A possible piece of plot work: the target, the cell to work from, and
/// the task's rank among tasks at the same place (harvest 0, seed 1, cut 2,
/// plant 3).
#[derive(Debug, Clone, Copy, PartialEq, Eq, Structural)]
pub struct PlotCandidate {
    pub target: PlotWorkTarget,
    pub entity: EntityId,
    pub coord: CellCoord,
    pub rank: u8,
}

/// The kind of work of a task list: seed fields, harvest fields, plant tree
/// plots, cut tree plots.
pub open spec fn plot_task_target(work: int, e: EntityId) -> PlotWorkTarget {
    if work == 0 {
        PlotWorkTarget::SeedField(e)
    } else if work == 1 {
        PlotWorkTarget::HarvestField(e)
    } else if work == 2 {
        PlotWorkTarget::SeedTreePlot(e)
    } else {
        PlotWorkTarget::CutTreePlot(e)
    }
}

pub open spec fn plot_task_rank(work: int) -> u8 {
    if work == 0 { 1 } else if work == 1 { 0 } else if work == 2 { 3 } else { 2 }
}

/// Where a task of a work kind on entity `e` can be done, if it can.
#[verifier::opaque]
pub open spec fn plot_task_coord(
    work: int,
    e: EntityId,
    fields: Seq<FieldRecord>,
    farms: Seq<FarmRecord>,
    plots: Seq<TreePlotRecord>,
    lodges: Seq<LodgeRecord>,
) -> Option<CellCoord> {
    if work == 0 {
        spec_field_seeding_target(fields, farms, e)
    } else if work == 1 {
        spec_field_harvest_target(fields, farms, e)
    } else if work == 2 {
        spec_tree_plot_seeding_target(plots, lodges, e)
    } else {
        spec_tree_plot_cutting_target(plots, lodges, e)
    }
}

/// The candidates from a task list of one work kind, in task order: tasks
/// for an NPC of the right trade, not yet claimed, that can be done.
pub open spec fn plot_task_candidates(
    work: int,
    allowed: bool,
    tasks: Seq<EntityId>,
    claimed: Seq<EntityId>,
    fields: Seq<FieldRecord>,
    farms: Seq<FarmRecord>,
    plots: Seq<TreePlotRecord>,
    lodges: Seq<LodgeRecord>,
) -> Seq<PlotCandidate>
    decreases tasks.len(),
{
    if tasks.len() == 0 {
        seq![]
    } else {
        let e = tasks.last();
        plot_task_candidates(work, allowed, tasks.drop_last(), claimed, fields, farms, plots, lodges) + match plot_task_coord(work, e, fields, farms, plots, lodges) {
            Some(c) => if allowed && !claimed.contains(e) {
                seq![PlotCandidate { target: plot_task_target(work, e), entity: e, coord: c, rank: plot_task_rank(work) }]
            } else {
                seq![]
            },
            None => seq![],
        }
    }
}

/// Order of plot work: distance from the NPC, row, column, entity bits, rank.
pub open spec fn plot_key_lt(origin: CellCoord, a: PlotCandidate, b: PlotCandidate) -> bool {
    let da = manhattan(origin, a.coord);
    let db = manhattan(origin, b.coord);
    da < db || (da == db && (a.coord.y < b.coord.y || (a.coord.y == b.coord.y && (a.coord.x < b.coord.x || (a.coord.x
        == b.coord.x && (a.entity.bits < b.entity.bits || (a.entity.bits == b.entity.bits && a.rank < b.rank)))))))
}

fn plot_key_less(origin: CellCoord, a: PlotCandidate, b: PlotCandidate) -> (r: bool)
    ensures
        r == plot_key_lt(origin, a, b),
{
    let da = manhattan_distance(origin, a.coord);
    let db = manhattan_distance(origin, b.coord);
    da < db || (da == db && (a.coord.y < b.coord.y || (a.coord.y == b.coord.y && (a.coord.x < b.coord.x || (a.coord.x
        == b.coord.x && (a.entity.bits < b.entity.bits || (a.entity.bits == b.entity.bits && a.rank < b.rank)))))))
}

fn claimed_contains(claimed: &[EntityId], e: EntityId) -> (r: bool)
    ensures
        r == claimed@.contains(e),
{
    let mut i: usize = 0;
    while i < claimed.len()
        invariant
            0 <= i <= claimed@.len(),
            forall|j: int| 0 <= j < i ==> claimed@[j] != e,
        decreases claimed@.len() - i,
    {
        if claimed[i] == e {
            return true;
        }
        i = i + 1;
    }
    false
}

fn task_coord(
    work: u8,
    e: EntityId,
    fields: &[FieldRecord],
    farms: &[FarmRecord],
    plots: &[TreePlotRecord],
    lodges: &[LodgeRecord],
) -> (r: Option<CellCoord>)
    requires
        work < 4,
    ensures
        r == plot_task_coord(work as int, e, fields@, farms@, plots@, lodges@),
{
    proof {
        reveal(plot_task_coord);
    }
    if work == 0 {
        field_seeding_is_actionable(e, fields, farms)
    } else if work == 1 {
        field_harvest_is_actionable(e, fields, farms)
    } else if work == 2 {
        tree_plot_seeding_is_actionable(e, plots, lodges)
    } else {
        tree_plot_cutting_is_actionable(e, plots, lodges)
    }
}

fn push_plot_candidates(
    out: &mut Vec<PlotCandidate>,
    work: u8,
    allowed: bool,
    tasks: &[EntityId],
    claimed: &[EntityId],
    fields: &[FieldRecord],
    farms: &[FarmRecord],
    plots: &[TreePlotRecord],
    lodges: &[LodgeRecord],
)
    requires
        work < 4,
    ensures
        final(out)@ == old(out)@ + plot_task_candidates(work as int, allowed, tasks@, claimed@, fields@, farms@, plots@, lodges@),
{
    let ghost o0 = out@;
    let mut i: usize = 0;
    while i < tasks.len()
        invariant
            work < 4,
            0 <= i <= tasks@.len(),
            out@ == o0 + plot_task_candidates(work as int, allowed, tasks@.subrange(0, i as int), claimed@, fields@, farms@, plots@, lodges@),
        decreases tasks@.len() - i,
    {
        let e = tasks[i];
        let coord = task_coord(work, e, fields, farms, plots, lodges);
        if let Some(c) = coord {
            if allowed && !claimed_contains(claimed, e) {
                let target = if work == 0 {
                    PlotWorkTarget::SeedField(e)
                } else if work == 1 {
                    PlotWorkTarget::HarvestField(e)
                } else if work == 2 {
                    PlotWorkTarget::SeedTreePlot(e)
                } else {
                    PlotWorkTarget::CutTreePlot(e)
                };
                let rank: u8 = if work == 0 { 1 } else if work == 1 { 0 } else if work == 2 { 3 } else { 2 };
                out.push(PlotCandidate { target, entity: e, coord: c, rank });
            }
        }
        proof {
            let sub = tasks@.subrange(0, i as int + 1);
            assert(sub.drop_last() =~= tasks@.subrange(0, i as int));
            assert(sub.last() == e);
        }
        i = i + 1;
    }
    proof {
        assert(tasks@.subrange(0, tasks@.len() as int) =~= tasks@);
    }
}

/// All candidates: field seeding, field harvest, tree planting, tree
/// cutting, each in task order.
pub open spec fn all_plot_candidates(
    is_farmer: bool,
    is_forester: bool,
    seed_tasks: Seq<EntityId>,
    harvest_tasks: Seq<EntityId>,
    tree_seed_tasks: Seq<EntityId>,
    tree_cut_tasks: Seq<EntityId>,
    claimed_fields: Seq<EntityId>,
    claimed_tree_plots: Seq<EntityId>,
    fields: Seq<FieldRecord>,
    farms: Seq<FarmRecord>,
    plots: Seq<TreePlotRecord>,
    lodges: Seq<LodgeRecord>,
) -> Seq<PlotCandidate> {
    plot_task_candidates(0, is_farmer, seed_tasks, claimed_fields, fields, farms, plots, lodges)
        + plot_task_candidates(1, is_farmer, harvest_tasks, claimed_fields, fields, farms, plots, lodges)
        + plot_task_candidates(2, is_forester, tree_seed_tasks, claimed_tree_plots, fields, farms, plots, lodges)
        + plot_task_candidates(3, is_forester, tree_cut_tasks, claimed_tree_plots, fields, farms, plots, lodges)
}

/// Position `i` holds the first candidate with the least key.
pub open spec fn is_first_least(origin: CellCoord, cands: Seq<PlotCandidate>, i: int) -> bool {
    &&& 0 <= i < cands.len()
    &&& forall|j: int| 0 <= j < cands.len() ==> !plot_key_lt(origin, #[trigger] cands[j], cands[i])
    &&& forall|j: int| 0 <= j < i ==> plot_key_lt(origin, cands[i], #[trigger] cands[j])
}

/// The plot work an NPC should take: among all candidates, the first with
/// the least key (distance from the NPC to the work cell, then row, column,
/// entity bits and rank).
pub fn plot_work_target(
    origin: CellCoord,
    is_farmer: bool,
    is_forester: bool,
    seed_tasks: &[EntityId],
    harvest_tasks: &[EntityId],
    tree_seed_tasks: &[EntityId],
    tree_cut_tasks: &[EntityId],
    claimed_fields: &[EntityId],
    claimed_tree_plots: &[EntityId],
    fields: &[FieldRecord],
    farms: &[FarmRecord],
    plots: &[TreePlotRecord],
    lodges: &[LodgeRecord],
) -> (r: Option<PlotWorkTarget>)
    ensures
        ({
            let cands = all_plot_candidates(
                is_farmer,
                is_forester,
                seed_tasks@,
                harvest_tasks@,
                tree_seed_tasks@,
                tree_cut_tasks@,
                claimed_fields@,
                claimed_tree_plots@,
                fields@,
                farms@,
                plots@,
                lodges@,
            );
            &&& r is None <==> cands.len() == 0
            &&& r matches Some(t) ==> exists|i: int| is_first_least(origin, cands, i) && cands[i].target == t
        }),
{
    let mut cands: Vec<PlotCandidate> = Vec::new();
    push_plot_candidates(&mut cands, 0, is_farmer, seed_tasks, claimed_fields, fields, farms, plots, lodges);
    push_plot_candidates(&mut cands, 1, is_farmer, harvest_tasks, claimed_fields, fields, farms, plots, lodges);
    push_plot_candidates(&mut cands, 2, is_forester, tree_seed_tasks, claimed_tree_plots, fields, farms, plots, lodges);
    push_plot_candidates(&mut cands, 3, is_forester, tree_cut_tasks, claimed_tree_plots, fields, farms, plots, lodges);
    proof {
        assert(cands@ =~= all_plot_candidates(
            is_farmer,
            is_forester,
            seed_tasks@,
            harvest_tasks@,
            tree_seed_tasks@,
            tree_cut_tasks@,
            claimed_fields@,
            claimed_tree_plots@,
            fields@,
            farms@,
            plots@,
            lodges@,
        ));
    }
    if cands.len() == 0 {
        return None;
    }
    let mut best: usize = 0;
    let mut i: usize = 1;
    while i < cands.len()
        invariant
            1 <= i <= cands@.len(),
            best < i,
            forall|j: int| 0 <= j < i ==> !plot_key_lt(origin, #[trigger] cands@[j], cands@[best as int]),
            forall|j: int| 0 <= j < best ==> plot_key_lt(origin, cands@[best as int], #[trigger] cands@[j]),
        decreases cands@.len() - i,
    {
        if plot_key_less(origin, cands[i], cands[best]) {
            best = i;
        }
        i = i + 1;
    }
    proof {
        assert(is_first_least(origin, cands@, best as int));
    }
    Some(cands[best].target)
}

/// What an NPC doing plot work does this tick.
#[derive(Debug, Clone, Copy, PartialEq, Eq, Structural)]
pub enum PlotRouting {
    /// Busy with food, gathering or construction, or no plot work: nothing.
    Skip,
    /// The work can no longer be done: drop it and stop moving.
    Drop,
    /// Head for the work cell.
    Move(MoveCommand),
}

/// Routing of the plot work an NPC holds (the first of field seeding, field
/// harvest, tree planting, tree cutting that it has): when the work can
/// still be done, head onto its cell; otherwise drop it.
pub fn plot_routing(
    busy: bool,
    position: CellCoord,
    work: Option<PlotWorkTarget>,
    movement: Option<CellCoord>,
    fields: &[FieldRecord],
    farms: &[FarmRecord],
    plots: &[TreePlotRecord],
    lodges: &[LodgeRecord],
) -> (r: PlotRouting)
    ensures
        busy || work is None ==> r == PlotRouting::Skip,
        !busy && work is Some ==> {
            let (kind, e) = match work.unwrap() {
                PlotWorkTarget::SeedField(e) => (0int, e),
                PlotWorkTarget::HarvestField(e) => (1int, e),
                PlotWorkTarget::SeedTreePlot(e) => (2int, e),
                PlotWorkTarget::CutTreePlot(e) => (3int, e),
            };
            match plot_task_coord(kind, e, fields@, farms@, plots@, lodges@) {
                Some(c) => r == PlotRouting::Move(spec_cell_visit(position, c, movement)),
                None => r == PlotRouting::Drop,
            }
        },
{
    if busy {
        return PlotRouting::Skip;
    }
    let coord = match work {
        None => {
            return PlotRouting::Skip;
        },
        Some(PlotWorkTarget::SeedField(e)) => task_coord(0, e, fields, farms, plots, lodges),
        Some(PlotWorkTarget::HarvestField(e)) => task_coord(1, e, fields, farms, plots, lodges),
        Some(PlotWorkTarget::SeedTreePlot(e)) => task_coord(2, e, fields, farms, plots, lodges),
        Some(PlotWorkTarget::CutTreePlot(e)) => task_coord(3, e, fields, farms, plots, lodges),
    };
    match coord {
        Some(c) => PlotRouting::Move(cell_visit(position, c, movement)),
        None => PlotRouting::Drop,
    }
}


/// An NPC that may be given plot work: its position, trades, and whether it
/// already has work.
#[derive(Debug, Clone, Copy, PartialEq, Eq, Structural)]
pub struct PlotWorker {
    pub entity: EntityId,
    pub coord: CellCoord,
    pub farmer: bool,
    pub forester: bool,
    pub assigned: bool,
}

/// Workers are served in entity order.
impl crate::sorting::KeyOrder for PlotWorker {
    open spec fn key_le(self, other: Self) -> bool {
        self.entity.bits <= other.entity.bits
    }

    proof fn lemma_key_le_reflexive(a: Self) {
    }

    proof fn lemma_key_le_transitive(a: Self, b: Self, c: Self) {
    }

    proof fn lemma_key_le_total(a: Self, b: Self) {
    }

    fn comes_no_later(&self, other: &Self) -> (r: bool) {
        self.entity.bits <= other.entity.bits
    }
}

/// The fields claimed by a list of plot work.
pub open spec fn field_claims(work: Seq<(EntityId, PlotWorkTarget)>) -> Seq<EntityId>
    decreases work.len(),
{
    if work.len() == 0 {
        seq![]
    } else {
        field_claims(work.drop_last()) + match work.last().1 {
            PlotWorkTarget::SeedField(f) => seq![f],
            PlotWorkTarget::HarvestField(f) => seq![f],
            _ => seq![],
        }
    }
}

/// The tree plots claimed by a list of plot work.
pub open spec fn tree_plot_claims(work: Seq<(EntityId, PlotWorkTarget)>) -> Seq<EntityId>
    decreases work.len(),
{
    if work.len() == 0 {
        seq![]
    } else {
        tree_plot_claims(work.drop_last()) + match work.last().1 {
            PlotWorkTarget::SeedTreePlot(p) => seq![p],
            PlotWorkTarget::CutTreePlot(p) => seq![p],
            _ => seq![],
        }
    }
}

/// The plot tasks of a surface and what they depend on.
pub struct PlotTasks<'a> {
    pub seed_tasks: &'a [EntityId],
    pub harvest_tasks: &'a [EntityId],
    pub tree_seed_tasks: &'a [EntityId],
    pub tree_cut_tasks: &'a [EntityId],
    pub fields: &'a [FieldRecord],
    pub farms: &'a [FarmRecord],
    pub plots: &'a [TreePlotRecord],
    pub lodges: &'a [LodgeRecord],
}

/// The candidates a worker sees with the given claims.
pub open spec fn worker_candidates(
    w: PlotWorker,
    t: PlotTasks,
    claimed_fields: Seq<EntityId>,
    claimed_plots: Seq<EntityId>,
) -> Seq<PlotCandidate> {
    all_plot_candidates(
        w.farmer,
        w.forester,
        t.seed_tasks@,
        t.harvest_tasks@,
        t.tree_seed_tasks@,
        t.tree_cut_tasks@,
        claimed_fields,
        claimed_plots,
        t.fields@,
        t.farms@,
        t.plots@,
        t.lodges@,
    )
}

/// Hands out plot work to idle workers in entity order. Work already held
/// (`claimed_fields`, `claimed_tree_plots`) and work handed out to earlier
/// workers is not offered again; each worker without work gets its best
/// candidate (see `plot_work_target`), if any. Returns the work given out,
/// in serving order.
pub fn assign_plot_work(
    workers: &Vec<PlotWorker>,
    tasks: &PlotTasks,
    claimed_fields: &Vec<EntityId>,
    claimed_tree_plots: &Vec<EntityId>,
) -> (r: Vec<(EntityId, PlotWorkTarget)>)
    ensures
        exists|order: Seq<PlotWorker>, served: Seq<Option<PlotWorkTarget>>|
            #![trigger crate::sorting::key_sorted(order), served.len()]
            {
                &&& crate::sorting::key_sorted(order)
                &&& order.to_multiset() == workers@.to_multiset()
                &&& served.len() == order.len()
                &&& r@ == given_work(order, served, order.len() as int)
                &&& forall|k: int| 0 <= k < order.len() ==> {
                    let w = #[trigger] order[k];
                    let before = given_work(order, served, k);
                    let cands = worker_candidates(
                        w,
                        *tasks,
                        claimed_fields@ + field_claims(before),
                        claimed_tree_plots@ + tree_plot_claims(before),
                    );
                    &&& (w.assigned || cands.len() == 0) ==> served[k] is None
                    &&& !w.assigned && cands.len() > 0 ==> (served[k] matches Some(t) && exists|i: int|
                        is_first_least(w.coord, cands, i) && cands[i].target == t)
                }
            },
{
    let order = crate::sorting::sort_by_key_order(workers);
    let mut fields: Vec<EntityId> = crate::sorting::copy_to_vec(claimed_fields.as_slice());
    let mut plots: Vec<EntityId> = crate::sorting::copy_to_vec(claimed_tree_plots.as_slice());
    let mut out: Vec<(EntityId, PlotWorkTarget)> = Vec::new();
    let ghost mut served: Seq<Option<PlotWorkTarget>> = seq![];
    let mut k: usize = 0;
    while k < order.len()
        invariant
            0 <= k <= order@.len(),
            served.len() == k,
            out@ == given_work(order@, served, k as int),
            fields@ == claimed_fields@ + field_claims(out@),
            plots@ == claimed_tree_plots@ + tree_plot_claims(out@),
            forall|j: int| 0 <= j < k ==> {
                let w = #[trigger] order@[j];
                let before = given_work(order@, served, j);
                let cands = worker_candidates(
                    w,
                    *tasks,
                    claimed_fields@ + field_claims(before),
                    claimed_tree_plots@ + tree_plot_claims(before),
                );
                &&& (w.assigned || cands.len() == 0) ==> served[j] is None
                &&& !w.assigned && cands.len() > 0 ==> (served[j] matches Some(t) && exists|i: int|
                    is_first_least(w.coord, cands, i) && cands[i].target == t)
            },
        decreases order@.len() - k,
    {
        let w = order[k];
        let ghost prev = served;
        let pick = if w.assigned {
            None
        } else {
            plot_work_target(
                w.coord,
                w.farmer,
                w.forester,
                tasks.seed_tasks,
                tasks.harvest_tasks,
                tasks.tree_seed_tasks,
                tasks.tree_cut_tasks,
                fields.as_slice(),
                plots.as_slice(),
                tasks.fields,
                tasks.farms,
                tasks.plots,
                tasks.lodges,
            )
        };
        proof {
            served = served.push(pick);
            assert forall|j: int| 0 <= j < k implies given_work(order@, served, j) == given_work(order@, prev, j) by {
                lemma_given_work_prefix(order@, prev, served, j);
            }
            lemma_given_work_prefix(order@, prev, served, k as int);
        }
        match pick {
            Some(t) => {
                let ghost o0 = out@;
                out.push((w.entity, t));
                proof {
                    assert(out@.drop_last() == o0);
                }
                match t {
                    PlotWorkTarget::SeedField(f) => {
                        fields.push(f);
                    },
                    PlotWorkTarget::HarvestField(f) => {
                        fields.push(f);
                    },
                    PlotWorkTarget::SeedTreePlot(p) => {
                        plots.push(p);
                    },
                    PlotWorkTarget::CutTreePlot(p) => {
                        plots.push(p);
                    },
                }
                proof {
                    assert(fields@ =~= claimed_fields@ + field_claims(out@));
                    assert(plots@ =~= claimed_tree_plots@ + tree_plot_claims(out@));
                }
            },
            None => {},
        }
        k = k + 1;
    }
    out
}

/// The work given to the first `n` served workers.
pub open spec fn given_work(order: Seq<PlotWorker>, served: Seq<Option<PlotWorkTarget>>, n: int) -> Seq<(EntityId, PlotWorkTarget)>
    decreases n,
{
    if n <= 0 {
        seq![]
    } else {
        given_work(order, served, n - 1) + match served[n - 1] {
            Some(t) => seq![(order[n - 1].entity, t)],
            None => seq![],
        }
    }
}

proof fn lemma_given_work_prefix(
    order: Seq<PlotWorker>,
    a: Seq<Option<PlotWorkTarget>>,
    b: Seq<Option<PlotWorkTarget>>,
    n: int,
)
    requires
        0 <= n <= a.len() <= b.len(),
        forall|j: int| 0 <= j < a.len() ==> a[j] == b[j],
    ensures
        given_work(order, a, n) == given_work(order, b, n),
    decreases n,
{
    if n > 0 {
        lemma_given_work_prefix(order, a, b, n - 1);
    }
}


/// Construction work for one NPC: none when it already has work or should
/// go for food first; otherwise work on the blueprint `construction_work_target`
/// picks, if any.
pub fn assign_construction_work(
    assigned: bool,
    origin: CellCoord,
    inventory: &NpcInventory,
    keep_food: Option<AiKeepEnoughFoodInInventory>,
    tasks: &[EntityId],
    records: &[BlueprintRecord],
    nodes: &[ResourceNodeRecord],
) -> (r: Option<AiConstructBuilding>)
    ensures
        ({
            let hungry = match keep_food {
                Some(goal) => spec_should_start_food_refill(
                    inventory.store().spec_contents().food as int,
                    inventory.store().spec_free_size(),
                    goal,
                ) && spec_kind_available(ResourceKind::Food, nodes@),
                None => false,
            };
            let any = exists|t: int| 0 <= t < tasks@.len() && task_candidate(*inventory, records@, nodes@, #[trigger] tasks@[t]);
            &&& (assigned || hungry || !any) ==> r is None
            &&& !assigned && !hungry && any ==> (r matches Some(work) && work.target_kind is None && exists|t: int|
                0 <= t < tasks@.len() && task_candidate(*inventory, records@, nodes@, tasks@[t])
                    && first_blueprint(records@, tasks@[t]).unwrap().entity == work.blueprint && forall|u: int|
                    0 <= u < tasks@.len() && task_candidate(*inventory, records@, nodes@, #[trigger] tasks@[u])
                        ==> !blueprint_key_lt(
                        origin,
                        first_blueprint(records@, tasks@[u]).unwrap(),
                        first_blueprint(records@, tasks@[t]).unwrap(),
                    ))
        }),
{
    if assigned || should_interrupt_for_food(inventory, keep_food, nodes) {
        return None;
    }
    match construction_work_target(origin, inventory, tasks, records, nodes) {
        Some(blueprint) => Some(AiConstructBuilding::new(blueprint)),
        None => None,
    }
}

} // verus!
