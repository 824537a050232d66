use vstd::prelude::*;
use crate::buildings::{BuildingFootprint, BuildingKind, footprint_contains};
use crate::components::TerrainKind;
use crate::grid::CellCoord;

verus! {

/// Whether a cell blocks placing buildings and whether it blocks NPCs from
/// walking onto it.
#[derive(Debug, Clone, Copy, PartialEq, Eq, Structural)]
pub struct CollisionFlags {
    pub build_blocked: bool,
    pub npc_walk_blocked: bool,
}

impl CollisionFlags {
    pub fn new(build_blocked: bool, npc_walk_blocked: bool) -> (r: Self)
        ensures
            r.build_blocked == build_blocked,
            r.npc_walk_blocked == npc_walk_blocked,
    {
        Self { build_blocked, npc_walk_blocked }
    }

    pub fn is_build_blocked(self) -> (r: bool)
        ensures
            r == self.build_blocked,
    {
        self.build_blocked
    }

    pub fn is_npc_walk_blocked(self) -> (r: bool)
        ensures
            r == self.npc_walk_blocked,
    {
        self.npc_walk_blocked
    }

    pub fn block_building(&mut self)
        ensures
            final(self).build_blocked,
            final(self).npc_walk_blocked == old(self).npc_walk_blocked,
    {
        self.build_blocked = true;
    }

    pub fn block_npc_walk(&mut self)
        ensures
            final(self).npc_walk_blocked,
            final(self).build_blocked == old(self).build_blocked,
    {
        self.npc_walk_blocked = true;
    }
}

impl Default for CollisionFlags {
    fn default() -> (r: Self)
        ensures
            !r.build_blocked && !r.npc_walk_blocked,
    {
        Self { build_blocked: false, npc_walk_blocked: false }
    }
}

/// Terrain on which a building kind may be placed: Grass, Dirt or Sand for
/// most buildings, Grass or Dirt for Fields, Grass only for Forester Lodges
/// and Tree Plots.
pub open spec fn spec_terrain_allows_building(kind: BuildingKind, terrain: TerrainKind) -> bool {
    match kind {
        BuildingKind::Field => terrain == TerrainKind::Grass || terrain == TerrainKind::Dirt,
        BuildingKind::ForesterLodge | BuildingKind::TreePlot => terrain == TerrainKind::Grass,
        _ => terrain == TerrainKind::Grass || terrain == TerrainKind::Dirt || terrain == TerrainKind::Sand,
    }
}

pub fn terrain_allows_building(kind: BuildingKind, terrain: TerrainKind) -> (r: bool)
    ensures
        r == spec_terrain_allows_building(kind, terrain),
{
    match kind {
        BuildingKind::Depot | BuildingKind::Warehouse | BuildingKind::TownHall | BuildingKind::Sawmill
        | BuildingKind::Stoneworks | BuildingKind::Kitchen | BuildingKind::Farm | BuildingKind::SmallHouse
        | BuildingKind::MediumHouse | BuildingKind::LargeHouse => {
            matches!(terrain, TerrainKind::Grass | TerrainKind::Dirt | TerrainKind::Sand)
        },
        BuildingKind::Field => matches!(terrain, TerrainKind::Grass | TerrainKind::Dirt),
        BuildingKind::ForesterLodge | BuildingKind::TreePlot => matches!(terrain, TerrainKind::Grass),
    }
}

/// Water blocks both layers; land blocks neither.
pub fn terrain_collision_flags(terrain: TerrainKind) -> (r: CollisionFlags)
    ensures
        r.build_blocked == (terrain == TerrainKind::Water),
        r.npc_walk_blocked == (terrain == TerrainKind::Water),
{
    match terrain {
        TerrainKind::Water => CollisionFlags::new(true, true),
        TerrainKind::Grass | TerrainKind::Dirt | TerrainKind::Sand => CollisionFlags::new(false, false),
    }
}

/// Every building and blueprint blocks walking except Fields and Tree Plots.
pub open spec fn spec_building_blocks_npc_walk(kind: BuildingKind) -> bool {
    !(kind == BuildingKind::Field || kind == BuildingKind::TreePlot)
}

pub fn building_blocks_npc_walk(kind: BuildingKind) -> (r: bool)
    ensures
        r == spec_building_blocks_npc_walk(kind),
{
    !matches!(kind, BuildingKind::Field | BuildingKind::TreePlot)
}

/// A building or blueprint standing on the surface: its kind and footprint.
#[derive(Debug, Clone, Copy, PartialEq, Eq, Structural)]
pub struct Structure {
    pub kind: BuildingKind,
    pub footprint: BuildingFootprint,
}

/// Whether some structure covers `coord`.
pub open spec fn covered(structures: Seq<Structure>, coord: CellCoord) -> bool {
    exists|i: int| 0 <= i < structures.len() && footprint_contains(#[trigger] structures[i].footprint, coord)
}

/// Whether some structure that blocks walking covers `coord`.
pub open spec fn covered_by_walk_blocker(structures: Seq<Structure>, coord: CellCoord) -> bool {
    exists|i: int|
        0 <= i < structures.len() && footprint_contains(#[trigger] structures[i].footprint, coord)
            && spec_building_blocks_npc_walk(structures[i].kind)
}

/// The collision flags of a cell: `None` without a tile; otherwise those of
/// its terrain, with both layers blocked by a resource node, building
/// blocked by any structure over it and walking blocked by one that blocks
/// walking.
pub fn collision_flags_for(
    terrain: Option<TerrainKind>,
    resource_node_here: bool,
    structures: &[Structure],
    coord: CellCoord,
) -> (r: Option<CollisionFlags>)
    ensures
        r is None <==> terrain is None,
        r matches Some(f) ==> {
            &&& f.build_blocked == (terrain == Some(TerrainKind::Water) || resource_node_here || covered(structures@, coord))
            &&& f.npc_walk_blocked == (terrain == Some(TerrainKind::Water) || resource_node_here
                || covered_by_walk_blocker(structures@, coord))
        },
{
    let terrain = match terrain {
        Some(t) => t,
        None => {
            return None;
        },
    };
    let mut flags = terrain_collision_flags(terrain);
    if resource_node_here {
        flags.block_building();
        flags.block_npc_walk();
    }
    let ghost f0 = flags;
    let mut i: usize = 0;
    while i < structures.len()
        invariant
            0 <= i <= structures@.len(),
            flags.build_blocked == (f0.build_blocked || exists|t: int|
                0 <= t < i && footprint_contains(#[trigger] structures@[t].footprint, coord)),
            flags.npc_walk_blocked == (f0.npc_walk_blocked || exists|t: int|
                0 <= t < i && footprint_contains(#[trigger] structures@[t].footprint, coord)
                    && spec_building_blocks_npc_walk(structures@[t].kind)),
        decreases structures@.len() - i,
    {
        let s = structures[i];
        if s.footprint.contains(coord) {
            flags.block_building();
            if building_blocks_npc_walk(s.kind) {
                flags.block_npc_walk();
            }
        }
        proof {
            assert(structures@[i as int] == s);
        }
        i = i + 1;
    }
    Some(flags)
}

} // verus!
