use vstd::prelude::*;

verus! {

/// Which kinds of exclusive work an NPC currently holds.
#[derive(Debug, Clone, Copy, PartialEq, Eq, Structural)]
pub struct NpcWorkState {
    pub search_for_food: bool,
    pub food_haul: bool,
    pub gather_resource: bool,
    pub construct_building: bool,
    pub construction_haul: bool,
    pub construction_labor: bool,
    pub refine_resource: bool,
    /// A building haul, if any: `Some(true)` when construction may preempt it.
    pub building_haul: Option<bool>,
    pub wheelbarrow_recovery: bool,
    pub seed_field: bool,
    pub harvest_field: bool,
    pub seed_tree_plot: bool,
    pub cut_tree_plot: bool,
}

impl NpcWorkState {
    pub open spec fn spec_is_assigned(self) -> bool {
        self.search_for_food || self.food_haul || self.gather_resource || self.construct_building
            || self.construction_haul || self.construction_labor || self.refine_resource
            || self.building_haul is Some || self.wheelbarrow_recovery || self.seed_field
            || self.harvest_field || self.seed_tree_plot || self.cut_tree_plot
    }

    pub open spec fn spec_is_available_for_construction(self) -> bool {
        !self.search_for_food && !self.food_haul && !self.gather_resource
            && !self.construct_building && !self.construction_haul && !self.construction_labor
            && !self.refine_resource && self.building_haul != Some(false)
            && !self.wheelbarrow_recovery && !self.seed_field && !self.harvest_field
            && !self.seed_tree_plot && !self.cut_tree_plot
    }

    /// Whether the NPC holds any exclusive work.
    pub fn is_assigned(&self) -> (r: bool)
        ensures
            r == self.spec_is_assigned(),
    {
        self.search_for_food || self.food_haul || self.gather_resource || self.construct_building
            || self.construction_haul || self.construction_labor || self.refine_resource
            || self.building_haul.is_some() || self.wheelbarrow_recovery || self.seed_field
            || self.harvest_field || self.seed_tree_plot || self.cut_tree_plot
    }

    /// Whether the NPC's building haul, if any, may be preempted by construction.
    pub fn has_preemptible_refinery_supply(&self) -> (r: bool)
        ensures
            r == (self.building_haul == Some(true)),
    {
        match self.building_haul {
            Some(preemptible) => preemptible,
            None => false,
        }
    }

    /// Whether the NPC is free for construction: no work but, at most, a
    /// preemptible building haul.
    pub fn is_available_for_construction(&self) -> (r: bool)
        ensures
            r == self.spec_is_available_for_construction(),
    {
        let haul_ok = match self.building_haul {
            Some(preemptible) => preemptible,
            None => true,
        };
        !self.search_for_food && !self.food_haul && !self.gather_resource
            && !self.construct_building && !self.construction_haul && !self.construction_labor
            && !self.refine_resource && haul_ok && !self.wheelbarrow_recovery && !self.seed_field
            && !self.harvest_field && !self.seed_tree_plot && !self.cut_tree_plot
    }
}

/// An NPC with no work at all is available for construction, and an NPC
/// available for construction holds no work other than a preemptible haul.
pub proof fn lemma_idle_npc_is_available(w: NpcWorkState)
    ensures
        !w.spec_is_assigned() ==> w.spec_is_available_for_construction(),
        w.spec_is_available_for_construction() ==> (w.spec_is_assigned() <==> w.building_haul
            == Some(true)),
{
    match w.building_haul {
        Some(b) => {},
        None => {},
    }
}

} // verus!
