use vstd::prelude::*;
use crate::components::SimDuration;
use crate::entity::EntityId;
use crate::grid::GridSize;
use crate::npcs::{WorldDateTime, DEFAULT_WORLD_DATE_TIME_DAY};
use crate::tile::{mix_hash, spec_mix_hash};
use crate::time::SIMULATION_TICK_SECONDS;

verus! {

/// The size of a new world's first surface.
pub fn default_grid_size() -> (r: GridSize)
    ensures
        r.width == 256 && r.height == 256,
{
    GridSize::new(256, 256)
}

/// Simulated time covered by one fixed tick.
pub fn simulation_tick_duration() -> (r: SimDuration)
    ensures
        r == (SimDuration { secs: SIMULATION_TICK_SECONDS, nanos: 0 }),
{
    SimDuration::from_secs(SIMULATION_TICK_SECONDS)
}

/// How many fixed ticks one frame runs.
#[derive(Debug, Clone, Copy, PartialEq, Eq, Structural)]
pub enum SimulationSpeed {
    OneX,
    TwoX,
    FourX,
    FiftyX,
    HundredX,
}

impl SimulationSpeed {
    pub open spec fn spec_multiplier(self) -> u32 {
        match self {
            SimulationSpeed::OneX => 1,
            SimulationSpeed::TwoX => 2,
            SimulationSpeed::FourX => 4,
            SimulationSpeed::FiftyX => 50,
            SimulationSpeed::HundredX => 100,
        }
    }

    pub fn multiplier(self) -> (r: u32)
        ensures
            r == self.spec_multiplier(),
    {
        match self {
            SimulationSpeed::OneX => 1,
            SimulationSpeed::TwoX => 2,
            SimulationSpeed::FourX => 4,
            SimulationSpeed::FiftyX => 50,
            SimulationSpeed::HundredX => 100,
        }
    }

    /// The speed with a multiplier, if there is one.
    pub fn from_multiplier(multiplier: u32) -> (r: Option<SimulationSpeed>)
        ensures
            r matches Some(s) ==> s.spec_multiplier() == multiplier,
            r is None <==> !(multiplier == 1 || multiplier == 2 || multiplier == 4 || multiplier == 50 || multiplier == 100),
    {
        match multiplier {
            1 => Some(SimulationSpeed::OneX),
            2 => Some(SimulationSpeed::TwoX),
            4 => Some(SimulationSpeed::FourX),
            50 => Some(SimulationSpeed::FiftyX),
            100 => Some(SimulationSpeed::HundredX),
            _ => None,
        }
    }
}

/// A speed is found again from its multiplier.
pub proof fn lemma_speed_multiplier_round_trip(speed: SimulationSpeed)
    ensures
        ({
            let m = speed.spec_multiplier();
            m == 1 || m == 2 || m == 4 || m == 50 || m == 100
        }),
        forall|other: SimulationSpeed| #[trigger] other.spec_multiplier() == speed.spec_multiplier() ==> other == speed,
{
}

/// Identifier of a surface of a simulation: its position in creation order.
#[derive(Debug, Clone, Copy, PartialEq, Eq, Hash, Structural)]
pub struct SurfaceId {
    pub index: usize,
}

impl SurfaceId {
    pub fn index(self) -> (r: usize)
        ensures
            r == self.index,
    {
        self.index
    }
}

#[derive(Debug, Clone, Copy, PartialEq, Eq, Structural)]
pub enum SurfaceLookupError {
    IndexOutOfRange { index: usize, surface_count: usize },
}

/// The surface at a position among `surface_count` surfaces.
pub fn surface_id_at(surface_count: usize, index: usize) -> (r: Result<SurfaceId, SurfaceLookupError>)
    ensures
        r == if index < surface_count {
            Ok::<SurfaceId, SurfaceLookupError>(SurfaceId { index })
        } else {
            Err(SurfaceLookupError::IndexOutOfRange { index, surface_count })
        },
{
    if index < surface_count {
        Ok(SurfaceId { index })
    } else {
        Err(SurfaceLookupError::IndexOutOfRange { index, surface_count })
    }
}

#[derive(Debug, Clone, Copy, PartialEq, Eq, Structural)]
pub enum WarehouseFilterError {
    MissingEntity,
    NotCompletedWarehouse,
}

/// A building on a given surface.
#[derive(Debug, Clone, Copy, PartialEq, Eq, Hash, Structural)]
pub struct BuildingTarget {
    pub surface_id: SurfaceId,
    pub entity: EntityId,
}

impl BuildingTarget {
    pub fn new(surface_id: SurfaceId, entity: EntityId) -> (r: Self)
        ensures
            r.surface_id == surface_id,
            r.entity == entity,
    {
        Self { surface_id, entity }
    }

    pub fn surface_id(self) -> (r: SurfaceId)
        ensures
            r == self.surface_id,
    {
        self.surface_id
    }

    pub fn entity(self) -> (r: EntityId)
        ensures
            r == self.entity,
    {
        self.entity
    }
}

#[derive(Debug, Clone, Copy, PartialEq, Eq, Structural)]
pub enum BuildingCommandError {
    WrongSurface,
    MissingEntity,
    NotBuilding,
    BlueprintIneligible,
    UnsupportedBuilding,
    UnsupportedResource,
    InvalidName,
    DuplicateName,
}

/// A building command is refused when its target lives on another surface.
pub fn validate_target_surface(requested_surface: SurfaceId, target: BuildingTarget) -> (r: Result<(), BuildingCommandError>)
    ensures
        r == if requested_surface == target.surface_id {
            Ok::<(), BuildingCommandError>(())
        } else {
            Err(BuildingCommandError::WrongSurface)
        },
{
    if requested_surface.index == target.surface_id.index {
        Ok(())
    } else {
        Err(BuildingCommandError::WrongSurface)
    }
}

/// The generation seed of a surface, derived from the world's seed and the
/// surface's position.
pub open spec fn spec_surface_generation_seed(generation_seed: u64, surface_id: SurfaceId) -> u64 {
    spec_mix_hash(generation_seed ^ ((surface_id.index as u64).wrapping_add(1u64)).wrapping_mul(0x9e37_79b9_7f4a_7c15u64))
}

pub fn surface_generation_seed(generation_seed: u64, surface_id: SurfaceId) -> (r: u64)
    ensures
        r == spec_surface_generation_seed(generation_seed, surface_id),
{
    let i: u64 = surface_id.index as u64;
    mix_hash(generation_seed ^ i.wrapping_add(1u64).wrapping_mul(0x9e37_79b9_7f4a_7c15u64))
}

/// The simulation's shared clock: the world's date and time, whether it
/// is playing, and its speed.
#[derive(Debug, Clone, Copy, PartialEq, Eq, Structural)]
pub struct SimulationClock {
    pub world_date_time: WorldDateTime,
    pub playing: bool,
    pub simulation_speed: SimulationSpeed,
}

impl SimulationClock {
    /// A playing clock at the start of the default day, at normal speed.
    pub fn new() -> (r: Self)
        ensures
            r.world_date_time.elapsed_since_world_epoch == (SimDuration { secs: 0, nanos: 0 }),
            r.playing,
            r.simulation_speed == SimulationSpeed::OneX,
    {
        Self {
            world_date_time: WorldDateTime::from_day(DEFAULT_WORLD_DATE_TIME_DAY),
            playing: true,
            simulation_speed: SimulationSpeed::OneX,
        }
    }

    pub fn is_playing(&self) -> (r: bool)
        ensures
            r == self.playing,
    {
        self.playing
    }

    pub fn play(&mut self)
        ensures
            *final(self) == (SimulationClock { playing: true, ..*old(self) }),
    {
        self.playing = true;
    }

    pub fn pause(&mut self)
        ensures
            *final(self) == (SimulationClock { playing: false, ..*old(self) }),
    {
        self.playing = false;
    }

    pub fn toggle_playing(&mut self)
        ensures
            *final(self) == (SimulationClock { playing: !old(self).playing, ..*old(self) }),
    {
        self.playing = !self.playing;
    }

    pub fn world_date_time(&self) -> (r: WorldDateTime)
        ensures
            r == self.world_date_time,
    {
        self.world_date_time
    }

    pub fn simulation_speed(&self) -> (r: SimulationSpeed)
        ensures
            r == self.simulation_speed,
    {
        self.simulation_speed
    }

    pub fn set_simulation_speed(&mut self, simulation_speed: SimulationSpeed)
        ensures
            *final(self) == (SimulationClock { simulation_speed, ..*old(self) }),
    {
        self.simulation_speed = simulation_speed;
    }

    /// Fixed ticks one frame runs: none while paused, otherwise the speed's
    /// multiplier.
    pub fn ticks_this_frame(&self) -> (r: u32)
        ensures
            r == if self.playing { self.simulation_speed.spec_multiplier() } else { 0 },
    {
        if self.playing {
            self.simulation_speed.multiplier()
        } else {
            0
        }
    }

    /// Advances the clock by one fixed tick and returns the new time, which
    /// every surface takes on before it ticks.
    pub fn advance_fixed_tick(&mut self) -> (r: WorldDateTime)
        requires
            old(self).world_date_time.elapsed_since_world_epoch.wf(),
        ensures
            final(self).world_date_time.elapsed_since_world_epoch.wf(),
            r == final(self).world_date_time,
            final(self).playing == old(self).playing,
            final(self).simulation_speed == old(self).simulation_speed,
            ({
                let total = old(self).world_date_time.elapsed_since_world_epoch.total_nanos() + SIMULATION_TICK_SECONDS
                    * 1_000_000_000;
                if total <= SimDuration::max_spec().total_nanos() {
                    final(self).world_date_time.elapsed_since_world_epoch.total_nanos() == total
                } else {
                    final(self).world_date_time.elapsed_since_world_epoch == SimDuration::max_spec()
                }
            }),
    {
        self.world_date_time.advance_by(simulation_tick_duration());
        self.world_date_time
    }
}

} // verus!
