use vstd::prelude::*;
use crate::ai::{DEFAULT_NPC_FOOD_INVENTORY_START_THRESHOLD, DEFAULT_NPC_FOOD_INVENTORY_TARGET};
use crate::components::{
    AiKeepEnoughFoodInInventory, BirthDate, MaxVelocity, MovementFacing, Npc, NpcAppearance,
    NpcHunger, NpcInventory, NpcName, NpcPosition, SimDuration, Velocity, NANOS_PER_SEC,
};
use crate::farming::Farmer;
use crate::forestry::Forester;
use crate::grid::{CellCoord, Grid, GridSize, grid_contains};
use crate::resources::{ResourceAmounts, ResourceKind};
use crate::skills::NpcSkills;
use crate::time::{DAYS_PER_YEAR, SECONDS_PER_DAY};

verus! {

pub const INITIAL_NPC_NAME: &'static str = "Mara Voss";

pub const INITIAL_NPC_BIRTH_DAY: u64 = 320;

pub const DEFAULT_WORLD_DATE_TIME_DAY: u64 = 0;

pub const SECONDS_PER_HOUR: u64 = 3_600;

pub const SECONDS_PER_MINUTE: u64 = 60;

/// Number of colonists a new world starts with.
pub const INITIAL_NPC_COUNT: usize = 5;

/// A starting colonist: name, birth day, appearance, and offset from the
/// grid's center.
#[derive(Debug, Clone, Copy, PartialEq, Eq)]
pub struct InitialNpcSpec {
    pub name: &'static str,
    pub birth_day: u64,
    pub appearance: NpcAppearance,
    pub offset_from_center: (i32, i32),
}

/// The starting colonists, in spawn order.
pub open spec fn spec_initial_npc_specs() -> Seq<InitialNpcSpec> {
    seq![
        InitialNpcSpec {
            name: INITIAL_NPC_NAME,
            birth_day: INITIAL_NPC_BIRTH_DAY,
            appearance: NpcAppearance::Colonist,
            offset_from_center: (0, 0),
        },
        InitialNpcSpec { name: "Ilya Ren", birth_day: 326, appearance: NpcAppearance::Engineer, offset_from_center: (1, 0) },
        InitialNpcSpec { name: "Sera Nox", birth_day: 334, appearance: NpcAppearance::Botanist, offset_from_center: (0, 1) },
        InitialNpcSpec { name: "Toma Kade", birth_day: 311, appearance: NpcAppearance::Miner, offset_from_center: (-1i32, 0i32) },
        InitialNpcSpec { name: "Vale Arin", birth_day: 303, appearance: NpcAppearance::Scout, offset_from_center: (0i32, -1i32) },
    ]
}

/// The starting colonists, in spawn order.
pub fn initial_npc_specs() -> (r: Vec<InitialNpcSpec>)
    ensures
        r@ == spec_initial_npc_specs(),
        r@.len() == INITIAL_NPC_COUNT,
{
    let r = vec![
        InitialNpcSpec {
            name: INITIAL_NPC_NAME,
            birth_day: INITIAL_NPC_BIRTH_DAY,
            appearance: NpcAppearance::Colonist,
            offset_from_center: (0, 0),
        },
        InitialNpcSpec { name: "Ilya Ren", birth_day: 326, appearance: NpcAppearance::Engineer, offset_from_center: (1, 0) },
        InitialNpcSpec { name: "Sera Nox", birth_day: 334, appearance: NpcAppearance::Botanist, offset_from_center: (0, 1) },
        InitialNpcSpec { name: "Toma Kade", birth_day: 311, appearance: NpcAppearance::Miner, offset_from_center: (-1, 0) },
        InitialNpcSpec { name: "Vale Arin", birth_day: 303, appearance: NpcAppearance::Scout, offset_from_center: (0, -1) },
    ];
    assert(r@ =~= spec_initial_npc_specs());
    r
}

/// The world's clock: time elapsed since the world epoch.
#[derive(Debug, Clone, Copy, PartialEq, Eq, Structural)]
pub struct WorldDateTime {
    pub elapsed_since_world_epoch: SimDuration,
}

/// Seconds in one simulated year.
pub open spec fn seconds_per_year() -> int {
    DAYS_PER_YEAR as int * SECONDS_PER_DAY as int
}

impl WorldDateTime {
    pub fn new(elapsed_since_world_epoch: SimDuration) -> (r: Self)
        ensures
            r.elapsed_since_world_epoch == elapsed_since_world_epoch,
    {
        Self { elapsed_since_world_epoch }
    }

    /// The start of a day.
    pub fn from_day(day: u64) -> (r: Self)
        requires
            day * SECONDS_PER_DAY <= u64::MAX,
        ensures
            r.elapsed_since_world_epoch == (SimDuration { secs: (day * SECONDS_PER_DAY) as u64, nanos: 0 }),
    {
        Self::new(world_duration_from_day(day))
    }

    pub fn elapsed_since_world_epoch(self) -> (r: SimDuration)
        ensures
            r == self.elapsed_since_world_epoch,
    {
        self.elapsed_since_world_epoch
    }

    /// Whole days since the epoch.
    pub fn day(self) -> (r: u64)
        ensures
            r == self.elapsed_since_world_epoch.secs / SECONDS_PER_DAY,
    {
        self.elapsed_since_world_epoch.as_secs() / SECONDS_PER_DAY
    }

    /// Moves the clock forward, stopping at the largest duration.
    pub fn advance_by(&mut self, delta: SimDuration)
        requires
            old(self).elapsed_since_world_epoch.wf(),
            delta.wf(),
        ensures
            final(self).elapsed_since_world_epoch.wf(),
            ({
                let total = old(self).elapsed_since_world_epoch.total_nanos() + delta.total_nanos();
                if total <= SimDuration::max_spec().total_nanos() {
                    final(self).elapsed_since_world_epoch.total_nanos() == total
                } else {
                    final(self).elapsed_since_world_epoch == SimDuration::max_spec()
                }
            }),
    {
        self.elapsed_since_world_epoch = match self.elapsed_since_world_epoch.checked_add(delta) {
            Some(d) => d,
            None => SimDuration::max(),
        };
    }

    /// Hour of the day, 0 to 23.
    pub fn hour(self) -> (r: u8)
        ensures
            r == (self.elapsed_since_world_epoch.secs % SECONDS_PER_DAY) / SECONDS_PER_HOUR,
            r < 24,
    {
        let h = (self.elapsed_since_world_epoch.as_secs() % SECONDS_PER_DAY) / SECONDS_PER_HOUR;
        h as u8
    }

    /// Minute of the hour, 0 to 59.
    pub fn minute(self) -> (r: u8)
        ensures
            r == (self.elapsed_since_world_epoch.secs % SECONDS_PER_HOUR) / SECONDS_PER_MINUTE,
            r < 60,
    {
        let m = (self.elapsed_since_world_epoch.as_secs() % SECONDS_PER_HOUR) / SECONDS_PER_MINUTE;
        m as u8
    }

    /// Whole years lived since a birth date: zero before the birth, and
    /// capped at `u32::MAX`.
    pub fn age_years_since(self, birth_date: BirthDate) -> (r: u32)
        requires
            self.elapsed_since_world_epoch.wf(),
            birth_date.elapsed_since_world_epoch.wf(),
        ensures
            ({
                let now = self.elapsed_since_world_epoch;
                let born = birth_date.elapsed_since_world_epoch;
                let lived_secs: int = if born.total_nanos() <= now.total_nanos() {
                    (now.total_nanos() - born.total_nanos()) / (NANOS_PER_SEC as int)
                } else {
                    0
                };
                let years = lived_secs / seconds_per_year();
                r == if years > u32::MAX { u32::MAX as int } else { years }
            }),
    {
        let lived = match self.elapsed_since_world_epoch.checked_sub(birth_date.elapsed_since_world_epoch()) {
            Some(d) => d,
            None => SimDuration::zero(),
        };
        let year_secs: u64 = DAYS_PER_YEAR as u64 * SECONDS_PER_DAY;
        let years = lived.as_secs() / year_secs;
        proof {
            let n = lived.total_nanos();
            assert(lived.secs == n / (NANOS_PER_SEC as int)) by (nonlinear_arith)
                requires
                    n == lived.secs * (NANOS_PER_SEC as int) + lived.nanos,
                    0 <= lived.nanos < (NANOS_PER_SEC as int),
            ;
        }
        if years > u32::MAX as u64 {
            u32::MAX
        } else {
            years as u32
        }
    }
}

/// The time from the epoch to the start of a day.
pub fn world_duration_from_day(day: u64) -> (r: SimDuration)
    requires
        day * SECONDS_PER_DAY <= u64::MAX,
    ensures
        r == (SimDuration { secs: (day * SECONDS_PER_DAY) as u64, nanos: 0 }),
{
    SimDuration::from_secs(day * SECONDS_PER_DAY)
}

/// The components a starting colonist is spawned with.
#[derive(Debug, Clone, PartialEq, Eq)]
pub struct InitialNpcBundle {
    pub npc: Npc,
    pub appearance: NpcAppearance,
    pub name: NpcName,
    pub birth_date: BirthDate,
    pub position: NpcPosition,
    pub velocity: Velocity,
    pub max_velocity: MaxVelocity,
    pub movement_facing: MovementFacing,
    pub hunger: NpcHunger,
    pub inventory: NpcInventory,
    pub skills: NpcSkills,
    pub farmer: Farmer,
    pub forester: Forester,
    pub keep_food_in_inventory: AiKeepEnoughFoodInInventory,
}

impl InitialNpcBundle {
    /// The first starting colonist at a cell.
    pub fn new(coord: CellCoord) -> (r: Self)
        ensures
            r.appearance == NpcAppearance::Colonist,
            r.name.text() == INITIAL_NPC_NAME@,
            r.birth_date.elapsed_since_world_epoch == (SimDuration { secs: (INITIAL_NPC_BIRTH_DAY * SECONDS_PER_DAY) as u64, nanos: 0 }),
            initial_bundle_defaults(r, coord),
    {
        let specs = initial_npc_specs();
        proof {
            assert(specs@[0].birth_day == INITIAL_NPC_BIRTH_DAY);
        }
        Self::from_spec(specs[0], coord)
    }

    /// A starting colonist from its spec, at a cell: fed, idle, with zeroed
    /// skills, twenty food, and the default food-keeping goal.
    pub fn from_spec(spec: InitialNpcSpec, coord: CellCoord) -> (r: Self)
        requires
            spec.birth_day * SECONDS_PER_DAY <= u64::MAX,
        ensures
            r.appearance == spec.appearance,
            r.name.text() == spec.name@,
            r.birth_date.elapsed_since_world_epoch == (SimDuration { secs: (spec.birth_day * SECONDS_PER_DAY) as u64, nanos: 0 }),
            initial_bundle_defaults(r, coord),
    {
        Self {
            npc: Npc,
            appearance: spec.appearance,
            name: NpcName::new(spec.name),
            birth_date: BirthDate::new(world_duration_from_day(spec.birth_day)),
            position: NpcPosition::new(coord),
            velocity: Velocity::zero(),
            max_velocity: MaxVelocity::default(),
            movement_facing: MovementFacing::default(),
            hunger: NpcHunger::fed(),
            inventory: NpcInventory::new(ResourceAmounts::of(ResourceKind::Food, 20)),
            skills: NpcSkills::default(),
            farmer: Farmer,
            forester: Forester,
            keep_food_in_inventory: AiKeepEnoughFoodInInventory::new(
                DEFAULT_NPC_FOOD_INVENTORY_START_THRESHOLD,
                DEFAULT_NPC_FOOD_INVENTORY_TARGET,
            ),
        }
    }
}

/// The parts every starting colonist shares.
pub open spec fn initial_bundle_defaults(r: InitialNpcBundle, coord: CellCoord) -> bool {
    &&& r.position.coord == coord
    &&& r.velocity == Velocity::zero_spec()
    &&& r.hunger.level() == NpcHunger::MAX_SATIATION_LEVEL
    &&& r.inventory.store().spec_contents() == ResourceAmounts::zero_spec().with_amount(ResourceKind::Food, 20)
    &&& forall|k: crate::skills::SkillKind| #[trigger] r.skills.skill(k) == 0
    &&& r.keep_food_in_inventory.spec_start_threshold() == DEFAULT_NPC_FOOD_INVENTORY_START_THRESHOLD
    &&& r.keep_food_in_inventory.spec_target() == DEFAULT_NPC_FOOD_INVENTORY_TARGET
}

/// The grid's center cell, `None` for an empty grid.
pub open spec fn spec_center_coord(size: GridSize) -> Option<CellCoord> {
    if size.width == 0 || size.height == 0 {
        None
    } else {
        let c = CellCoord { x: (size.width / 2) as i32, y: (size.height / 2) as i32 };
        if size.width / 2 <= i32::MAX && size.height / 2 <= i32::MAX && grid_contains(size, c) {
            Some(c)
        } else {
            None
        }
    }
}

pub fn center_coord(grid: &Grid) -> (r: Option<CellCoord>)
    ensures
        r == spec_center_coord(grid.spec_size()),
{
    let size = grid.size();
    if size.width() == 0 || size.height() == 0 {
        return None;
    }
    match CellCoord::from_usize(size.width() / 2, size.height() / 2) {
        Some(coord) => if size.contains(coord) {
            Some(coord)
        } else {
            None
        },
        None => None,
    }
}

/// Where a starting colonist stands: its offset from the center, when that
/// cell is on the grid.
pub open spec fn spec_initial_npc_coord(center: CellCoord, offset: (i32, i32), size: GridSize) -> Option<CellCoord> {
    let c = CellCoord { x: (center.x + offset.0) as i32, y: (center.y + offset.1) as i32 };
    if grid_contains(size, c) { Some(c) } else { None }
}

fn initial_npc_coord(center: CellCoord, spec: InitialNpcSpec, grid: &Grid) -> (r: Option<CellCoord>)
    requires
        i32::MIN <= center.x + spec.offset_from_center.0 <= i32::MAX,
        i32::MIN <= center.y + spec.offset_from_center.1 <= i32::MAX,
    ensures
        r == spec_initial_npc_coord(center, spec.offset_from_center, grid.spec_size()),
{
    let coord = CellCoord::new(center.x() + spec.offset_from_center.0, center.y() + spec.offset_from_center.1);
    if grid.size().contains(coord) {
        Some(coord)
    } else {
        None
    }
}

/// The starting colonists placed on a grid, in spawn order: none on an
/// empty grid; otherwise each whose offset from the center lands on the
/// grid, at that cell.
pub fn initial_npc_placements(grid: &Grid) -> (r: Vec<(InitialNpcSpec, CellCoord)>)
    requires
        spec_center_coord(grid.spec_size()) matches Some(c) ==> c.x < i32::MAX && c.y < i32::MAX,
    ensures
        ({
            let specs = spec_initial_npc_specs();
            match spec_center_coord(grid.spec_size()) {
                None => r@.len() == 0,
                Some(center) => r@ == placements_of(specs, center, grid.spec_size(), INITIAL_NPC_COUNT as int),
            }
        }),
{
    let specs = initial_npc_specs();
    let center = match center_coord(grid) {
        Some(c) => c,
        None => {
            return Vec::new();
        },
    };
    let mut out: Vec<(InitialNpcSpec, CellCoord)> = Vec::new();
    let mut i: usize = 0;
    while i < specs.len()
        invariant
            0 <= i <= specs@.len(),
            specs@.len() == INITIAL_NPC_COUNT,
            specs@ == spec_initial_npc_specs(),
            spec_center_coord(grid.spec_size()) == Some(center),
            center.x < i32::MAX && center.y < i32::MAX,
            out@ == placements_of(specs@, center, grid.spec_size(), i as int),
        decreases specs@.len() - i,
    {
        let spec = specs[i];
        proof {
            assert(0 <= center.x && 0 <= center.y);
            assert(-1 <= spec.offset_from_center.0 <= 1 && -1 <= spec.offset_from_center.1 <= 1);
        }
        match initial_npc_coord(center, spec, grid) {
            Some(c) => {
                out.push((spec, c));
            },
            None => {},
        }
        i = i + 1;
    }
    out
}

/// The first `n` specs placed around a center, keeping those on the grid.
pub open spec fn placements_of(specs: Seq<InitialNpcSpec>, center: CellCoord, size: GridSize, n: int) -> Seq<
    (InitialNpcSpec, CellCoord),
>
    decreases n,
{
    if n <= 0 {
        seq![]
    } else {
        let s = specs[n - 1];
        placements_of(specs, center, size, n - 1) + match spec_initial_npc_coord(center, s.offset_from_center, size) {
            Some(c) => seq![(s, c)],
            None => seq![],
        }
    }
}

} // verus!
