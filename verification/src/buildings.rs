use crate::entity::EntityId;
use crate::grid::{axis_limit, grid_contains, CellCoord, GridSize};
use crate::names::{decimal, normalized, normalized_name, push_decimal};
use crate::components::TerrainKind;
use crate::collision::spec_terrain_allows_building;
use crate::resources::{
    deposits_cover, is_complete_deposit, saturated_total, ResourceAmounts, ResourceInventory,
    ResourceKind,
};
use vstd::prelude::*;
use vstd::string::*;

verus! {

pub const DEFAULT_DEPOT_INVENTORY_MAX_SIZE: u32 = 500;

pub const DEFAULT_WAREHOUSE_INVENTORY_MAX_SIZE: u32 = 2000;

/// Which resource kinds a storage building accepts.
#[derive(Debug, Clone, Copy, PartialEq, Eq, Structural)]
pub struct StorageResourceFilter {
    pub wood: bool,
    pub stone: bool,
    pub food: bool,
    pub gold: bool,
}

impl StorageResourceFilter {
    pub open spec fn allows(self, kind: ResourceKind) -> bool {
        match kind {
            ResourceKind::Wood => self.wood,
            ResourceKind::Stone => self.stone,
            ResourceKind::Food => self.food,
            ResourceKind::Gold => self.gold,
        }
    }

    pub fn allow_all() -> (r: Self)
        ensures
            forall|k: ResourceKind| #[trigger] r.allows(k),
    {
        Self { wood: true, stone: true, food: true, gold: true }
    }

    pub fn is_allowed(self, kind: ResourceKind) -> (r: bool)
        ensures
            r == self.allows(kind),
    {
        match kind {
            ResourceKind::Wood => self.wood,
            ResourceKind::Stone => self.stone,
            ResourceKind::Food => self.food,
            ResourceKind::Gold => self.gold,
        }
    }

    pub fn set_allowed(&mut self, kind: ResourceKind, allowed: bool)
        ensures
            final(self).allows(kind) == allowed,
            forall|k: ResourceKind| k != kind ==> #[trigger] final(self).allows(k) == old(self).allows(k),
    {
        match kind {
            ResourceKind::Wood => self.wood = allowed,
            ResourceKind::Stone => self.stone = allowed,
            ResourceKind::Food => self.food = allowed,
            ResourceKind::Gold => self.gold = allowed,
        }
    }
}

impl Default for StorageResourceFilter {
    fn default() -> (r: Self)
        ensures
            forall|k: ResourceKind| #[trigger] r.allows(k),
    {
        Self::allow_all()
    }
}

#[derive(Debug, Clone, Copy, PartialEq, Eq, Hash, Structural)]
pub enum BuildingKind {
    Depot,
    Warehouse,
    TownHall,
    Sawmill,
    Stoneworks,
    Kitchen,
    Farm,
    Field,
    ForesterLodge,
    TreePlot,
    SmallHouse,
    MediumHouse,
    LargeHouse,
}

/// Number of building kinds.
pub const BUILDING_KIND_COUNT: usize = 13;

impl BuildingKind {
    pub const ALL: [BuildingKind; 13] = [
        BuildingKind::Depot,
        BuildingKind::Warehouse,
        BuildingKind::TownHall,
        BuildingKind::Sawmill,
        BuildingKind::Stoneworks,
        BuildingKind::Kitchen,
        BuildingKind::Farm,
        BuildingKind::Field,
        BuildingKind::ForesterLodge,
        BuildingKind::TreePlot,
        BuildingKind::SmallHouse,
        BuildingKind::MediumHouse,
        BuildingKind::LargeHouse,
    ];

    /// Position of the kind in `ALL`.
    pub open spec fn ordinal(self) -> int {
        match self {
            BuildingKind::Depot => 0,
            BuildingKind::Warehouse => 1,
            BuildingKind::TownHall => 2,
            BuildingKind::Sawmill => 3,
            BuildingKind::Stoneworks => 4,
            BuildingKind::Kitchen => 5,
            BuildingKind::Farm => 6,
            BuildingKind::Field => 7,
            BuildingKind::ForesterLodge => 8,
            BuildingKind::TreePlot => 9,
            BuildingKind::SmallHouse => 10,
            BuildingKind::MediumHouse => 11,
            BuildingKind::LargeHouse => 12,
        }
    }

    pub fn index(self) -> (r: usize)
        ensures
            r == self.ordinal(),
            r < BUILDING_KIND_COUNT,
    {
        match self {
            BuildingKind::Depot => 0,
            BuildingKind::Warehouse => 1,
            BuildingKind::TownHall => 2,
            BuildingKind::Sawmill => 3,
            BuildingKind::Stoneworks => 4,
            BuildingKind::Kitchen => 5,
            BuildingKind::Farm => 6,
            BuildingKind::Field => 7,
            BuildingKind::ForesterLodge => 8,
            BuildingKind::TreePlot => 9,
            BuildingKind::SmallHouse => 10,
            BuildingKind::MediumHouse => 11,
            BuildingKind::LargeHouse => 12,
        }
    }

    pub open spec fn label_text(self) -> Seq<char> {
        match self {
            BuildingKind::Depot => "Depot"@,
            BuildingKind::Warehouse => "Warehouse"@,
            BuildingKind::TownHall => "TownHall"@,
            BuildingKind::Sawmill => "Sawmill"@,
            BuildingKind::Stoneworks => "Stoneworks"@,
            BuildingKind::Kitchen => "Kitchen"@,
            BuildingKind::Farm => "Farm"@,
            BuildingKind::Field => "Field"@,
            BuildingKind::ForesterLodge => "Forester's Lodge"@,
            BuildingKind::TreePlot => "Tree Plot"@,
            BuildingKind::SmallHouse => "Small House"@,
            BuildingKind::MediumHouse => "Medium House"@,
            BuildingKind::LargeHouse => "Large House"@,
        }
    }

    pub fn label(self) -> (r: &'static str)
        ensures
            r@ == self.label_text(),
    {
        match self {
            BuildingKind::Depot => "Depot",
            BuildingKind::Warehouse => "Warehouse",
            BuildingKind::TownHall => "TownHall",
            BuildingKind::Sawmill => "Sawmill",
            BuildingKind::Stoneworks => "Stoneworks",
            BuildingKind::Kitchen => "Kitchen",
            BuildingKind::Farm => "Farm",
            BuildingKind::Field => "Field",
            BuildingKind::ForesterLodge => "Forester's Lodge",
            BuildingKind::TreePlot => "Tree Plot",
            BuildingKind::SmallHouse => "Small House",
            BuildingKind::MediumHouse => "Medium House",
            BuildingKind::LargeHouse => "Large House",
        }
    }

    /// Width and height of the kind's footprint in cells.
    pub open spec fn dimensions(self) -> (usize, usize) {
        match self {
            BuildingKind::Depot => (2, 2),
            BuildingKind::Warehouse => (4, 4),
            BuildingKind::TownHall => (3, 3),
            BuildingKind::Sawmill => (2, 2),
            BuildingKind::Stoneworks => (2, 2),
            BuildingKind::Kitchen => (2, 2),
            BuildingKind::Farm => (3, 3),
            BuildingKind::Field => (1, 1),
            BuildingKind::ForesterLodge => (3, 3),
            BuildingKind::TreePlot => (1, 1),
            BuildingKind::SmallHouse => (1, 1),
            BuildingKind::MediumHouse => (2, 2),
            BuildingKind::LargeHouse => (3, 3),
        }
    }

    /// Residents a kind houses, for house kinds.
    pub open spec fn spec_housing_capacity(self) -> Option<usize> {
        match self {
            BuildingKind::SmallHouse => Some(2),
            BuildingKind::MediumHouse => Some(4),
            BuildingKind::LargeHouse => Some(8),
            _ => None,
        }
    }

    /// Footprint width and height of the kind.
    pub fn footprint_dimensions(self) -> (r: (usize, usize))
        ensures
            r == self.dimensions(),
    {
        match self {
            BuildingKind::Depot => (2, 2),
            BuildingKind::Warehouse => (4, 4),
            BuildingKind::TownHall => (3, 3),
            BuildingKind::Sawmill => (2, 2),
            BuildingKind::Stoneworks => (2, 2),
            BuildingKind::Kitchen => (2, 2),
            BuildingKind::Farm => (3, 3),
            BuildingKind::Field => (1, 1),
            BuildingKind::ForesterLodge => (3, 3),
            BuildingKind::TreePlot => (1, 1),
            BuildingKind::SmallHouse => (1, 1),
            BuildingKind::MediumHouse => (2, 2),
            BuildingKind::LargeHouse => (3, 3),
        }
    }

    /// Resources a blueprint of the kind needs before it is built: timber
    /// and stone, and gold for the town hall.
    pub open spec fn spec_construction_cost(self) -> ResourceAmounts {
        match self {
            BuildingKind::Depot => ResourceAmounts { wood: 20, stone: 10, food: 0, gold: 0 },
            BuildingKind::Warehouse => ResourceAmounts { wood: 40, stone: 20, food: 0, gold: 0 },
            BuildingKind::TownHall => ResourceAmounts { wood: 80, stone: 60, food: 0, gold: 20 },
            BuildingKind::Sawmill => ResourceAmounts { wood: 20, stone: 10, food: 0, gold: 0 },
            BuildingKind::Stoneworks => ResourceAmounts { wood: 20, stone: 20, food: 0, gold: 0 },
            BuildingKind::Kitchen => ResourceAmounts { wood: 20, stone: 10, food: 0, gold: 0 },
            BuildingKind::Farm => ResourceAmounts { wood: 20, stone: 30, food: 0, gold: 0 },
            BuildingKind::Field => ResourceAmounts { wood: 5, stone: 1, food: 0, gold: 0 },
            BuildingKind::ForesterLodge => ResourceAmounts { wood: 20, stone: 30, food: 0, gold: 0 },
            BuildingKind::TreePlot => ResourceAmounts { wood: 5, stone: 1, food: 0, gold: 0 },
            BuildingKind::SmallHouse => ResourceAmounts { wood: 10, stone: 5, food: 0, gold: 0 },
            BuildingKind::MediumHouse => ResourceAmounts { wood: 30, stone: 15, food: 0, gold: 0 },
            BuildingKind::LargeHouse => ResourceAmounts { wood: 60, stone: 30, food: 0, gold: 0 },
        }
    }

    /// The kind's building definition: footprint size, construction cost
    /// and housing capacity.
    pub fn definition(self) -> (r: BuildingDefinition)
        ensures
            r.spec_kind() == self,
            (r.spec_width(), r.spec_height()) == self.dimensions(),
            r.spec_construction_cost() == self.spec_construction_cost(),
            r.spec_housing_capacity() == self.spec_housing_capacity(),
    {
        let (wood, stone, gold): (u32, u32, u32) = match self {
            BuildingKind::Depot => (20, 10, 0),
            BuildingKind::Warehouse => (40, 20, 0),
            BuildingKind::TownHall => (80, 60, 20),
            BuildingKind::Sawmill => (20, 10, 0),
            BuildingKind::Stoneworks => (20, 20, 0),
            BuildingKind::Kitchen => (20, 10, 0),
            BuildingKind::Farm => (20, 30, 0),
            BuildingKind::Field => (5, 1, 0),
            BuildingKind::ForesterLodge => (20, 30, 0),
            BuildingKind::TreePlot => (5, 1, 0),
            BuildingKind::SmallHouse => (10, 5, 0),
            BuildingKind::MediumHouse => (30, 15, 0),
            BuildingKind::LargeHouse => (60, 30, 0),
        };
        let (width, height) = self.footprint_dimensions();
        BuildingDefinition {
            kind: self,
            width,
            height,
            construction_cost: ResourceAmounts { wood, stone, food: 0, gold },
            housing_capacity: self.housing_capacity(),
        }
    }

    /// Residents the kind houses; `None` for buildings that are not houses.
    pub fn housing_capacity(self) -> (r: Option<usize>)
        ensures
            r == self.spec_housing_capacity(),
    {
        match self {
            BuildingKind::SmallHouse => Some(2),
            BuildingKind::MediumHouse => Some(4),
            BuildingKind::LargeHouse => Some(8),
            _ => None,
        }
    }

    pub open spec fn spec_is_storage(self) -> bool {
        self == BuildingKind::Depot || self == BuildingKind::Warehouse
    }

    pub open spec fn spec_is_refinery(self) -> bool {
        self == BuildingKind::Sawmill || self == BuildingKind::Stoneworks || self
            == BuildingKind::Kitchen
    }

    pub fn is_storage(self) -> (r: bool)
        ensures
            r == self.spec_is_storage(),
    {
        match self {
            BuildingKind::Depot | BuildingKind::Warehouse => true,
            _ => false,
        }
    }

    pub fn is_refinery(self) -> (r: bool)
        ensures
            r == self.spec_is_refinery(),
    {
        match self {
            BuildingKind::Sawmill | BuildingKind::Stoneworks | BuildingKind::Kitchen => true,
            _ => false,
        }
    }

    pub fn is_logistics_configurable(self) -> (r: bool)
        ensures
            r == (self.spec_is_storage() || self.spec_is_refinery()),
    {
        self.is_storage() || self.is_refinery()
    }
}

/// A placed building: its kind and the cells it covers.
#[derive(Debug, Clone, Copy, PartialEq, Eq, Structural)]
pub struct Building {
    pub kind: BuildingKind,
    pub footprint: BuildingFootprint,
}

impl Building {
    pub fn new(kind: BuildingKind, footprint: BuildingFootprint) -> (r: Self)
        ensures
            r.kind == kind,
            r.footprint == footprint,
    {
        Self { kind, footprint }
    }
}

/// A building awaiting construction.
#[derive(Debug, Clone, Copy, PartialEq, Eq, Structural)]
pub struct BuildingBlueprint {
    pub kind: BuildingKind,
    pub footprint: BuildingFootprint,
}

/// A rectangle of cells with its top-left cell at `origin`.
#[derive(Debug, Clone, Copy, PartialEq, Eq, Structural)]
pub struct BuildingFootprint {
    pub origin: CellCoord,
    pub width: usize,
    pub height: usize,
}

/// The half-open bounds `(left, top, right, bottom)` of a footprint, when its
/// size and far edges fit in `i32`.
pub open spec fn footprint_bounds(f: BuildingFootprint) -> Option<(int, int, int, int)> {
    if f.width <= i32::MAX && f.height <= i32::MAX && f.origin.x + f.width <= i32::MAX
        && f.origin.y + f.height <= i32::MAX {
        Some((f.origin.x as int, f.origin.y as int, f.origin.x + f.width, f.origin.y + f.height))
    } else {
        None
    }
}

/// Whether a footprint covers a cell.
pub open spec fn footprint_contains(f: BuildingFootprint, c: CellCoord) -> bool {
    match footprint_bounds(f) {
        Some((l, t, r, b)) => l <= c.x < r && t <= c.y < b,
        None => false,
    }
}

/// Whether two footprints share a cell.
pub open spec fn footprints_overlap(a: BuildingFootprint, b: BuildingFootprint) -> bool {
    match (footprint_bounds(a), footprint_bounds(b)) {
        (Some((l, t, r, bo)), Some((ol, ot, or, ob))) => l < or && r > ol && t < ob && bo > ot,
        _ => false,
    }
}

/// Whether a footprint is nonempty and lies entirely inside a grid.
pub open spec fn footprint_within(f: BuildingFootprint, size: GridSize) -> bool {
    &&& f.width != 0 && f.height != 0
    &&& size.width < axis_limit() && size.height < axis_limit()
    &&& match footprint_bounds(f) {
        Some((l, t, r, b)) => l >= 0 && t >= 0 && r <= size.width && b <= size.height,
        None => false,
    }
}

/// Columns of a footprint whose coordinates fit in `i32`.
pub open spec fn footprint_columns(f: BuildingFootprint) -> int {
    let room = i32::MAX - f.origin.x + 1;
    let w = if f.width < axis_limit() { f.width as int } else { axis_limit() };
    if w < room { w } else { room }
}

/// Rows of a footprint whose coordinates fit in `i32`.
pub open spec fn footprint_rows(f: BuildingFootprint) -> int {
    let room = i32::MAX - f.origin.y + 1;
    let h = if f.height < axis_limit() { f.height as int } else { axis_limit() };
    if h < room { h } else { room }
}

/// The cells of a footprint whose coordinates fit in `i32`, in row-major order.
pub open spec fn footprint_cells(f: BuildingFootprint) -> Seq<CellCoord> {
    Seq::new(
        (footprint_columns(f) * footprint_rows(f)) as nat,
        |i: int|
            CellCoord {
                x: (f.origin.x + i % footprint_columns(f)) as i32,
                y: (f.origin.y + i / footprint_columns(f)) as i32,
            },
    )
}

impl BuildingFootprint {
    pub fn new(origin: CellCoord, width: usize, height: usize) -> (r: Self)
        ensures
            r == (BuildingFootprint { origin, width, height }),
    {
        Self { origin, width, height }
    }

    pub fn origin(self) -> (r: CellCoord)
        ensures
            r == self.origin,
    {
        self.origin
    }

    pub fn width(self) -> (r: usize)
        ensures
            r == self.width,
    {
        self.width
    }

    pub fn height(self) -> (r: usize)
        ensures
            r == self.height,
    {
        self.height
    }

    fn bounds(self) -> (r: Option<(i32, i32, i32, i32)>)
        ensures
            match footprint_bounds(self) {
                Some((l, t, ri, b)) => r == Some((l as i32, t as i32, ri as i32, b as i32)),
                None => r is None,
            },
    {
        if self.width > i32::MAX as usize || self.height > i32::MAX as usize {
            return None;
        }
        let width = self.width as i32;
        let height = self.height as i32;
        let right = match self.origin.x.checked_add(width) {
            Some(v) => v,
            None => return None,
        };
        let bottom = match self.origin.y.checked_add(height) {
            Some(v) => v,
            None => return None,
        };
        Some((self.origin.x, self.origin.y, right, bottom))
    }

    pub fn contains(self, coord: CellCoord) -> (r: bool)
        ensures
            r == footprint_contains(self, coord),
    {
        match self.bounds() {
            Some((left, top, right, bottom)) => coord.x >= left && coord.x < right && coord.y
                >= top && coord.y < bottom,
            None => false,
        }
    }

    /// The covered cells in row-major order, skipping any whose coordinates
    /// would not fit in `i32`.
    pub fn iter_coords(self) -> (r: Vec<CellCoord>)
        ensures
            r@ == footprint_cells(self),
    {
        let w: usize = if self.width <= i32::MAX as usize { self.width } else { 0x8000_0000 };
        let room_x: u64 = (i32::MAX as i64 - self.origin.x as i64 + 1) as u64;
        let cols: usize = if (w as u64) < room_x { w } else { room_x as usize };
        let h: usize = if self.height <= i32::MAX as usize { self.height } else { 0x8000_0000 };
        let room_y: u64 = (i32::MAX as i64 - self.origin.y as i64 + 1) as u64;
        let rows: usize = if (h as u64) < room_y { h } else { room_y as usize };
        let mut coords: Vec<CellCoord> = Vec::new();
        let mut dy: usize = 0;
        while dy < rows
            invariant
                cols == footprint_columns(self),
                rows == footprint_rows(self),
                dy <= rows,
                coords@.len() == dy * cols,
                forall|j: int|
                    0 <= j < coords@.len() ==> #[trigger] coords@[j] == footprint_cells(self)[j],
            decreases rows - dy,
        {
            let mut dx: usize = 0;
            while dx < cols
                invariant
                    cols == footprint_columns(self),
                    rows == footprint_rows(self),
                    dy < rows,
                    dx <= cols,
                    coords@.len() == dy * cols + dx,
                    forall|j: int|
                        0 <= j < coords@.len() ==> #[trigger] coords@[j] == footprint_cells(self)[j],
                decreases cols - dx,
            {
                proof {
                    crate::grid::lemma_row_major_index(cols as int, dy as int, dx as int);
                    assert(dy * cols + dx < cols * rows) by (nonlinear_arith)
                        requires
                            dx < cols,
                            dy < rows,
                    ;
                }
                coords.push(
                    CellCoord {
                        x: (self.origin.x as i64 + dx as i64) as i32,
                        y: (self.origin.y as i64 + dy as i64) as i32,
                    },
                );
                dx = dx + 1;
            }
            proof {
                assert((dy + 1) * cols == dy * cols + cols) by (nonlinear_arith);
            }
            dy = dy + 1;
        }
        proof {
            vstd::arithmetic::mul::lemma_mul_is_commutative(cols as int, rows as int);
            assert(coords@ =~= footprint_cells(self));
        }
        coords
    }

    pub fn is_within(self, size: GridSize) -> (r: bool)
        ensures
            r == footprint_within(self, size),
    {
        if self.width == 0 || self.height == 0 {
            return false;
        }
        let (left, top, right, bottom) = match self.bounds() {
            Some(b) => b,
            None => return false,
        };
        let grid_width = match size.width_i32() {
            Some(w) => w,
            None => return false,
        };
        let grid_height = match size.height_i32() {
            Some(h) => h,
            None => return false,
        };
        left >= 0 && top >= 0 && right <= grid_width && bottom <= grid_height
    }

    pub fn overlaps(self, other: Self) -> (r: bool)
        ensures
            r == footprints_overlap(self, other),
    {
        let (left, top, right, bottom) = match self.bounds() {
            Some(b) => b,
            None => return false,
        };
        let (other_left, other_top, other_right, other_bottom) = match other.bounds() {
            Some(b) => b,
            None => return false,
        };
        left < other_right && right > other_left && top < other_bottom && bottom > other_top
    }
}

/// Nonempty footprints overlap exactly when some cell lies in both.
pub proof fn lemma_overlap_iff_shared_cell(a: BuildingFootprint, b: BuildingFootprint)
    requires
        a.width > 0 && a.height > 0,
        b.width > 0 && b.height > 0,
    ensures
        footprints_overlap(a, b) <==> exists|c: CellCoord|
            footprint_contains(a, c) && footprint_contains(b, c),
{
    if footprints_overlap(a, b) {
        let (l, t, r, bo) = footprint_bounds(a).unwrap();
        let (ol, ot, or, ob) = footprint_bounds(b).unwrap();
        let x = if l > ol { l } else { ol };
        let y = if t > ot { t } else { ot };
        let c = CellCoord { x: x as i32, y: y as i32 };
        assert(footprint_contains(a, c) && footprint_contains(b, c));
    }
    if exists|c: CellCoord| footprint_contains(a, c) && footprint_contains(b, c) {
        let c = choose|c: CellCoord| footprint_contains(a, c) && footprint_contains(b, c);
        assert(footprints_overlap(a, b));
    }
}

/// Every listed cell of a footprint is covered by it, and every covered cell is listed.
pub proof fn lemma_footprint_cells_are_covered(f: BuildingFootprint)
    requires
        footprint_bounds(f) is Some,
    ensures
        forall|i: int|
            0 <= i < footprint_cells(f).len() ==> footprint_contains(f, #[trigger] footprint_cells(f)[i]),
        footprint_cells(f).len() == f.width * f.height,
{
    let w = footprint_columns(f);
    let h = footprint_rows(f);
    assert(w == f.width);
    assert(h == f.height);
    assert forall|i: int| 0 <= i < footprint_cells(f).len() implies footprint_contains(
        f,
        #[trigger] footprint_cells(f)[i],
    ) by {
        assert(w > 0) by (nonlinear_arith)
            requires
                0 <= i < w * h,
                h >= 0,
        ;
        vstd::arithmetic::div_mod::lemma_div_pos_is_pos(i, w);
        vstd::arithmetic::div_mod::lemma_mod_bound(i, w);
        vstd::arithmetic::div_mod::lemma_multiply_divide_lt(i, w, h);
    }
}

/// Resources deposited on a blueprint toward its construction cost.
#[derive(Debug, Clone, Copy, PartialEq, Eq, Structural)]
pub struct ConstructionProgress {
    pub deposited: ResourceAmounts,
}

/// What is still owed of a kind: cost minus deposit, or zero.
pub open spec fn remaining_of(cost: ResourceAmounts, deposited: ResourceAmounts, kind: ResourceKind) -> int {
    if cost.amount(kind) > deposited.amount(kind) {
        cost.amount(kind) - deposited.amount(kind)
    } else {
        0
    }
}

impl ConstructionProgress {
    pub fn new(deposited: ResourceAmounts) -> (r: Self)
        ensures
            r.deposited == deposited,
    {
        Self { deposited }
    }

    pub fn deposited(self) -> (r: ResourceAmounts)
        ensures
            r == self.deposited,
    {
        self.deposited
    }

    pub fn remaining(self, cost: ResourceAmounts, kind: ResourceKind) -> (r: u32)
        ensures
            r == remaining_of(cost, self.deposited, kind),
    {
        cost.get(kind).saturating_sub(self.deposited.get(kind))
    }

    /// Deposits as much of `amount` as is still owed of the kind and returns
    /// how much was taken.
    pub fn deposit(&mut self, kind: ResourceKind, amount: u32, cost: ResourceAmounts) -> (r: u32)
        ensures
            r == (if amount < remaining_of(cost, old(self).deposited, kind) {
                amount as int
            } else {
                remaining_of(cost, old(self).deposited, kind)
            }),
            final(self).deposited == old(self).deposited.with_amount(
                kind,
                (old(self).deposited.amount(kind) + r) as u32,
            ),
    {
        let remaining = self.remaining(cost, kind);
        let deposited = if amount < remaining { amount } else { remaining };
        if deposited == 0 {
            proof {
                assert(old(self).deposited.with_amount(kind, old(self).deposited.amount(kind))
                    == old(self).deposited);
            }
            return 0;
        }
        let current = self.deposited.get(kind);
        self.deposited.set(kind, current + deposited);
        deposited
    }

    /// Whether nothing of the cost is still owed.
    pub fn is_complete(self, cost: ResourceAmounts) -> (r: bool)
        ensures
            r == deposits_cover(cost, self.deposited),
            r <==> forall|k: ResourceKind| #[trigger] remaining_of(cost, self.deposited, k) == 0,
    {
        let r = is_complete_deposit(cost, self.deposited);
        proof {
            if r {
                assert forall|k: ResourceKind| #[trigger] remaining_of(cost, self.deposited, k)
                    == 0 by {
                    assert(self.deposited.amount(k) >= cost.amount(k));
                }
            } else {
                let k = choose|k: ResourceKind| !(#[trigger] self.deposited.amount(k) >= cost.amount(k));
                assert(remaining_of(cost, self.deposited, k) != 0);
            }
        }
        r
    }
}

/// Depositing never pushes a kind past its cost, and the deposited part and what
/// remains add up to the cost.
pub proof fn lemma_deposit_accounting(
    before: ResourceAmounts,
    cost: ResourceAmounts,
    kind: ResourceKind,
    amount: u32,
)
    requires
        before.amount(kind) <= cost.amount(kind),
    ensures
        ({
            let taken = if amount < remaining_of(cost, before, kind) {
                amount as int
            } else {
                remaining_of(cost, before, kind)
            };
            let after = before.with_amount(kind, (before.amount(kind) + taken) as u32);
            &&& after.amount(kind) <= cost.amount(kind)
            &&& after.amount(kind) + remaining_of(cost, after, kind) == cost.amount(kind)
        }),
{
}

/// A blueprint together with its initial, empty construction progress.
#[derive(Debug, Clone, Copy, PartialEq, Eq, Structural)]
pub struct BuildingBlueprintBundle {
    pub blueprint: BuildingBlueprint,
    pub construction_progress: ConstructionProgress,
}

impl BuildingBlueprintBundle {
    pub fn new(kind: BuildingKind, footprint: BuildingFootprint) -> (r: Self)
        ensures
            r.blueprint == (BuildingBlueprint { kind, footprint }),
            r.construction_progress.deposited == ResourceAmounts::zero_spec(),
    {
        Self {
            blueprint: BuildingBlueprint { kind, footprint },
            construction_progress: ConstructionProgress::new(ResourceAmounts::zero()),
        }
    }
}

/// What a building kind is: its footprint size, what it costs to build and
/// how many it houses.
#[derive(Debug, Clone, Copy, PartialEq, Eq)]
pub struct BuildingDefinition {
    kind: BuildingKind,
    width: usize,
    height: usize,
    construction_cost: ResourceAmounts,
    housing_capacity: Option<usize>,
}

impl BuildingDefinition {
    pub closed spec fn spec_kind(self) -> BuildingKind {
        self.kind
    }

    pub closed spec fn spec_width(self) -> usize {
        self.width
    }

    pub closed spec fn spec_height(self) -> usize {
        self.height
    }

    pub closed spec fn spec_construction_cost(self) -> ResourceAmounts {
        self.construction_cost
    }

    pub closed spec fn spec_housing_capacity(self) -> Option<usize> {
        self.housing_capacity
    }

    pub fn kind(self) -> (r: BuildingKind)
        ensures
            r == self.spec_kind(),
    {
        self.kind
    }

    pub fn width(self) -> (r: usize)
        ensures
            r == self.spec_width(),
    {
        self.width
    }

    pub fn height(self) -> (r: usize)
        ensures
            r == self.spec_height(),
    {
        self.height
    }

    pub fn construction_cost(self) -> (r: ResourceAmounts)
        ensures
            r == self.spec_construction_cost(),
    {
        self.construction_cost
    }

    pub fn housing_capacity(self) -> (r: Option<usize>)
        ensures
            r == self.spec_housing_capacity(),
    {
        self.housing_capacity
    }
}

/// Storage capacity of a storage building kind.
pub open spec fn storage_capacity(kind: BuildingKind) -> u32 {
    if kind == BuildingKind::Depot {
        DEFAULT_DEPOT_INVENTORY_MAX_SIZE
    } else {
        DEFAULT_WAREHOUSE_INVENTORY_MAX_SIZE
    }
}

/// Inventory of a depot or warehouse, with the kinds it accepts.
#[derive(Debug, Clone, Copy, PartialEq, Eq)]
pub struct StorageInventory {
    inventory: ResourceInventory,
    filter: StorageResourceFilter,
}

impl StorageInventory {
    pub closed spec fn store(self) -> ResourceInventory {
        self.inventory
    }

    pub closed spec fn spec_filter(self) -> StorageResourceFilter {
        self.filter
    }

    /// An empty warehouse inventory.
    pub fn empty() -> (r: Self)
        ensures
            r.store().spec_contents() == ResourceAmounts::zero_spec(),
            r.store().spec_max_size() == DEFAULT_WAREHOUSE_INVENTORY_MAX_SIZE,
            r.store().wf(),
            forall|k: ResourceKind| #[trigger] r.spec_filter().allows(k),
    {
        Self::for_kind(BuildingKind::Warehouse)
    }

    /// An empty inventory sized for a storage building kind.
    pub fn for_kind(kind: BuildingKind) -> (r: Self)
        requires
            kind.spec_is_storage(),
        ensures
            r.store().spec_contents() == ResourceAmounts::zero_spec(),
            r.store().spec_max_size() == storage_capacity(kind),
            r.store().wf(),
            forall|k: ResourceKind| #[trigger] r.spec_filter().allows(k),
    {
        let capacity = match kind {
            BuildingKind::Depot => DEFAULT_DEPOT_INVENTORY_MAX_SIZE,
            _ => DEFAULT_WAREHOUSE_INVENTORY_MAX_SIZE,
        };
        Self {
            inventory: ResourceInventory::empty(capacity),
            filter: StorageResourceFilter::allow_all(),
        }
    }

    pub fn contents(self) -> (r: ResourceAmounts)
        ensures
            r == self.store().spec_contents(),
    {
        self.inventory.contents()
    }

    pub fn max_size(self) -> (r: u32)
        ensures
            r == self.store().spec_max_size(),
    {
        self.inventory.max_size()
    }

    pub fn used_size(self) -> (r: u32)
        ensures
            r == saturated_total(self.store().spec_contents()),
    {
        self.inventory.used_size()
    }

    pub fn free_size(self) -> (r: u32)
        ensures
            r == self.store().spec_free_size(),
    {
        self.inventory.free_size()
    }

    pub fn is_allowed(self, kind: ResourceKind) -> (r: bool)
        ensures
            r == self.spec_filter().allows(kind),
    {
        self.filter.is_allowed(kind)
    }

    pub fn set_allowed(&mut self, kind: ResourceKind, allowed: bool)
        ensures
            final(self).spec_filter().allows(kind) == allowed,
            forall|k: ResourceKind|
                k != kind ==> #[trigger] final(self).spec_filter().allows(k) == old(
                    self,
                ).spec_filter().allows(k),
            final(self).store() == old(self).store(),
    {
        self.filter.set_allowed(kind, allowed);
    }

    /// Removes `amount` of a kind if that much is held; otherwise changes nothing.
    pub fn consume(&mut self, kind: ResourceKind, amount: u32) -> (r: bool)
        ensures
            r == (amount <= old(self).store().spec_contents().amount(kind)),
            r ==> final(self).store().spec_contents() == old(self).store().spec_contents().with_amount(
                kind,
                (old(self).store().spec_contents().amount(kind) - amount) as u32,
            ),
            !r ==> final(self).store().spec_contents() == old(self).store().spec_contents(),
            final(self).store().spec_max_size() == old(self).store().spec_max_size(),
            final(self).spec_filter() == old(self).spec_filter(),
            old(self).store().wf() ==> final(self).store().wf(),
    {
        self.inventory.consume(kind, amount)
    }

    /// Stores `amount` of a kind if the filter accepts it and it fits; otherwise
    /// changes nothing.
    pub fn add(&mut self, kind: ResourceKind, amount: u32) -> (r: bool)
        ensures
            r == (old(self).spec_filter().allows(kind) && old(self).store().spec_contents().amount(
                kind,
            ) + amount <= u32::MAX && amount <= old(self).store().spec_free_size()),
            r ==> final(self).store().spec_contents() == old(self).store().spec_contents().with_amount(
                kind,
                (old(self).store().spec_contents().amount(kind) + amount) as u32,
            ),
            !r ==> final(self).store().spec_contents() == old(self).store().spec_contents(),
            final(self).store().spec_max_size() == old(self).store().spec_max_size(),
            final(self).spec_filter() == old(self).spec_filter(),
            old(self).store().wf() ==> final(self).store().wf(),
    {
        self.is_allowed(kind) && self.inventory.add(kind, amount)
    }
}

impl Default for StorageInventory {
    fn default() -> (r: Self)
        ensures
            r.store().spec_contents() == ResourceAmounts::zero_spec(),
            r.store().spec_max_size() == DEFAULT_WAREHOUSE_INVENTORY_MAX_SIZE,
    {
        Self::empty()
    }
}

/// Display name of a building.
#[derive(Debug, Clone, PartialEq, Eq)]
pub struct BuildingName {
    name: String,
}

impl BuildingName {
    pub closed spec fn text(&self) -> Seq<char> {
        self.name@
    }

    pub fn new(name: &str) -> (r: Self)
        ensures
            r.text() == name@,
    {
        Self { name: name.to_owned() }
    }

    pub fn as_str(&self) -> (r: &str)
        ensures
            r@ == self.text(),
    {
        self.name.as_str()
    }
}

/// Whether a logistics building is switched on.
#[derive(Debug, Clone, Copy, PartialEq, Eq, Structural)]
pub struct BuildingActivity {
    pub active: bool,
}

impl BuildingActivity {
    pub fn active() -> (r: Self)
        ensures
            r.active,
    {
        Self { active: true }
    }

    pub fn is_active(self) -> (r: bool)
        ensures
            r == self.active,
    {
        self.active
    }

    pub fn set_active(&mut self, active: bool)
        ensures
            final(self).active == active,
    {
        self.active = active;
    }
}

impl Default for BuildingActivity {
    fn default() -> (r: Self)
        ensures
            r.active,
    {
        Self::active()
    }
}

/// Per-kind switches of a storage building pulling output from refineries.
#[derive(Debug, Clone, Copy, PartialEq, Eq, Structural)]
pub struct StoragePullConfig {
    pub pulls: StorageResourceFilter,
}

impl StoragePullConfig {
    /// The kinds a storage building can pull from refineries: refinery
    /// output; of the resource kinds here, food.
    pub open spec fn spec_supports(kind: ResourceKind) -> bool {
        kind == ResourceKind::Food
    }

    pub fn supports(kind: ResourceKind) -> (r: bool)
        ensures
            r == Self::spec_supports(kind),
    {
        match kind {
            ResourceKind::Food => true,
            _ => false,
        }
    }

    pub fn pulls_from_refineries(self, kind: ResourceKind) -> (r: bool)
        ensures
            r == self.pulls.allows(kind),
    {
        self.pulls.is_allowed(kind)
    }

    pub fn set_pulls_from_refineries(&mut self, kind: ResourceKind, enabled: bool)
        ensures
            final(self).pulls.allows(kind) == enabled,
            forall|k: ResourceKind|
                k != kind ==> #[trigger] final(self).pulls.allows(k) == old(self).pulls.allows(k),
    {
        self.pulls.set_allowed(kind, enabled);
    }
}

impl Default for StoragePullConfig {
    fn default() -> (r: Self)
        ensures
            forall|k: ResourceKind| !#[trigger] r.pulls.allows(k),
    {
        Self { pulls: StorageResourceFilter { wood: false, stone: false, food: false, gold: false } }
    }
}

/// Whether a refinery kind has a recipe taking a resource kind as input: a
/// sawmill takes wood and a stoneworks stone.
pub open spec fn spec_refinery_takes(building: BuildingKind, kind: ResourceKind) -> bool {
    ||| building == BuildingKind::Sawmill && kind == ResourceKind::Wood
    ||| building == BuildingKind::Stoneworks && kind == ResourceKind::Stone
}

pub fn refinery_takes(building: BuildingKind, kind: ResourceKind) -> (r: bool)
    ensures
        r == spec_refinery_takes(building, kind),
{
    match (building, kind) {
        (BuildingKind::Sawmill, ResourceKind::Wood) => true,
        (BuildingKind::Stoneworks, ResourceKind::Stone) => true,
        _ => false,
    }
}

/// Per-kind switches of a refinery pulling input from storage.
#[derive(Debug, Clone, Copy, PartialEq, Eq, Structural)]
pub struct RefineryPullConfig {
    pub pulls: StorageResourceFilter,
}

impl RefineryPullConfig {
    pub fn pulls_from_storage(self, kind: ResourceKind) -> (r: bool)
        ensures
            r == self.pulls.allows(kind),
    {
        self.pulls.is_allowed(kind)
    }

    pub fn set_pulls_from_storage(&mut self, kind: ResourceKind, enabled: bool)
        ensures
            final(self).pulls.allows(kind) == enabled,
            forall|k: ResourceKind|
                k != kind ==> #[trigger] final(self).pulls.allows(k) == old(self).pulls.allows(k),
    {
        self.pulls.set_allowed(kind, enabled);
    }
}

impl Default for RefineryPullConfig {
    fn default() -> (r: Self)
        ensures
            forall|k: ResourceKind| !#[trigger] r.pulls.allows(k),
    {
        Self { pulls: StorageResourceFilter { wood: false, stone: false, food: false, gold: false } }
    }
}

/// Next default-name number of every building kind.
#[derive(Debug, Clone, PartialEq, Eq)]
pub struct BuildingNameRegistry {
    next_numbers: [u64; 13],
}

impl BuildingNameRegistry {
    /// The number the next default name of a kind will carry.
    pub closed spec fn next_number(&self, kind: BuildingKind) -> u64 {
        self.next_numbers@[kind.ordinal()]
    }

    /// Takes the next number of a kind and advances the counter, saturating.
    pub fn allocate(&mut self, kind: BuildingKind) -> (r: u64)
        ensures
            r == old(self).next_number(kind),
            final(self).next_number(kind) == (if r == u64::MAX { r as int } else { r + 1 }),
            forall|k: BuildingKind|
                k != kind ==> #[trigger] final(self).next_number(k) == old(self).next_number(k),
    {
        let i = kind.index();
        let number = self.next_numbers[i];
        self.next_numbers[i] = number.saturating_add(1);
        proof {
            assert forall|k: BuildingKind| k != kind implies #[trigger] self.next_number(k)
                == old(self).next_number(k) by {
                assert(k.ordinal() != kind.ordinal());
            }
        }
        number
    }
}

impl Default for BuildingNameRegistry {
    fn default() -> (r: Self)
        ensures
            forall|k: BuildingKind| #[trigger] r.next_number(k) == 1,
    {
        let r = Self { next_numbers: [1, 1, 1, 1, 1, 1, 1, 1, 1, 1, 1, 1, 1] };
        assert forall|k: BuildingKind| #[trigger] r.next_number(k) == 1 by {
            assert(0 <= k.ordinal() < 13);
        }
        r
    }
}

#[derive(Debug, Clone, Copy, PartialEq, Eq, Structural)]
pub enum BuildingPlacementError {
    OutOfBounds,
    OverlapsBuilding,
    InvalidTerrain,
    BlockedByResourceNode,
    FieldRequiresFarm,
    TreePlotRequiresLodge,
}


/// The default name of the `n`-th building of a kind: its label, `" #"`,
/// and the number in decimal.
pub open spec fn default_name_text(kind: BuildingKind, n: nat) -> Seq<char> {
    kind.label_text() + " #"@ + decimal(n)
}

/// Whether a name is in use by one of the named entities other than
/// `except`, comparing names trimmed and in lowercase.
pub open spec fn name_in_use(names: Seq<(EntityId, BuildingName)>, name: Seq<char>, except: Option<EntityId>) -> bool {
    exists|k: int| 0 <= k < names.len() && Some(#[trigger] names[k].0) != except
        && normalized(names[k].1.text()) == normalized(name)
}

/// Whether a name is in use by an entity other than `except` (see
/// `name_in_use`).
pub fn building_name_exists(names: &[(EntityId, BuildingName)], name: &str, except: Option<EntityId>) -> (r: bool)
    ensures
        r == name_in_use(names@, name@, except),
{
    let wanted = normalized_name(name);
    let mut k: usize = 0;
    while k < names.len()
        invariant
            0 <= k <= names@.len(),
            wanted@ == normalized(name@),
            forall|m: int| 0 <= m < k && Some(#[trigger] names@[m].0) != except ==> normalized(names@[m].1.text()) != normalized(name@),
        decreases names@.len() - k,
    {
        let skip = match except {
            Some(e) => names[k].0 == e,
            None => false,
        };
        if !skip {
            let other = normalized_name(names[k].1.as_str());
            if other == wanted {
                proof {
                    assert(Some(names@[k as int].0) != except);
                }
                return true;
            }
        }
        k = k + 1;
    }
    false
}

/// The default name of a new building of a kind: the registry hands out
/// numbers from the kind's next one upward, skipping those whose name is in
/// use, and keeps its count past the number taken (saturating). `None` only
/// when every number up to the largest is in use; the registry then stays
/// at the largest.
pub fn assign_default_building_name(
    registry: &mut BuildingNameRegistry,
    kind: BuildingKind,
    names: &[(EntityId, BuildingName)],
) -> (r: Option<BuildingName>)
    ensures
        forall|k: BuildingKind| k != kind ==> #[trigger] final(registry).next_number(k) == old(registry).next_number(k),
        match r {
            Some(name) => exists|m: int| {
                &&& old(registry).next_number(kind) <= m <= u64::MAX
                &&& name.text() == #[trigger] default_name_text(kind, m as nat)
                &&& !name_in_use(names@, default_name_text(kind, m as nat), None)
                &&& (forall|t: int| old(registry).next_number(kind) <= t < m ==> #[trigger] name_in_use(names@, default_name_text(kind, t as nat), None))
                &&& final(registry).next_number(kind) == (if m == u64::MAX { m } else { m + 1 })
            },
            None => {
                &&& forall|t: int| old(registry).next_number(kind) <= t <= u64::MAX ==> #[trigger] name_in_use(names@, default_name_text(kind, t as nat), None)
                &&& final(registry).next_number(kind) == u64::MAX
            },
        },
{
    let ghost start = registry.next_number(kind);
    loop
        invariant
            start == old(registry).next_number(kind),
            start <= registry.next_number(kind),
            forall|k: BuildingKind| k != kind ==> #[trigger] registry.next_number(k) == old(registry).next_number(k),
            forall|t: int| start <= t < registry.next_number(kind) ==> #[trigger] name_in_use(names@, default_name_text(kind, t as nat), None),
        decreases u64::MAX - registry.next_number(kind),
    {
        let number = registry.allocate(kind);
        let mut text = String::from_str(kind.label());
        text.append(" #");
        push_decimal(&mut text, number);
        proof {
            assert(text@ == default_name_text(kind, number as nat));
        }
        if !building_name_exists(names, text.as_str(), None) {
            let name = BuildingName::new(text.as_str());
            proof {
                let m = number as int;
                assert(name.text() == default_name_text(kind, m as nat));
                assert(start <= m <= u64::MAX);
                assert(forall|t: int| start <= t < m ==> #[trigger] name_in_use(names@, default_name_text(kind, t as nat), None));
            }
            return Some(name);
        }
        if number == u64::MAX {
            return None;
        }
    }
}

/// Terrain of a cell from a surface's row-major terrain listing (`None`
/// off the grid or where a cell has no tile).
pub open spec fn terrain_in_layout(size: GridSize, terrain: Seq<Option<TerrainKind>>, c: CellCoord) -> Option<TerrainKind> {
    if grid_contains(size, c) { terrain[c.y * size.width + c.x] } else { None }
}

/// Whether a footprint overlaps one of the existing footprints.
pub open spec fn overlaps_any(f: BuildingFootprint, existing: Seq<BuildingFootprint>) -> bool {
    exists|i: int| 0 <= i < existing.len() && footprints_overlap(f, #[trigger] existing[i])
}

/// Whether some cell of a footprint has no tile or terrain the kind cannot
/// stand on.
pub open spec fn terrain_blocks(kind: BuildingKind, f: BuildingFootprint, size: GridSize, terrain: Seq<Option<TerrainKind>>) -> bool {
    exists|j: int| 0 <= j < footprint_cells(f).len() && match terrain_in_layout(size, terrain, #[trigger] footprint_cells(f)[j]) {
        Some(t) => !spec_terrain_allows_building(kind, t),
        None => true,
    }
}

/// Whether a resource node lies under a footprint.
pub open spec fn nodes_block(f: BuildingFootprint, resource_cells: Seq<CellCoord>) -> bool {
    exists|i: int| 0 <= i < resource_cells.len() && footprint_contains(f, #[trigger] resource_cells[i])
}

/// The footprint a kind would take at an origin.
pub open spec fn footprint_at(kind: BuildingKind, origin: CellCoord) -> BuildingFootprint {
    BuildingFootprint { origin, width: kind.dimensions().0, height: kind.dimensions().1 }
}

/// The outcome of placing a kind's footprint at an origin: off the grid,
/// overlapping a building or blueprint, on terrain it cannot use, or over a
/// resource node (checked in that order), else the footprint.
pub open spec fn spec_footprint_placement(
    size: GridSize,
    kind: BuildingKind,
    origin: CellCoord,
    terrain: Seq<Option<TerrainKind>>,
    resource_cells: Seq<CellCoord>,
    existing: Seq<BuildingFootprint>,
) -> Result<BuildingFootprint, BuildingPlacementError> {
    let f = footprint_at(kind, origin);
    if !footprint_within(f, size) {
        Err(BuildingPlacementError::OutOfBounds)
    } else if overlaps_any(f, existing) {
        Err(BuildingPlacementError::OverlapsBuilding)
    } else if terrain_blocks(kind, f, size, terrain) {
        Err(BuildingPlacementError::InvalidTerrain)
    } else if nodes_block(f, resource_cells) {
        Err(BuildingPlacementError::BlockedByResourceNode)
    } else {
        Ok(f)
    }
}

/// Validates a kind's footprint at an origin on a surface described by its
/// row-major terrain listing, its resource node cells, and the footprints
/// of its buildings and blueprints (see `spec_footprint_placement`).
pub fn validate_building_footprint_placement(
    size: GridSize,
    kind: BuildingKind,
    origin: CellCoord,
    terrain: &[Option<TerrainKind>],
    resource_cells: &[CellCoord],
    existing: &[BuildingFootprint],
) -> (r: Result<BuildingFootprint, BuildingPlacementError>)
    requires
        terrain@.len() == size.width * size.height,
    ensures
        r == spec_footprint_placement(size, kind, origin, terrain@, resource_cells@, existing@),
{
    let (w, h) = kind.footprint_dimensions();
    let f = BuildingFootprint::new(origin, w, h);
    if !f.is_within(size) {
        return Err(BuildingPlacementError::OutOfBounds);
    }
    let mut i: usize = 0;
    while i < existing.len()
        invariant
            0 <= i <= existing@.len(),
            f == footprint_at(kind, origin),
            footprint_within(f, size),
            forall|k: int| 0 <= k < i ==> !footprints_overlap(f, #[trigger] existing@[k]),
        decreases existing@.len() - i,
    {
        if f.overlaps(existing[i]) {
            proof {
                assert(footprints_overlap(f, existing@[i as int]));
                assert(overlaps_any(f, existing@));
            }
            return Err(BuildingPlacementError::OverlapsBuilding);
        }
        i = i + 1;
    }
    let cells = f.iter_coords();
    let mut j: usize = 0;
    while j < cells.len()
        invariant
            0 <= j <= cells@.len(),
            cells@ == footprint_cells(f),
            f == footprint_at(kind, origin),
            footprint_within(f, size),
            !overlaps_any(f, existing@),
            terrain@.len() == size.width * size.height,
            forall|k: int| 0 <= k < j ==> match terrain_in_layout(size, terrain@, #[trigger] cells@[k]) {
                Some(t) => spec_terrain_allows_building(kind, t),
                None => false,
            },
        decreases cells@.len() - j,
    {
        let c = cells[j];
        let here = if size.contains(c) {
            let x = c.x as usize;
            let y = c.y as usize;
            let n = terrain.len();
            proof {
                assert(0 <= y * size.width <= y * size.width + x < size.width * size.height) by (nonlinear_arith)
                    requires
                        0 <= x < size.width,
                        0 <= y < size.height,
                ;
            }
            terrain[y * size.width + x]
        } else {
            None
        };
        let ok = match here {
            Some(t) => crate::collision::terrain_allows_building(kind, t),
            None => false,
        };
        if !ok {
            proof {
                assert(here == terrain_in_layout(size, terrain@, cells@[j as int]));
                assert(terrain_blocks(kind, f, size, terrain@));
            }
            return Err(BuildingPlacementError::InvalidTerrain);
        }
        proof {
            assert(here == terrain_in_layout(size, terrain@, cells@[j as int]));
        }
        j = j + 1;
    }
    proof {
        assert forall|jj: int| 0 <= jj < footprint_cells(f).len() implies match terrain_in_layout(size, terrain@, #[trigger] footprint_cells(f)[jj]) {
            Some(t) => spec_terrain_allows_building(kind, t),
            None => false,
        } by {
            assert(cells@[jj] == footprint_cells(f)[jj]);
        }
    }
    let mut k: usize = 0;
    while k < resource_cells.len()
        invariant
            0 <= k <= resource_cells@.len(),
            f == footprint_at(kind, origin),
            footprint_within(f, size),
            !overlaps_any(f, existing@),
            !terrain_blocks(kind, f, size, terrain@),
            forall|m: int| 0 <= m < k ==> !footprint_contains(f, #[trigger] resource_cells@[m]),
        decreases resource_cells@.len() - k,
    {
        if f.contains(resource_cells[k]) {
            proof {
                assert(footprint_contains(f, resource_cells@[k as int]));
                assert(nodes_block(f, resource_cells@));
            }
            return Err(BuildingPlacementError::BlockedByResourceNode);
        }
        k = k + 1;
    }
    Ok(f)
}

/// Validates placing a blueprint of a kind: fields and tree plots are only
/// placed by their farm or lodge; other kinds go by the footprint rules.
pub fn validate_building_blueprint_placement(
    size: GridSize,
    kind: BuildingKind,
    origin: CellCoord,
    terrain: &[Option<TerrainKind>],
    resource_cells: &[CellCoord],
    existing: &[BuildingFootprint],
) -> (r: Result<BuildingFootprint, BuildingPlacementError>)
    requires
        terrain@.len() == size.width * size.height,
    ensures
        r == match kind {
            BuildingKind::Field => Err(BuildingPlacementError::FieldRequiresFarm),
            BuildingKind::TreePlot => Err(BuildingPlacementError::TreePlotRequiresLodge),
            _ => spec_footprint_placement(size, kind, origin, terrain@, resource_cells@, existing@),
        },
{
    match kind {
        BuildingKind::Field => Err(BuildingPlacementError::FieldRequiresFarm),
        BuildingKind::TreePlot => Err(BuildingPlacementError::TreePlotRequiresLodge),
        _ => validate_building_footprint_placement(size, kind, origin, terrain, resource_cells, existing),
    }
}

/// What a completed blueprint becomes: the building, plus the components
/// its kind carries (storage, farm or lodge inventory, crop or tree growth,
/// refinery state, housing).
#[derive(Debug, Clone, Copy, PartialEq, Eq)]
pub struct CompletedBuilding {
    pub building: Building,
    pub storage: Option<StorageInventory>,
    pub farm_inventory: bool,
    pub field_crop: bool,
    pub lodge_inventory: bool,
    pub tree_growth: bool,
    pub refinery: bool,
    pub house: Option<crate::housing::House>,
}

/// Completes a blueprint whose cost is deposited, numbering a new house
/// with `next_house_order` (returned advanced, saturating, when a house
/// was made); `None` while the cost is not covered.
pub fn complete_blueprint(
    blueprint: BuildingBlueprint,
    progress: ConstructionProgress,
    cost: ResourceAmounts,
    next_house_order: u64,
) -> (r: Option<(CompletedBuilding, u64)>)
    ensures
        !deposits_cover(cost, progress.deposited) ==> r is None,
        deposits_cover(cost, progress.deposited) ==> (r matches Some((c, next)) && {
            &&& c.building == (Building { kind: blueprint.kind, footprint: blueprint.footprint })
            &&& (c.storage is Some <==> blueprint.kind.spec_is_storage())
            &&& c.storage matches Some(st) ==> {
                &&& st.store().spec_contents() == ResourceAmounts::zero_spec()
                &&& st.store().spec_max_size() == storage_capacity(blueprint.kind)
                &&& st.store().wf()
                &&& forall|k: ResourceKind| #[trigger] st.spec_filter().allows(k)
            }
            &&& c.farm_inventory == (blueprint.kind == BuildingKind::Farm)
            &&& c.field_crop == (blueprint.kind == BuildingKind::Field)
            &&& c.lodge_inventory == (blueprint.kind == BuildingKind::ForesterLodge)
            &&& c.tree_growth == (blueprint.kind == BuildingKind::TreePlot)
            &&& c.refinery == blueprint.kind.spec_is_refinery()
            &&& match blueprint.kind.spec_housing_capacity() {
                Some(cap) => (c.house matches Some(h) && h.capacity == cap && h.completion_order == next_house_order
                    && next == (if next_house_order == u64::MAX { u64::MAX as int } else { next_house_order + 1 })),
                None => c.house is None && next == next_house_order,
            }
        }),
{
    if !progress.is_complete(cost) {
        return None;
    }
    let kind = blueprint.kind;
    let storage = if kind.is_storage() { Some(StorageInventory::for_kind(kind)) } else { None };
    let (house, next) = match kind.housing_capacity() {
        Some(cap) => (Some(crate::housing::House::new(cap, next_house_order)), next_house_order.saturating_add(1)),
        None => (None, next_house_order),
    };
    Some((
        CompletedBuilding {
            building: Building::new(kind, blueprint.footprint),
            storage,
            farm_inventory: kind == BuildingKind::Farm,
            field_crop: kind == BuildingKind::Field,
            lodge_inventory: kind == BuildingKind::ForesterLodge,
            tree_growth: kind == BuildingKind::TreePlot,
            refinery: kind.is_refinery(),
            house,
        },
        next,
    ))
}

} // verus!
