use vstd::prelude::*;
use crate::components::{Terrain, TerrainKind, Tile, TilePosition};
use crate::entity::EntityId;
use crate::grid::{grid_contains, spec_iter_coords, CellCoord, GridSize};
use crate::sorting::{key_sorted, sort_by_key_order, KeyOrder};

verus! {

broadcast use vstd::seq_lib::group_to_multiset_ensures;

/// Share of a surface's cells that become water, in percent.
pub const WATER_PERCENT: usize = 8;

/// Share of a surface's cells that become sand, in percent.
pub const SAND_PERCENT: usize = 12;

/// Share of a surface's cells that become dirt, in percent.
pub const DIRT_PERCENT: usize = 20;

/// How a surface's terrain is generated: a seed, and whether the start
/// area around the center is kept as grass.
#[derive(Debug, Clone, Copy, PartialEq, Eq, Structural)]
pub struct SurfaceGeneration {
    pub seed: u64,
    pub protect_start_area: bool,
}

/// The 3x3 block of cells around the grid's center.
pub open spec fn spec_start_area_contains(size: GridSize, coord: CellCoord) -> bool {
    &&& size.width != 0 && size.height != 0
    &&& size.width / 2 <= i32::MAX && size.height / 2 <= i32::MAX
    &&& -1 <= coord.x - size.width / 2 <= 1
    &&& -1 <= coord.y - size.height / 2 <= 1
}

pub fn start_area_contains(size: GridSize, coord: CellCoord) -> (r: bool)
    ensures
        r == spec_start_area_contains(size, coord),
{
    if size.width() == 0 || size.height() == 0 {
        return false;
    }
    let center = match CellCoord::from_usize(size.width() / 2, size.height() / 2) {
        Some(c) => c,
        None => {
            return false;
        },
    };
    let dx = coord.x as i64 - center.x as i64;
    let dy = coord.y as i64 - center.y as i64;
    -1 <= dx && dx <= 1 && -1 <= dy && dy <= 1
}

impl SurfaceGeneration {
    pub fn new(seed: u64, protect_start_area: bool) -> (r: Self)
        ensures
            r.seed == seed,
            r.protect_start_area == protect_start_area,
    {
        Self { seed, protect_start_area }
    }

    pub fn seed(self) -> (r: u64)
        ensures
            r == self.seed,
    {
        self.seed
    }

    pub open spec fn spec_protects(self, size: GridSize, coord: CellCoord) -> bool {
        self.protect_start_area && spec_start_area_contains(size, coord)
    }

    /// Whether a cell keeps its grass: it lies in a protected start area.
    pub fn protects(self, size: GridSize, coord: CellCoord) -> (r: bool)
        ensures
            r == self.spec_protects(size, coord),
    {
        self.protect_start_area && start_area_contains(size, coord)
    }
}

/// The components of a tile entity.
#[derive(Debug, Clone, Copy, PartialEq, Eq, Structural)]
pub struct TileBundle {
    pub tile: Tile,
    pub position: TilePosition,
    pub terrain: Terrain,
}

impl TileBundle {
    /// A grass tile.
    pub fn new(coord: CellCoord) -> (r: Self)
        ensures
            r.position.coord == coord,
            r.terrain.kind == TerrainKind::Grass,
    {
        Self::new_with_terrain(coord, TerrainKind::Grass)
    }

    pub fn new_with_terrain(coord: CellCoord, terrain: TerrainKind) -> (r: Self)
        ensures
            r.position.coord == coord,
            r.terrain.kind == terrain,
    {
        Self { tile: Tile, position: TilePosition { coord }, terrain: Terrain::new(terrain) }
    }
}

/// Position of a cell in the row-major slot list of a grid.
pub open spec fn slot_of(size: GridSize, coord: CellCoord) -> int {
    coord.y * size.width + coord.x
}

/// The tile entity of each cell of a grid.
#[derive(Debug, Clone)]
pub struct TileIndex {
    size: GridSize,
    entities: Vec<Option<EntityId>>,
}

impl TileIndex {
    pub closed spec fn spec_size(&self) -> GridSize {
        self.size
    }

    pub closed spec fn slots(&self) -> Seq<Option<EntityId>> {
        self.entities@
    }

    /// One slot per cell.
    pub open spec fn wf(&self) -> bool {
        self.slots().len() == self.spec_size().width * self.spec_size().height
    }

    /// The tile entity recorded for a cell (`None` off the grid).
    pub open spec fn tile_at(&self, coord: CellCoord) -> Option<EntityId> {
        if grid_contains(self.spec_size(), coord) {
            self.slots()[slot_of(self.spec_size(), coord)]
        } else {
            None
        }
    }

    /// An empty index for a grid; its cell count must fit in memory.
    pub fn new(size: GridSize) -> (r: Self)
        requires
            size.width * size.height <= usize::MAX,
        ensures
            r.wf(),
            r.spec_size() == size,
            forall|c: CellCoord| #[trigger] r.tile_at(c) is None,
    {
        let n = size.cell_count().unwrap();
        let mut entities: Vec<Option<EntityId>> = Vec::new();
        let mut i: usize = 0;
        while i < n
            invariant
                0 <= i <= n,
                entities@.len() == i,
                forall|j: int| 0 <= j < i ==> #[trigger] entities@[j] is None,
            decreases n - i,
        {
            entities.push(None);
            i = i + 1;
        }
        let r = Self { size, entities };
        proof {
            assert forall|c: CellCoord| #[trigger] r.tile_at(c) is None by {
                if grid_contains(size, c) {
                    lemma_slot_in_range(size, c);
                }
            }
        }
        r
    }

    pub fn size(&self) -> (r: GridSize)
        ensures
            r == self.spec_size(),
    {
        self.size
    }

    fn index(&self, coord: CellCoord) -> (r: Option<usize>)
        requires
            self.wf(),
        ensures
            r is Some <==> grid_contains(self.spec_size(), coord),
            r matches Some(i) ==> i == slot_of(self.spec_size(), coord) && i < self.slots().len(),
    {
        if !self.size.contains(coord) {
            return None;
        }
        let x = coord.x as usize;
        let y = coord.y as usize;
        let n = self.entities.len();
        proof {
            lemma_slot_in_range(self.size, coord);
            assert(0 <= y * self.size.width <= y * self.size.width + x < n) by (nonlinear_arith)
                requires
                    y * self.size.width + x == slot_of(self.size, coord),
                    0 <= slot_of(self.size, coord) < n,
                    0 <= x,
                    0 <= y,
                    0 <= self.size.width,
            ;
        }
        Some(y * self.size.width + x)
    }

    /// The tile entity of a cell.
    pub fn get(&self, coord: CellCoord) -> (r: Option<EntityId>)
        requires
            self.wf(),
        ensures
            r == self.tile_at(coord),
    {
        match self.index(coord) {
            Some(i) => self.entities[i],
            None => None,
        }
    }

    /// Records a cell's tile entity; a cell off the grid is refused and
    /// nothing changes.
    pub fn set(&mut self, coord: CellCoord, entity: EntityId) -> (r: bool)
        requires
            old(self).wf(),
        ensures
            final(self).wf(),
            final(self).spec_size() == old(self).spec_size(),
            r == grid_contains(old(self).spec_size(), coord),
            forall|c: CellCoord| #[trigger] final(self).tile_at(c) == if r && c == coord {
                Some(entity)
            } else {
                old(self).tile_at(c)
            },
    {
        let i = match self.index(coord) {
            Some(i) => i,
            None => {
                return false;
            },
        };
        self.entities.set(i, Some(entity));
        proof {
            assert forall|c: CellCoord| #[trigger] self.tile_at(c) == if c == coord {
                Some(entity)
            } else {
                old(self).tile_at(c)
            } by {
                if grid_contains(self.spec_size(), c) {
                    lemma_slot_in_range(self.spec_size(), c);
                    if c != coord {
                        lemma_slots_distinct(self.spec_size(), c, coord);
                    }
                }
            }
        }
        true
    }

    /// Number of cells with a recorded tile.
    pub fn len(&self) -> (r: usize)
        ensures
            r == count_some(self.slots(), self.slots().len() as int),
    {
        let mut n: usize = 0;
        let mut i: usize = 0;
        while i < self.entities.len()
            invariant
                0 <= i <= self.entities@.len(),
                n == count_some(self.entities@, i as int),
                n <= i,
            decreases self.entities@.len() - i,
        {
            if self.entities[i].is_some() {
                n = n + 1;
            }
            i = i + 1;
        }
        n
    }

    /// Every recorded tile with its cell, in row-major order.
    pub fn iter(&self) -> (r: Vec<(CellCoord, EntityId)>)
        requires
            self.wf(),
        ensures
            r@ == recorded_tiles(self, spec_iter_coords(self.spec_size()), spec_iter_coords(self.spec_size()).len() as int),
    {
        let coords = self.size.iter_coords();
        let mut out: Vec<(CellCoord, EntityId)> = Vec::new();
        let mut i: usize = 0;
        while i < coords.len()
            invariant
                0 <= i <= coords@.len(),
                self.wf(),
                coords@ == spec_iter_coords(self.spec_size()),
                out@ == recorded_tiles(self, coords@, i as int),
            decreases coords@.len() - i,
        {
            let c = coords[i];
            match self.get(c) {
                Some(e) => {
                    out.push((c, e));
                },
                None => {},
            }
            i = i + 1;
        }
        out
    }
}

/// Number of occupied slots among the first `n`.
pub open spec fn count_some(slots: Seq<Option<EntityId>>, n: int) -> int
    decreases n,
{
    if n <= 0 {
        0
    } else {
        count_some(slots, n - 1) + if slots[n - 1] is Some { 1int } else { 0 }
    }
}

/// The recorded tiles of the first `n` listed cells, in listing order.
pub open spec fn recorded_tiles(index: &TileIndex, coords: Seq<CellCoord>, n: int) -> Seq<(CellCoord, EntityId)>
    decreases n,
{
    if n <= 0 {
        seq![]
    } else {
        recorded_tiles(index, coords, n - 1) + match index.tile_at(coords[n - 1]) {
            Some(e) => seq![(coords[n - 1], e)],
            None => seq![],
        }
    }
}

/// A cell of a grid has a slot among its `width * height` slots.
pub proof fn lemma_slot_in_range(size: GridSize, c: CellCoord)
    requires
        grid_contains(size, c),
    ensures
        0 <= slot_of(size, c) < size.width * size.height,
{
    let w = size.width as int;
    let h = size.height as int;
    let x = c.x as int;
    let y = c.y as int;
    assert(0 <= y * w + x < w * h) by (nonlinear_arith)
        requires
            0 <= x < w,
            0 <= y < h,
    ;
}

/// Distinct cells of a grid use distinct slots.
pub proof fn lemma_slots_distinct(size: GridSize, a: CellCoord, b: CellCoord)
    requires
        grid_contains(size, a),
        grid_contains(size, b),
        a != b,
    ensures
        slot_of(size, a) != slot_of(size, b),
{
    let w = size.width as int;
    if slot_of(size, a) == slot_of(size, b) {
        crate::grid::lemma_row_major_index(w, a.y as int, a.x as int);
        crate::grid::lemma_row_major_index(w, b.y as int, b.x as int);
    }
}


/// A 64-bit finalizer mixing every input bit into every output bit.
pub open spec fn spec_mix_hash(value: u64) -> u64 {
    let a = value ^ (value >> 30u64);
    let b = a.wrapping_mul(0xbf58_476d_1ce4_e5b9u64);
    let c = b ^ (b >> 27u64);
    let d = c.wrapping_mul(0x94d0_49bb_1331_11ebu64);
    d ^ (d >> 31u64)
}

pub fn mix_hash(value: u64) -> (r: u64)
    ensures
        r == spec_mix_hash(value),
{
    let a = value ^ (value >> 30u64);
    let b = a.wrapping_mul(0xbf58_476d_1ce4_e5b9u64);
    let c = b ^ (b >> 27u64);
    let d = c.wrapping_mul(0x94d0_49bb_1331_11ebu64);
    d ^ (d >> 31u64)
}

/// A 64-bit value rotated left by `n` bits (`0 < n < 64`).
pub open spec fn spec_rotate_left(v: u64, n: u64) -> u64 {
    (v << n) | (v >> ((64 - n) as u64))
}

/// Bits of a signed coordinate, sign-extended to 64 bits.
pub open spec fn coord_bits(c: i32) -> u64 {
    (c as i64) as u64
}

fn coord_bits_of(c: i32) -> (r: u64)
    ensures
        r == coord_bits(c),
{
    let w: i64 = c as i64;
    w as u64
}

/// Hash of a lattice point under a seed.
pub open spec fn spec_lattice_hash(seed: u64, x: i32, y: i32) -> u64 {
    let a = seed ^ 0x517c_c1b7_2722_0a95u64;
    let b = a ^ coord_bits(x).wrapping_mul(0x94d0_49bb_1331_11ebu64);
    let c = spec_rotate_left(b, 31);
    let d = c ^ coord_bits(y).wrapping_mul(0xd6e8_feb8_6659_fd93u64);
    spec_mix_hash(d)
}

pub fn lattice_hash(seed: u64, x: i32, y: i32) -> (r: u64)
    ensures
        r == spec_lattice_hash(seed, x, y),
{
    let a = seed ^ 0x517c_c1b7_2722_0a95u64;
    let b = a ^ coord_bits_of(x).wrapping_mul(0x94d0_49bb_1331_11ebu64);
    let c = (b << 31u64) | (b >> 33u64);
    let d = c ^ coord_bits_of(y).wrapping_mul(0xd6e8_feb8_6659_fd93u64);
    mix_hash(d)
}

/// Hash of a cell under a seed and a domain that keeps separate uses of
/// the same seed independent.
pub fn generation_hash(seed: u64, coord: CellCoord, domain: u64) -> (r: u64)
    ensures
        r == spec_lattice_hash(seed ^ domain, coord.x, coord.y),
{
    lattice_hash(seed ^ domain, coord.x, coord.y)
}


/// Noise channel of the elevation field.
pub const NOISE_CHANNEL_ELEVATION: u64 = 0x6a09_e667_f3bc_c909;

/// Noise channel of the soil field.
pub const NOISE_CHANNEL_SOIL: u64 = 0xbb67_ae85_84ca_a73b;

/// Fixed-point scale of interpolation weights.
pub const INTERPOLATION_SCALE: u64 = 65536;

/// Smoothstep of `num / den` in fixed point.
pub open spec fn spec_smooth_fraction(num: int, den: int) -> int {
    let f = num * 65536 / den;
    let sq = f * f / 65536;
    sq * (3 * 65536 - 2 * f) / 65536
}

fn smooth_fraction(num: i64, den: i64) -> (r: u64)
    requires
        0 <= num < den <= 32,
    ensures
        r == spec_smooth_weight(num as int, den as int),
        r <= 65536,
{
    let n: u64 = num as u64;
    let d: u64 = den as u64;
    proof {
        assert(n * 65536 <= 32 * 65536) by (nonlinear_arith)
            requires
                n <= 32,
        ;
    }
    let f = (n * 65536) / d;
    proof {
        assert(f < 65536) by (nonlinear_arith)
            requires
                f as int == (n as int * 65536) / (d as int),
                n < d,
                d > 0,
        ;
        assert(f * f <= 65536 * 65536) by (nonlinear_arith)
            requires
                f < 65536,
        ;
    }
    let sq = f * f / 65536;
    proof {
        assert(sq <= 65536) by (nonlinear_arith)
            requires
                sq as int == (f as int * f as int) / 65536,
                f < 65536,
        ;
        assert(sq * (3 * 65536 - 2 * f) <= 65536 * (3 * 65536)) by (nonlinear_arith)
            requires
                sq <= 65536,
                f < 65536,
        ;
    }
    let r = sq * (3 * 65536 - 2 * f) / 65536;
    if r > 65536 { 65536 } else { r }
}

/// Smoothstep of `num / den` in fixed point, never above one.
pub open spec fn spec_smooth_weight(num: int, den: int) -> int {
    let v = spec_smooth_fraction(num, den);
    if v > 65536 { 65536 } else { v }
}

/// Fixed-point interpolation between two values.
pub open spec fn spec_interpolate(start: int, end: int, fraction: int) -> int {
    (start * (65536 - fraction) + end * fraction) / 65536
}

fn interpolate(start: u64, end: u64, fraction: u64) -> (r: u64)
    requires
        start < 0x1_0000_0000,
        end < 0x1_0000_0000,
        fraction <= 65536,
    ensures
        r == spec_interpolate(start as int, end as int, fraction as int),
        r < 0x1_0000_0000,
{
    proof {
        assert(start * (65536 - fraction) <= 0x1_0000_0000 * 65536) by (nonlinear_arith)
            requires
                start < 0x1_0000_0000,
                fraction <= 65536,
        ;
        assert(end * fraction <= 0x1_0000_0000 * 65536) by (nonlinear_arith)
            requires
                end < 0x1_0000_0000,
                fraction <= 65536,
        ;
        assert((start * (65536 - fraction) + end * fraction) / 65536 < 0x1_0000_0000) by (nonlinear_arith)
            requires
                start < 0x1_0000_0000,
                end < 0x1_0000_0000,
                fraction <= 65536,
        ;
    }
    (start * (65536 - fraction) + end * fraction) / 65536
}


/// Floor division and remainder of a coordinate by a feature size.
fn floor_div_rem(x: i32, fs: i64) -> (r: (i64, i64))
    requires
        8 <= fs <= 32,
    ensures
        r.0 == (x as int) / (fs as int),
        r.1 == (x as int) % (fs as int),
        0 <= r.1 < fs,
        i32::MIN / 8 - 1 <= r.0 <= i32::MAX / 8,
{
    let xi: i64 = x as i64;
    let q: i64 = if xi >= 0 {
        let q = xi / fs;
        proof {
            assert(q * fs <= xi < q * fs + fs) by (nonlinear_arith)
                requires
                    xi >= 0,
                    fs > 0,
                    q as int == (xi as int) / (fs as int),
            ;
        }
        q
    } else {
        let v: i64 = -xi;
        let p = (v + fs - 1) / fs;
        proof {
            assert(v <= p * fs < v + fs) by (nonlinear_arith)
                requires
                    v > 0,
                    fs > 0,
                    p as int == (v as int + fs as int - 1) / (fs as int),
            ;
            assert((-p) * fs <= xi < (-p) * fs + fs) by (nonlinear_arith)
                requires
                    v <= p * fs < v + fs,
                    xi == -v,
            ;
        }
        -p
    };
    proof {
        assert(q * fs <= xi < q * fs + fs);
        assert(i32::MIN / 8 - 1 <= q <= i32::MAX / 8) by (nonlinear_arith)
            requires
                q * fs <= xi < q * fs + fs,
                8 <= fs <= 32,
                i32::MIN <= xi <= i32::MAX,
        ;
        vstd::arithmetic::div_mod::lemma_fundamental_div_mod_converse(xi as int, fs as int, q as int, xi - q * fs);
    }
    (q, xi - q * fs)
}

/// Smoothed value noise of a cell on a lattice of the given feature size.
#[verifier::opaque]
pub open spec fn spec_value_noise(seed: u64, c: CellCoord, fs: int) -> int {
    let lx = (c.x as int) / fs;
    let ly = (c.y as int) / fs;
    let xf = spec_smooth_weight((c.x as int) % fs, fs);
    let yf = spec_smooth_weight((c.y as int) % fs, fs);
    let nw = (spec_lattice_hash(seed, lx as i32, ly as i32) >> 32u64) as int;
    let ne = (spec_lattice_hash(seed, (lx + 1) as i32, ly as i32) >> 32u64) as int;
    let sw = (spec_lattice_hash(seed, lx as i32, (ly + 1) as i32) >> 32u64) as int;
    let se = (spec_lattice_hash(seed, (lx + 1) as i32, (ly + 1) as i32) >> 32u64) as int;
    let north = spec_interpolate(nw, ne, xf);
    let south = spec_interpolate(sw, se, xf);
    spec_interpolate(north, south, yf)
}

fn high_half(v: u64) -> (r: u64)
    ensures
        r == v >> 32u64,
        r < 0x1_0000_0000,
{
    let r = v >> 32u64;
    assert(r < 0x1_0000_0000) by (bit_vector)
        requires
            r == v >> 32u64,
    ;
    r
}

fn value_noise(seed: u64, c: CellCoord, fs: i64) -> (r: u64)
    requires
        8 <= fs <= 32,
    ensures
        r == spec_value_noise(seed, c, fs as int),
        r < 0x1_0000_0000,
{
    let (lx, rx) = floor_div_rem(c.x, fs);
    let (ly, ry) = floor_div_rem(c.y, fs);
    let xf = smooth_fraction(rx, fs);
    let yf = smooth_fraction(ry, fs);
    let x0 = lx as i32;
    let x1 = (lx + 1) as i32;
    let y0 = ly as i32;
    let y1 = (ly + 1) as i32;
    let nw = high_half(lattice_hash(seed, x0, y0));
    let ne = high_half(lattice_hash(seed, x1, y0));
    let sw = high_half(lattice_hash(seed, x0, y1));
    let se = high_half(lattice_hash(seed, x1, y1));
    let north = interpolate(nw, ne, xf);
    let south = interpolate(sw, se, xf);
    proof {
        reveal(spec_value_noise);
    }
    interpolate(north, south, yf)
}

/// Seed of one octave of a noise channel.
pub open spec fn octave_seed(seed: u64, channel: u64, octave: u64) -> u64 {
    seed ^ channel ^ octave.wrapping_mul(0x9e37_79b9_7f4a_7c15u64)
}

/// Three octaves of value noise (feature sizes 32, 16, 8 weighted 4, 2, 1).
#[verifier::opaque]
pub open spec fn spec_fractal_noise(seed: u64, c: CellCoord, channel: u64) -> int {
    spec_value_noise(octave_seed(seed, channel, 0), c, 32) * 4 + spec_value_noise(octave_seed(seed, channel, 1), c, 16) * 2
        + spec_value_noise(octave_seed(seed, channel, 2), c, 8)
}

pub fn fractal_noise(seed: u64, c: CellCoord, channel: u64) -> (r: u64)
    ensures
        r == spec_fractal_noise(seed, c, channel),
{
    let a = value_noise(seed ^ channel ^ 0u64.wrapping_mul(0x9e37_79b9_7f4a_7c15u64), c, 32);
    let b = value_noise(seed ^ channel ^ 1u64.wrapping_mul(0x9e37_79b9_7f4a_7c15u64), c, 16);
    let d = value_noise(seed ^ channel ^ 2u64.wrapping_mul(0x9e37_79b9_7f4a_7c15u64), c, 8);
    proof {
        reveal(spec_fractal_noise);
    }
    a * 4 + b * 2 + d
}

/// A cell ranked by a noise score, with its position in the cell listing.
#[derive(Debug, Clone, Copy, PartialEq, Eq, Structural)]
pub struct TerrainCandidate {
    pub score: u64,
    pub coord: CellCoord,
    pub index: usize,
}

impl KeyOrder for TerrainCandidate {
    /// Order by score, then row, then column.
    open spec fn key_le(self, other: Self) -> bool {
        self.score < other.score || (self.score == other.score && (self.coord.y < other.coord.y || (self.coord.y
            == other.coord.y && self.coord.x <= other.coord.x)))
    }

    proof fn lemma_key_le_reflexive(a: Self) {
    }

    proof fn lemma_key_le_transitive(a: Self, b: Self, c: Self) {
    }

    proof fn lemma_key_le_total(a: Self, b: Self) {
    }

    fn comes_no_later(&self, other: &Self) -> (r: bool) {
        self.score < other.score || (self.score == other.score && (self.coord.y < other.coord.y || (self.coord.y
            == other.coord.y && self.coord.x <= other.coord.x)))
    }
}


/// The cells of a grid ranked by elevation noise.
pub open spec fn elevation_candidates(size: GridSize, seed: u64) -> Seq<TerrainCandidate> {
    spec_iter_coords(size).map(
        |i: int, c: CellCoord|
            TerrainCandidate { score: spec_fractal_noise(seed, c, NOISE_CHANNEL_ELEVATION) as u64, coord: c, index: i as usize },
    )
}

/// The same cells re-ranked by soil noise.
pub open spec fn soil_candidates(rest: Seq<TerrainCandidate>, seed: u64) -> Seq<TerrainCandidate> {
    rest.map_values(
        |t: TerrainCandidate| TerrainCandidate { score: spec_fractal_noise(seed, t.coord, NOISE_CHANNEL_SOIL) as u64, ..t },
    )
}

/// Cells in a band of a percentage of `n` (the product saturating).
pub open spec fn band(n: int, percent: int) -> int {
    if n * percent > usize::MAX { usize::MAX as int / 100 } else { n * percent / 100 }
}

/// Whether the cell at listing position `i` sits at ranks `lo..hi` of a
/// ranking.
pub open spec fn ranked_in(s: Seq<TerrainCandidate>, lo: int, hi: int, i: int) -> bool {
    exists|k: int| lo <= k < hi && k < s.len() && (#[trigger] s[k]).index == i
}

/// The terrain of the cell at listing position `i`: the lowest-ranked
/// elevation band is water, the next sand; of the rest the lowest-ranked
/// soil band is dirt; everything else is grass.
pub open spec fn ranked_terrain(se: Seq<TerrainCandidate>, ss: Seq<TerrainCandidate>, w: int, sa: int, d: int, i: int) -> TerrainKind {
    if ranked_in(ss, 0, d, i) {
        TerrainKind::Dirt
    } else if ranked_in(se, w, w + sa, i) {
        TerrainKind::Sand
    } else if ranked_in(se, 0, w, i) {
        TerrainKind::Water
    } else {
        TerrainKind::Grass
    }
}

/// The ranks past the water and sand bands.
pub open spec fn past_bands(se: Seq<TerrainCandidate>, skip: int) -> Seq<TerrainCandidate> {
    if skip < se.len() { se.subrange(skip, se.len() as int) } else { seq![] }
}

fn mark_ranks(
    terrain: &mut Vec<TerrainKind>,
    ranked: &Vec<TerrainCandidate>,
    lo: usize,
    hi: usize,
    kind: TerrainKind,
)
    requires
        forall|k: int| 0 <= k < ranked@.len() ==> (#[trigger] ranked@[k]).index < old(terrain)@.len(),
    ensures
        final(terrain)@.len() == old(terrain)@.len(),
        forall|i: int| 0 <= i < final(terrain)@.len() ==> #[trigger] final(terrain)@[i] == if ranked_in(ranked@, lo as int, hi as int, i) {
            kind
        } else {
            old(terrain)@[i]
        },
{
    let end = if hi < ranked.len() { hi } else { ranked.len() };
    let mut k: usize = lo;
    while k < end
        invariant
            lo <= k,
            k <= end || k == lo,
            end <= ranked@.len(),
            end == if hi < ranked@.len() { hi as int } else { ranked@.len() as int },
            terrain@.len() == old(terrain)@.len(),
            forall|m: int| 0 <= m < ranked@.len() ==> (#[trigger] ranked@[m]).index < old(terrain)@.len(),
            forall|i: int| 0 <= i < terrain@.len() ==> #[trigger] terrain@[i] == if ranked_in(ranked@, lo as int, k as int, i) {
                kind
            } else {
                old(terrain)@[i]
            },
        decreases end - k,
    {
        let idx = ranked[k].index;
        terrain.set(idx, kind);
        proof {
            assert forall|i: int| 0 <= i < terrain@.len() implies #[trigger] terrain@[i] == if ranked_in(ranked@, lo as int, k + 1, i) {
                kind
            } else {
                old(terrain)@[i]
            } by {
                if i == idx {
                    assert(ranked@[k as int].index == i);
                    assert(ranked_in(ranked@, lo as int, k + 1, i));
                } else {
                    if ranked_in(ranked@, lo as int, k + 1, i) {
                        let m = choose|m: int| lo <= m < k + 1 && m < ranked@.len() && (#[trigger] ranked@[m]).index == i;
                        assert(m != k);
                        assert(ranked_in(ranked@, lo as int, k as int, i));
                    }
                    if ranked_in(ranked@, lo as int, k as int, i) {
                        let m = choose|m: int| lo <= m < k && m < ranked@.len() && (#[trigger] ranked@[m]).index == i;
                        assert(ranked_in(ranked@, lo as int, k + 1, i));
                    }
                }
            }
        }
        k = k + 1;
    }
    proof {
        assert forall|i: int| 0 <= i < terrain@.len() implies ranked_in(ranked@, lo as int, k as int, i) == ranked_in(
            ranked@,
            lo as int,
            hi as int,
            i,
        ) by {
            if ranked_in(ranked@, lo as int, hi as int, i) {
                let m = choose|m: int| lo <= m < hi && m < ranked@.len() && (#[trigger] ranked@[m]).index == i;
                assert(ranked_in(ranked@, lo as int, k as int, i));
            }
            if ranked_in(ranked@, lo as int, k as int, i) {
                let m = choose|m: int| lo <= m < k && m < ranked@.len() && (#[trigger] ranked@[m]).index == i;
                assert(ranked_in(ranked@, lo as int, hi as int, i));
            }
        }
    }
}

fn build_elevation(coords: &Vec<CellCoord>, size: GridSize, seed: u64) -> (r: Vec<TerrainCandidate>)
    requires
        coords@ == spec_iter_coords(size),
    ensures
        r@ == elevation_candidates(size, seed),
        forall|m: int| 0 <= m < r@.len() ==> (#[trigger] r@[m]).index < coords@.len(),
{
    let n = coords.len();
    let mut elevation: Vec<TerrainCandidate> = Vec::new();
    let mut i: usize = 0;
    while i < n
        invariant
            0 <= i <= n,
            n == coords@.len(),
            coords@ == spec_iter_coords(size),
            elevation@ == elevation_candidates(size, seed).subrange(0, i as int),
        decreases n - i,
    {
        let c = coords[i];
        elevation.push(TerrainCandidate { score: fractal_noise(seed, c, NOISE_CHANNEL_ELEVATION), coord: c, index: i });
        proof {
            assert(elevation@ =~= elevation_candidates(size, seed).subrange(0, i as int + 1));
        }
        i = i + 1;
    }
    proof {
        assert(elevation@ =~= elevation_candidates(size, seed));
    }
    elevation
}

fn build_soil(se: &Vec<TerrainCandidate>, skip: usize, seed: u64, n: usize) -> (r: Vec<TerrainCandidate>)
    requires
        forall|m: int| 0 <= m < se@.len() ==> (#[trigger] se@[m]).index < n,
    ensures
        r@ == soil_candidates(past_bands(se@, skip as int), seed),
        forall|m: int| 0 <= m < r@.len() ==> (#[trigger] r@[m]).index < n,
{
    let mut soil: Vec<TerrainCandidate> = Vec::new();
    if skip >= se.len() {
        proof {
            assert(soil@ =~= soil_candidates(past_bands(se@, skip as int), seed));
        }
        return soil;
    }
    let mut k: usize = skip;
    while k < se.len()
        invariant
            skip <= k <= se@.len(),
            soil@ == soil_candidates(se@.subrange(skip as int, k as int), seed),
            forall|m: int| 0 <= m < se@.len() ==> (#[trigger] se@[m]).index < n,
        decreases se@.len() - k,
    {
        let e = se[k];
        soil.push(TerrainCandidate { score: fractal_noise(seed, e.coord, NOISE_CHANNEL_SOIL), ..e });
        proof {
            assert(soil@ =~= soil_candidates(se@.subrange(skip as int, k as int + 1), seed));
        }
        k = k + 1;
    }
    proof {
        assert(soil@ =~= soil_candidates(past_bands(se@, skip as int), seed));
        assert forall|m: int| 0 <= m < soil@.len() implies (#[trigger] soil@[m]).index < n by {
            assert(soil@[m].index == se@[skip + m].index);
        }
    }
    soil
}

fn grass_terrain(n: usize) -> (r: Vec<TerrainKind>)
    ensures
        r@.len() == n,
        forall|m: int| 0 <= m < n ==> #[trigger] r@[m] == TerrainKind::Grass,
{
    let mut terrain: Vec<TerrainKind> = Vec::new();
    let mut t: usize = 0;
    while t < n
        invariant
            0 <= t <= n,
            terrain@.len() == t,
            forall|m: int| 0 <= m < t ==> #[trigger] terrain@[m] == TerrainKind::Grass,
        decreases n - t,
    {
        terrain.push(TerrainKind::Grass);
        t = t + 1;
    }
    terrain
}

/// Every element of a permutation of a sequence comes from it.
proof fn lemma_ranked_indices_bounded(sorted: Seq<TerrainCandidate>, orig: Seq<TerrainCandidate>, n: int)
    requires
        sorted.to_multiset() == orig.to_multiset(),
        forall|m: int| 0 <= m < orig.len() ==> (#[trigger] orig[m]).index < n,
    ensures
        forall|k: int| 0 <= k < sorted.len() ==> (#[trigger] sorted[k]).index < n,
{
    assert forall|k: int| 0 <= k < sorted.len() implies (#[trigger] sorted[k]).index < n by {
        assert(sorted.contains(sorted[k]));
        assert(sorted.to_multiset().count(sorted[k]) > 0);
        assert(orig.to_multiset().count(sorted[k]) > 0);
        assert(orig.contains(sorted[k]));
        let j = choose|j: int| 0 <= j < orig.len() && orig[j] == sorted[k];
    }
}

/// A surface's terrain, cell by cell in row-major order (see
/// `ranked_terrain`): eight percent water, twelve sand and twenty dirt by
/// noise rank, the rest grass; a protected start area stays grass.
#[verifier::rlimit(40)]
pub fn generate_terrain(size: GridSize, generation: SurfaceGeneration) -> (r: Vec<(CellCoord, TerrainKind)>)
    ensures
        ({
            let coords = spec_iter_coords(size);
            let n = coords.len() as int;
            let w = band(n, WATER_PERCENT as int);
            let sa = band(n, SAND_PERCENT as int);
            let d = band(n, DIRT_PERCENT as int);
            exists|se: Seq<TerrainCandidate>, ss: Seq<TerrainCandidate>|
                #![trigger key_sorted(se), key_sorted(ss)]
                {
                    &&& key_sorted(se)
                    &&& se.to_multiset() == elevation_candidates(size, generation.seed).to_multiset()
                    &&& key_sorted(ss)
                    &&& ss.to_multiset() == soil_candidates(past_bands(se, w + sa), generation.seed).to_multiset()
                    &&& r@.len() == n
                    &&& forall|i: int| 0 <= i < n ==> #[trigger] r@[i] == (coords[i], if generation.spec_protects(size, coords[i]) {
                        TerrainKind::Grass
                    } else {
                        ranked_terrain(se, ss, w, sa, d, i)
                    })
                }
        }),
{
    let coords = size.iter_coords();
    let n = coords.len();
    let elevation = build_elevation(&coords, size, generation.seed);
    let se = sort_by_key_order(&elevation);
    proof {
        lemma_ranked_indices_bounded(se@, elevation@, n as int);
    }
    let water = if n > usize::MAX / WATER_PERCENT { usize::MAX / 100 } else { n * WATER_PERCENT / 100 };
    let sand = if n > usize::MAX / SAND_PERCENT { usize::MAX / 100 } else { n * SAND_PERCENT / 100 };
    let dirt = if n > usize::MAX / DIRT_PERCENT { usize::MAX / 100 } else { n * DIRT_PERCENT / 100 };
    let mut terrain = grass_terrain(n);
    mark_ranks(&mut terrain, &se, 0, water, TerrainKind::Water);
    let sand_end = if water <= usize::MAX - sand { water + sand } else { usize::MAX };
    mark_ranks(&mut terrain, &se, water, sand_end, TerrainKind::Sand);
    let soil = build_soil(&se, sand_end, generation.seed, n);
    let ss = sort_by_key_order(&soil);
    proof {
        lemma_ranked_indices_bounded(ss@, soil@, n as int);
    }
    mark_ranks(&mut terrain, &ss, 0, dirt, TerrainKind::Dirt);
    let mut out: Vec<(CellCoord, TerrainKind)> = Vec::new();
    let mut i: usize = 0;
    while i < n
        invariant
            0 <= i <= n,
            n == coords@.len(),
            coords@ == spec_iter_coords(size),
            terrain@.len() == n,
            out@.len() == i,
            forall|m: int| 0 <= m < i ==> #[trigger] out@[m] == (coords@[m], if generation.spec_protects(size, coords@[m]) {
                TerrainKind::Grass
            } else {
                terrain@[m]
            }),
        decreases n - i,
    {
        let c = coords[i];
        let kind = if generation.protects(size, c) { TerrainKind::Grass } else { terrain[i] };
        out.push((c, kind));
        i = i + 1;
    }
    proof {
        let w = water as int;
        let sa = sand as int;
        let d = dirt as int;
        assert(water as int == band(n as int, WATER_PERCENT as int));
        assert(sand as int == band(n as int, SAND_PERCENT as int));
        assert(dirt as int == band(n as int, DIRT_PERCENT as int));
        assert(w + sa <= usize::MAX) by (nonlinear_arith)
            requires
                w == band(n as int, 8),
                sa == band(n as int, 12),
                n <= usize::MAX,
        ;
        assert(sand_end as int == w + sa);
        assert forall|m: int| 0 <= m < n implies terrain@[m] == ranked_terrain(se@, ss@, w, sa, d, m) by {
        }
        assert(key_sorted(se@) && key_sorted(ss@));
    }
    out
}

} // verus!
