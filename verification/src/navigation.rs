use vstd::prelude::*;
use vstd::set_lib::*;
use crate::buildings::{BuildingFootprint, footprint_cells, footprint_contains};
use crate::collision::{Structure, collision_flags_for, covered_by_walk_blocker};
use crate::components::TerrainKind;
use crate::grid::{CellCoord, GridSize, grid_contains, lemma_row_major_index, row_major_le, row_major_lt};
use crate::sorting::{KeyOrder, key_sorted, sort_by_key_order};

verus! {

/// Position of a cell in the row-major listing of a grid: `y * width + x`.
#[verifier::opaque]
pub open spec fn cell_index(size: GridSize, c: CellCoord) -> int {
    c.y * size.width + c.x
}

/// An in-grid cell has a position inside the listing.
pub proof fn lemma_cell_index_bounds(size: GridSize, c: CellCoord)
    requires
        grid_contains(size, c),
    ensures
        0 <= cell_index(size, c) < size.width * size.height,
{
    reveal(cell_index);
    let w = size.width as int;
    let h = size.height as int;
    let x = c.x as int;
    let y = c.y as int;
    assert(0 <= y * w) by (nonlinear_arith)
        requires
            0 <= y,
            0 <= w,
    ;
    assert(y * w + x < (y + 1) * w) by (nonlinear_arith)
        requires
            x < w,
    ;
    assert((y + 1) * w <= h * w) by (nonlinear_arith)
        requires
            y + 1 <= h,
            0 <= w,
    ;
    assert(h * w == w * h) by (nonlinear_arith);
}

/// Distinct in-grid cells have distinct positions in the listing.
pub proof fn lemma_cell_index_injective(size: GridSize, a: CellCoord, b: CellCoord)
    requires
        grid_contains(size, a),
        grid_contains(size, b),
        cell_index(size, a) == cell_index(size, b),
    ensures
        a == b,
{
    reveal(cell_index);
    lemma_row_major_index(size.width as int, a.y as int, a.x as int);
    lemma_row_major_index(size.width as int, b.y as int, b.x as int);
}

fn index_of(size: GridSize, c: CellCoord) -> (r: usize)
    requires
        grid_contains(size, c),
        size.width * size.height <= usize::MAX,
    ensures
        r == cell_index(size, c),
        r < size.width * size.height,
{
    proof {
        lemma_cell_index_bounds(size, c);
        reveal(cell_index);
        assert(c.y * size.width <= c.y * size.width + c.x);
    }
    (c.y as usize) * size.width + (c.x as usize)
}

/// The neighbour of `p` in direction `dir` (north, west, east, south), when
/// its coordinates fit in `i32` and it lies in the grid.
pub open spec fn spec_neighbor(size: GridSize, p: CellCoord, dir: int) -> Option<CellCoord> {
    let c = if dir == 0 {
        if p.y > i32::MIN { Some(CellCoord { x: p.x, y: (p.y - 1) as i32 }) } else { None }
    } else if dir == 1 {
        if p.x > i32::MIN { Some(CellCoord { x: (p.x - 1) as i32, y: p.y }) } else { None }
    } else if dir == 2 {
        if p.x < i32::MAX { Some(CellCoord { x: (p.x + 1) as i32, y: p.y }) } else { None }
    } else {
        if p.y < i32::MAX { Some(CellCoord { x: p.x, y: (p.y + 1) as i32 }) } else { None }
    };
    match c {
        Some(n) => if grid_contains(size, n) { Some(n) } else { None },
        None => None,
    }
}

/// Whether `c` is an in-grid cardinal neighbour of `p`.
pub open spec fn is_step(size: GridSize, p: CellCoord, c: CellCoord) -> bool {
    spec_neighbor(size, p, 0) == Some(c) || spec_neighbor(size, p, 1) == Some(c)
        || spec_neighbor(size, p, 2) == Some(c) || spec_neighbor(size, p, 3) == Some(c)
}

fn neighbor(size: GridSize, p: CellCoord, dir: u8) -> (r: Option<CellCoord>)
    requires
        dir < 4,
    ensures
        r == spec_neighbor(size, p, dir as int),
{
    let c = if dir == 0 {
        if p.y > i32::MIN { Some(CellCoord { x: p.x, y: p.y - 1 }) } else { None }
    } else if dir == 1 {
        if p.x > i32::MIN { Some(CellCoord { x: p.x - 1, y: p.y }) } else { None }
    } else if dir == 2 {
        if p.x < i32::MAX { Some(CellCoord { x: p.x + 1, y: p.y }) } else { None }
    } else {
        if p.y < i32::MAX { Some(CellCoord { x: p.x, y: p.y + 1 }) } else { None }
    };
    match c {
        Some(n) => if size.contains(n) { Some(n) } else { None },
        None => None,
    }
}

/// Immutable view of the cells NPCs may currently enter: one flag per cell in
/// row-major order, with a change-detecting fingerprint.
#[derive(Debug, Clone)]
pub struct NavigationSnapshot {
    size: GridSize,
    walkable: Vec<bool>,
    fingerprint: u64,
}

/// Offset basis of 64-bit FNV-1a.
pub const FNV_OFFSET_BASIS: u64 = 0xcbf29ce484222325;

/// Prime of 64-bit FNV-1a.
pub const FNV_PRIME: u64 = 0x100000001b3;

/// 64-bit FNV-1a over a byte sequence.
pub open spec fn fnv1a(bytes: Seq<u8>) -> u64
    decreases bytes.len(),
{
    if bytes.len() == 0 {
        FNV_OFFSET_BASIS
    } else {
        vstd::wrapping::u64_specs::wrapping_mul(
            fnv1a(bytes.drop_last()) ^ (bytes.last() as u64),
            FNV_PRIME,
        )
    }
}

/// Little-endian bytes of a `usize`, as many as the platform's width.
pub open spec fn usize_le_bytes(v: usize) -> Seq<u8> {
    Seq::new((usize::BITS / 8) as nat, |i: int| ((v >> ((8 * i) as usize)) & 0xff) as u8)
}

/// The bytes fingerprinted for a walkability grid: width, height, then one
/// byte per cell.
pub open spec fn walkability_bytes(size: GridSize, walkable: Seq<bool>) -> Seq<u8> {
    usize_le_bytes(size.width) + usize_le_bytes(size.height) + walkable.map_values(
        |b: bool| if b { 1u8 } else { 0u8 },
    )
}

fn push_le_bytes(bytes: &mut Vec<u8>, v: usize)
    ensures
        final(bytes)@ == old(bytes)@ + usize_le_bytes(v),
{
    let n: u32 = usize::BITS / 8;
    let ghost start = bytes@;
    let mut i: u32 = 0;
    while i < n
        invariant
            n == usize::BITS / 8,
            0 <= i <= n,
            bytes@ == start + usize_le_bytes(v).subrange(0, i as int),
        decreases n - i,
    {
        let b = ((v >> ((8 * i) as usize)) & 0xff) as u8;
        bytes.push(b);
        i = i + 1;
        assert(bytes@ =~= start + usize_le_bytes(v).subrange(0, i as int));
    }
    assert(usize_le_bytes(v).subrange(0, n as int) =~= usize_le_bytes(v));
}

/// Stable FNV-1a fingerprint of a walkability grid; a change detector, not a
/// persisted identifier.
pub fn walkability_fingerprint(size: GridSize, walkable: &Vec<bool>) -> (r: u64)
    ensures
        r == fnv1a(walkability_bytes(size, walkable@)),
{
    let mut bytes: Vec<u8> = Vec::new();
    push_le_bytes(&mut bytes, size.width);
    push_le_bytes(&mut bytes, size.height);
    let ghost head = bytes@;
    let mut i: usize = 0;
    while i < walkable.len()
        invariant
            0 <= i <= walkable@.len(),
            bytes@ == head + walkable@.subrange(0, i as int).map_values(
                |b: bool| if b { 1u8 } else { 0u8 },
            ),
        decreases walkable@.len() - i,
    {
        bytes.push(if walkable[i] { 1u8 } else { 0u8 });
        i = i + 1;
        assert(bytes@ =~= head + walkable@.subrange(0, i as int).map_values(
            |b: bool| if b { 1u8 } else { 0u8 },
        ));
    }
    assert(walkable@.subrange(0, walkable@.len() as int) =~= walkable@);
    assert(bytes@ =~= walkability_bytes(size, walkable@));
    let mut hash: u64 = FNV_OFFSET_BASIS;
    let mut j: usize = 0;
    while j < bytes.len()
        invariant
            0 <= j <= bytes@.len(),
            hash == fnv1a(bytes@.subrange(0, j as int)),
        decreases bytes@.len() - j,
    {
        proof {
            let s = bytes@.subrange(0, j as int + 1);
            assert(s.drop_last() =~= bytes@.subrange(0, j as int));
            assert(s.last() == bytes@[j as int]);
        }
        hash = (hash ^ (bytes[j] as u64)).wrapping_mul(FNV_PRIME);
        j = j + 1;
    }
    assert(bytes@.subrange(0, bytes@.len() as int) =~= bytes@);
    hash
}

impl NavigationSnapshot {
    /// The grid the snapshot covers.
    pub closed spec fn spec_size(&self) -> GridSize {
        self.size
    }

    /// One walkability flag per cell, in row-major order.
    pub closed spec fn spec_walkable(&self) -> Seq<bool> {
        self.walkable@
    }

    pub closed spec fn spec_fingerprint(&self) -> u64 {
        self.fingerprint
    }

    /// The flags cover exactly the cells of the grid.
    pub open spec fn wf(&self) -> bool {
        &&& self.spec_walkable().len() == self.spec_size().width * self.spec_size().height
        &&& self.spec_size().width * self.spec_size().height <= usize::MAX
    }

    /// Whether an NPC may enter `c`: it lies in the grid and is flagged walkable.
    pub open spec fn walkable_at(&self, c: CellCoord) -> bool {
        grid_contains(self.spec_size(), c) && self.spec_walkable()[cell_index(self.spec_size(), c)]
    }

    /// Builds a snapshot from one flag per cell in row-major order; `None`
    /// when the flags do not cover the grid exactly.
    pub fn from_walkable(size: GridSize, walkable: Vec<bool>) -> (r: Option<Self>)
        ensures
            r is Some <==> walkable@.len() == size.width * size.height,
            r matches Some(s) ==> s.wf() && s.spec_size() == size && s.spec_walkable() == walkable@
                && s.spec_fingerprint() == fnv1a(walkability_bytes(size, walkable@)),
    {
        let len = walkable.len();
        match size.width.checked_mul(size.height) {
            Some(n) => {
                if len != n {
                    return None;
                }
            },
            None => {
                return None;
            },
        }
        let fingerprint = walkability_fingerprint(size, &walkable);
        Some(Self { size, walkable, fingerprint })
    }

    pub fn size(&self) -> (r: GridSize)
        ensures
            r == self.spec_size(),
    {
        self.size
    }

    pub fn fingerprint(&self) -> (r: u64)
        ensures
            r == self.spec_fingerprint(),
    {
        self.fingerprint
    }

    /// Whether `coord` lies in the grid and is walkable.
    pub fn is_walkable(&self, coord: CellCoord) -> (r: bool)
        requires
            self.wf(),
        ensures
            r == self.walkable_at(coord),
    {
        if !self.size.contains(coord) {
            return false;
        }
        let i = index_of(self.size, coord);
        self.walkable[i]
    }
}

/// The cell from which a step in direction `dir` leads to `c`.
pub open spec fn pred_cell(c: CellCoord, dir: int) -> Option<CellCoord> {
    if dir == 0 {
        if c.y < i32::MAX { Some(CellCoord { x: c.x, y: (c.y + 1) as i32 }) } else { None }
    } else if dir == 1 {
        if c.x < i32::MAX { Some(CellCoord { x: (c.x + 1) as i32, y: c.y }) } else { None }
    } else if dir == 2 {
        if c.x > i32::MIN { Some(CellCoord { x: (c.x - 1) as i32, y: c.y }) } else { None }
    } else {
        if c.y > i32::MIN { Some(CellCoord { x: c.x, y: (c.y - 1) as i32 }) } else { None }
    }
}

/// A step from `p` in direction `dir` lands on `c` exactly when `p` is the
/// cell before `c` in that direction and `c` lies in the grid.
pub proof fn lemma_step_pred(size: GridSize, p: CellCoord, c: CellCoord, dir: int)
    requires
        0 <= dir < 4,
    ensures
        spec_neighbor(size, p, dir) == Some(c) <==> (pred_cell(c, dir) == Some(p) && grid_contains(
            size,
            c,
        )),
{
}

/// Cells reachable from `start` in at most `k` cardinal steps, every cell
/// entered after `start` walkable. `start` itself needs not be walkable.
pub open spec fn reach(s: NavigationSnapshot, start: CellCoord, k: nat, c: CellCoord) -> bool
    decreases k,
{
    if k == 0 {
        c == start
    } else {
        let j = (k - 1) as nat;
        reach(s, start, j, c) || (s.walkable_at(c) && (
            (match pred_cell(c, 0) { Some(p) => reach(s, start, j, p), None => false })
            || (match pred_cell(c, 1) { Some(p) => reach(s, start, j, p), None => false })
            || (match pred_cell(c, 2) { Some(p) => reach(s, start, j, p), None => false })
            || (match pred_cell(c, 3) { Some(p) => reach(s, start, j, p), None => false })))
    }
}

/// A step from a cell reached in `j` steps onto a walkable cell reaches it in
/// `j + 1` steps.
pub proof fn lemma_reach_step(s: NavigationSnapshot, start: CellCoord, j: nat, p: CellCoord, c: CellCoord, dir: int)
    requires
        0 <= dir < 4,
        reach(s, start, j, p),
        spec_neighbor(s.spec_size(), p, dir) == Some(c),
        s.walkable_at(c),
    ensures
        reach(s, start, j + 1, c),
{
    lemma_step_pred(s.spec_size(), p, c, dir);
    assert(((j + 1) - 1) as nat == j);
}

/// A cell first reached in `j + 1` steps is walkable and is a step away from
/// a cell reached in `j` steps.
pub proof fn lemma_reach_parent(s: NavigationSnapshot, start: CellCoord, j: nat, c: CellCoord) -> (r: (CellCoord, int))
    requires
        reach(s, start, j + 1, c),
        !reach(s, start, j, c),
    ensures
        0 <= r.1 < 4,
        reach(s, start, j, r.0),
        spec_neighbor(s.spec_size(), r.0, r.1) == Some(c),
        s.walkable_at(c),
{
    assert(((j + 1) - 1) as nat == j);
    let dir: int = if (match pred_cell(c, 0) { Some(p) => reach(s, start, j, p), None => false }) {
        0
    } else if (match pred_cell(c, 1) { Some(p) => reach(s, start, j, p), None => false }) {
        1
    } else if (match pred_cell(c, 2) { Some(p) => reach(s, start, j, p), None => false }) {
        2
    } else {
        3
    };
    let p = pred_cell(c, dir).unwrap();
    lemma_step_pred(s.spec_size(), p, c, dir);
    (p, dir)
}

/// `d` is the least number of cardinal steps from `start` to `c`.
pub open spec fn nav_distance(s: NavigationSnapshot, start: CellCoord, c: CellCoord, d: nat) -> bool {
    reach(s, start, d, c) && (d == 0 || !reach(s, start, (d - 1) as nat, c))
}

/// No number of steps reaches `c` from `start`.
pub open spec fn unreachable(s: NavigationSnapshot, start: CellCoord, c: CellCoord) -> bool {
    forall|m: nat| !#[trigger] reach(s, start, m, c)
}

/// A cell reached in `a` steps is reached in any larger number of steps.
pub proof fn lemma_reach_monotone(s: NavigationSnapshot, start: CellCoord, a: nat, b: nat, c: CellCoord)
    requires
        a <= b,
        reach(s, start, a, c),
    ensures
        reach(s, start, b, c),
    decreases b - a,
{
    if a < b {
        lemma_reach_monotone(s, start, a, (b - 1) as nat, c);
    }
}

/// The least number of steps is unique.
pub proof fn lemma_nav_distance_unique(
    s: NavigationSnapshot,
    start: CellCoord,
    c: CellCoord,
    d1: nat,
    d2: nat,
)
    requires
        nav_distance(s, start, c, d1),
        nav_distance(s, start, c, d2),
    ensures
        d1 == d2,
{
    if d1 < d2 {
        lemma_reach_monotone(s, start, d1, (d2 - 1) as nat, c);
    } else if d2 < d1 {
        lemma_reach_monotone(s, start, d2, (d1 - 1) as nat, c);
    }
}

/// Once one more step reaches nothing new, no number of steps does.
pub proof fn lemma_reach_fixpoint(s: NavigationSnapshot, start: CellCoord, k: nat, m: nat, c: CellCoord)
    requires
        forall|x: CellCoord| #[trigger] reach(s, start, k + 1, x) ==> reach(s, start, k, x),
        reach(s, start, m, c),
    ensures
        reach(s, start, k, c),
    decreases m,
{
    if m <= k {
        lemma_reach_monotone(s, start, m, k, c);
    } else {
        let j = (m - 1) as nat;
        if reach(s, start, j, c) {
            lemma_reach_fixpoint(s, start, k, j, c);
        } else {
            let (p, dir) = lemma_reach_parent(s, start, j, c);
            lemma_reach_fixpoint(s, start, k, j, p);
            lemma_reach_step(s, start, k, p, c, dir);
        }
    }
}

/// Every cell reached from an in-grid start lies in the grid.
pub proof fn lemma_reach_in_grid(s: NavigationSnapshot, start: CellCoord, m: nat, c: CellCoord)
    requires
        grid_contains(s.spec_size(), start),
        reach(s, start, m, c),
    ensures
        grid_contains(s.spec_size(), c),
    decreases m,
{
    if m > 0 {
        let j = (m - 1) as nat;
        if reach(s, start, j, c) {
            lemma_reach_in_grid(s, start, j, c);
        }
    }
}

/// `p` is a valid breadth-first parent of `c`: an in-grid cell one step away,
/// one step closer to the start.
pub open spec fn parent_ok(size: GridSize, dist: Seq<u32>, p: CellCoord, c: CellCoord) -> bool {
    &&& grid_contains(size, p)
    &&& is_step(size, p, c)
    &&& dist[cell_index(size, p)] == dist[cell_index(size, c)] - 1
}

/// Indices of the cells a search has reached.
pub open spec fn visited_set(dist: Seq<u32>) -> Set<int> {
    Set::new(|i: int| 0 <= i < dist.len() && dist[i] != u32::MAX)
}

proof fn lemma_visited_bounded(dist: Seq<u32>)
    ensures
        visited_set(dist).finite(),
        visited_set(dist).len() <= dist.len(),
{
    lemma_int_range(0, dist.len() as int);
    lemma_len_subset(visited_set(dist), set_int_range(0, dist.len() as int));
}

/// The distances and parents of a breadth-first search after `k` layers:
/// cells with a distance are exactly those reached in `k` steps, each
/// distance is least, and each parent steps one closer to the start.
pub open spec fn dist_ok(
    s: NavigationSnapshot,
    start: CellCoord,
    k: nat,
    dist: Seq<u32>,
    prev: Seq<CellCoord>,
) -> bool {
    let size = s.spec_size();
    &&& dist.len() == size.width * size.height
    &&& prev.len() == size.width * size.height
    &&& forall|c: CellCoord|
        #![trigger dist[cell_index(size, c)]]
        #![trigger reach(s, start, k, c)]
        grid_contains(size, c) ==> (dist[cell_index(size, c)] != u32::MAX <==> reach(s, start, k, c))
    &&& forall|c: CellCoord|
        #![trigger dist[cell_index(size, c)]]
        grid_contains(size, c) && dist[cell_index(size, c)] != u32::MAX ==> dist[cell_index(size, c)] <= k
            && nav_distance(s, start, c, dist[cell_index(size, c)] as nat)
    &&& forall|c: CellCoord|
        #![trigger prev[cell_index(size, c)]]
        grid_contains(size, c) && dist[cell_index(size, c)] != u32::MAX && dist[cell_index(size, c)] > 0
            ==> parent_ok(size, dist, prev[cell_index(size, c)], c)
}

/// The state at the start of layer `k`: as `dist_ok`, with the frontier
/// holding exactly the cells at distance `k`.
pub open spec fn layer_start_ok(
    s: NavigationSnapshot,
    start: CellCoord,
    k: nat,
    dist: Seq<u32>,
    prev: Seq<CellCoord>,
    frontier: Seq<CellCoord>,
) -> bool {
    let size = s.spec_size();
    &&& dist_ok(s, start, k, dist, prev)
    &&& forall|t: int|
        0 <= t < frontier.len() ==> grid_contains(size, #[trigger] frontier[t]) && dist[cell_index(
            size,
            frontier[t],
        )] == k
    &&& forall|c: CellCoord|
        #![trigger dist[cell_index(size, c)]]
        grid_contains(size, c) && dist[cell_index(size, c)] == k ==> frontier.contains(c)
}

/// Progress within layer `k`: cells reached before the layer keep their
/// distance and parent; each newly reached cell has distance `k + 1`, a
/// valid parent, and stands in `next`.
pub open spec fn layer_progress_ok(
    s: NavigationSnapshot,
    start: CellCoord,
    k: nat,
    dist0: Seq<u32>,
    prev0: Seq<CellCoord>,
    dist: Seq<u32>,
    prev: Seq<CellCoord>,
    next: Seq<CellCoord>,
) -> bool {
    let size = s.spec_size();
    &&& dist.len() == dist0.len()
    &&& prev.len() == prev0.len()
    &&& forall|c: CellCoord|
        #![trigger dist[cell_index(size, c)]]
        #![trigger prev[cell_index(size, c)]]
        grid_contains(size, c) && reach(s, start, k, c) ==> dist[cell_index(size, c)] == dist0[cell_index(
            size,
            c,
        )] && prev[cell_index(size, c)] == prev0[cell_index(size, c)]
    &&& forall|c: CellCoord|
        #![trigger dist[cell_index(size, c)]]
        grid_contains(size, c) && !reach(s, start, k, c) && dist[cell_index(size, c)] != u32::MAX ==> {
            &&& dist[cell_index(size, c)] == k + 1
            &&& reach(s, start, k + 1, c)
            &&& parent_ok(size, dist, prev[cell_index(size, c)], c)
            &&& next.contains(c)
        }
    &&& forall|t: int|
        0 <= t < next.len() ==> grid_contains(size, #[trigger] next[t]) && dist[cell_index(size, next[t])]
            == k + 1 && !reach(s, start, k, next[t])
}

/// The neighbour of `q` in direction `dir`, when enterable, has a distance.
pub open spec fn settled_dir(s: NavigationSnapshot, dist: Seq<u32>, q: CellCoord, dir: int) -> bool {
    match spec_neighbor(s.spec_size(), q, dir) {
        Some(n) => s.walkable_at(n) ==> dist[cell_index(s.spec_size(), n)] != u32::MAX,
        None => true,
    }
}

/// Every enterable neighbour of `q` has a distance.
pub open spec fn settled(s: NavigationSnapshot, dist: Seq<u32>, q: CellCoord) -> bool {
    settled_dir(s, dist, q, 0) && settled_dir(s, dist, q, 1) && settled_dir(s, dist, q, 2)
        && settled_dir(s, dist, q, 3)
}

/// Once every frontier cell of layer `k` is settled, the search state is that
/// of layer `k + 1` with the newly reached cells as frontier.
proof fn lemma_layer_advance(
    s: NavigationSnapshot,
    start: CellCoord,
    k: nat,
    dist0: Seq<u32>,
    prev0: Seq<CellCoord>,
    frontier: Seq<CellCoord>,
    dist: Seq<u32>,
    prev: Seq<CellCoord>,
    next: Seq<CellCoord>,
)
    requires
        s.wf(),
        k + 1 < u32::MAX,
        grid_contains(s.spec_size(), start),
        layer_start_ok(s, start, k, dist0, prev0, frontier),
        layer_progress_ok(s, start, k, dist0, prev0, dist, prev, next),
        forall|t: int| 0 <= t < frontier.len() ==> settled(s, dist, #[trigger] frontier[t]),
    ensures
        layer_start_ok(s, start, k + 1, dist, prev, next),
{
    let size = s.spec_size();
    assert forall|c: CellCoord| grid_contains(size, c) implies (dist[cell_index(size, c)] != u32::MAX
        <==> reach(s, start, k + 1, c)) by {
        if reach(s, start, k, c) {
            lemma_reach_monotone(s, start, k, k + 1, c);
        } else if reach(s, start, k + 1, c) {
            let (p, dir) = lemma_reach_parent(s, start, k, c);
            lemma_reach_in_grid(s, start, k, p);
            let dp = dist0[cell_index(size, p)];
            assert(dp != u32::MAX);
            if dp < k {
                lemma_reach_monotone(s, start, dp as nat, (k - 1) as nat, p);
                lemma_reach_step(s, start, (k - 1) as nat, p, c, dir);
                assert(false);
            }
            assert(frontier.contains(p));
            let t = choose|t: int| 0 <= t < frontier.len() && frontier[t] == p;
            assert(settled(s, dist, frontier[t]));
            assert(settled_dir(s, dist, p, dir));
        }
    }
    assert forall|c: CellCoord| grid_contains(size, c) && dist[cell_index(size, c)] != u32::MAX implies dist[cell_index(size, c)]
        <= k + 1 && nav_distance(s, start, c, dist[cell_index(size, c)] as nat) by {
        if reach(s, start, k, c) {
        } else {
            assert(((k + 1) - 1) as nat == k);
        }
    }
    assert forall|c: CellCoord|
        grid_contains(size, c) && dist[cell_index(size, c)] != u32::MAX && dist[cell_index(size, c)] > 0
        implies parent_ok(size, dist, prev[cell_index(size, c)], c) by {
        if reach(s, start, k, c) {
            let p = prev0[cell_index(size, c)];
            assert(parent_ok(size, dist0, p, c));
            assert(dist0[cell_index(size, p)] != u32::MAX);
        }
    }
    assert forall|c: CellCoord| grid_contains(size, c) && dist[cell_index(size, c)] == k + 1 implies next.contains(c) by {
        if reach(s, start, k, c) {
            assert(dist[cell_index(size, c)] == dist0[cell_index(size, c)]);
            assert(dist0[cell_index(size, c)] != u32::MAX);
            assert(dist0[cell_index(size, c)] <= k);
        } else {
            assert(dist[cell_index(size, c)] != u32::MAX);
        }
    }
}

/// With an empty frontier, one more step reaches nothing new.
proof fn lemma_empty_frontier(
    s: NavigationSnapshot,
    start: CellCoord,
    k: nat,
    dist: Seq<u32>,
    prev: Seq<CellCoord>,
)
    requires
        grid_contains(s.spec_size(), start),
        layer_start_ok(s, start, k, dist, prev, seq![]),
    ensures
        forall|x: CellCoord| #[trigger] reach(s, start, k + 1, x) ==> reach(s, start, k, x),
{
    let size = s.spec_size();
    assert forall|x: CellCoord| #[trigger] reach(s, start, k + 1, x) implies reach(s, start, k, x) by {
        if !reach(s, start, k, x) {
            let (p, dir) = lemma_reach_parent(s, start, k, x);
            lemma_reach_in_grid(s, start, k, p);
            let dp = dist[cell_index(size, p)];
            if dp < k {
                lemma_reach_monotone(s, start, dp as nat, (k - 1) as nat, p);
                lemma_reach_step(s, start, (k - 1) as nat, p, x, dir);
            } else {
                assert(seq![].contains(p));
            }
        }
    }
}

/// Reaching a new cell `c` from frontier cell `p` keeps the layer's progress
/// state, settles `c` in the distances and grows the reached set by one.
proof fn lemma_visit(
    s: NavigationSnapshot,
    start: CellCoord,
    k: nat,
    dist0: Seq<u32>,
    prev0: Seq<CellCoord>,
    frontier: Seq<CellCoord>,
    dist: Seq<u32>,
    prev: Seq<CellCoord>,
    next: Seq<CellCoord>,
    p: CellCoord,
    dir: int,
    c: CellCoord,
)
    requires
        s.wf(),
        k + 1 < u32::MAX,
        0 <= dir < 4,
        grid_contains(s.spec_size(), start),
        layer_start_ok(s, start, k, dist0, prev0, frontier),
        layer_progress_ok(s, start, k, dist0, prev0, dist, prev, next),
        frontier.contains(p),
        spec_neighbor(s.spec_size(), p, dir) == Some(c),
        s.walkable_at(c),
        dist[cell_index(s.spec_size(), c)] == u32::MAX,
    ensures
        ({
            let ci = cell_index(s.spec_size(), c);
            let d2 = dist.update(ci, (k + 1) as u32);
            let p2 = prev.update(ci, p);
            &&& layer_progress_ok(s, start, k, dist0, prev0, d2, p2, next.push(c))
            &&& !reach(s, start, k, c)
            &&& forall|q: CellCoord| #[trigger] settled(s, dist, q) ==> settled(s, d2, q)
            &&& forall|q: CellCoord, e: int| #[trigger] settled_dir(s, dist, q, e) ==> settled_dir(s, d2, q, e)
            &&& settled_dir(s, d2, p, dir)
            &&& visited_set(d2) == visited_set(dist).insert(ci)
            &&& !visited_set(dist).contains(ci)
        }),
{
    let size = s.spec_size();
    let ci = cell_index(size, c);
    lemma_cell_index_bounds(size, c);
    let d2 = dist.update(ci, (k + 1) as u32);
    let p2 = prev.update(ci, p);
    let n2 = next.push(c);
    let t = choose|t: int| 0 <= t < frontier.len() && frontier[t] == p;
    assert(grid_contains(size, frontier[t]));
    let pi = cell_index(size, p);
    lemma_cell_index_bounds(size, p);
    assert(dist0[pi] == k);
    assert(nav_distance(s, start, p, k));
    lemma_reach_step(s, start, k, p, c, dir);
    if reach(s, start, k, c) {
        assert(dist[ci] == dist0[ci]);
    }
    assert(reach(s, start, k, p));
    assert(pi != ci);
    assert forall|x: CellCoord| grid_contains(size, x) && x != c implies cell_index(size, x) != ci by {
        if cell_index(size, x) == ci {
            lemma_cell_index_injective(size, x, c);
        }
    }
    assert forall|x: CellCoord|
        grid_contains(size, x) && !reach(s, start, k, x) && d2[cell_index(size, x)] != u32::MAX implies {
            &&& d2[cell_index(size, x)] == k + 1
            &&& reach(s, start, k + 1, x)
            &&& parent_ok(size, d2, p2[cell_index(size, x)], x)
            &&& n2.contains(x)
        } by {
        if x == c {
            assert(n2[next.len() as int] == c);
            assert(is_step(size, p, c));
            assert(dist[pi] == dist0[pi]);
            assert(d2[pi] == dist[pi]);
        } else {
            let xi = cell_index(size, x);
            lemma_cell_index_bounds(size, x);
            assert(xi != ci);
            assert(d2[xi] == dist[xi]);
            assert(p2[xi] == prev[xi]);
            assert(parent_ok(size, dist, prev[xi], x));
            let q = prev[xi];
            let qi = cell_index(size, q);
            lemma_cell_index_bounds(size, q);
            assert(dist[qi] == k);
            assert(reach(s, start, k, q)) by {
                if !reach(s, start, k, q) {
                    assert(dist[qi] == k + 1);
                }
            }
            assert(qi != ci);
            assert(d2[qi] == dist[qi]);
            assert(next.contains(x));
            let u = choose|u: int| 0 <= u < next.len() && next[u] == x;
            assert(n2[u] == x);
        }
    }
    assert forall|u: int| 0 <= u < n2.len() implies grid_contains(size, #[trigger] n2[u]) && d2[cell_index(size, n2[u])]
        == k + 1 && !reach(s, start, k, n2[u]) by {
        if u < next.len() {
            assert(n2[u] == next[u]);
            lemma_cell_index_bounds(size, next[u]);
            assert(cell_index(size, next[u]) != ci);
        } else {
            assert(n2[u] == c);
        }
    }
    assert forall|q: CellCoord, e: int| #[trigger] settled_dir(s, dist, q, e) implies settled_dir(s, d2, q, e) by {
        match spec_neighbor(size, q, e) {
            Some(n) => {
                if s.walkable_at(n) {
                    lemma_cell_index_bounds(size, n);
                    if cell_index(size, n) == ci {
                        assert(d2[ci] == k + 1);
                    } else {
                        assert(d2[cell_index(size, n)] == dist[cell_index(size, n)]);
                    }
                }
            },
            None => {},
        }
    }
    assert forall|q: CellCoord| #[trigger] settled(s, dist, q) implies settled(s, d2, q) by {
        assert(settled_dir(s, dist, q, 0) ==> settled_dir(s, d2, q, 0));
        assert(settled_dir(s, dist, q, 1) ==> settled_dir(s, d2, q, 1));
        assert(settled_dir(s, dist, q, 2) ==> settled_dir(s, d2, q, 2));
        assert(settled_dir(s, dist, q, 3) ==> settled_dir(s, d2, q, 3));
    }
    assert(visited_set(d2) =~= visited_set(dist).insert(ci));
    assert forall|x: CellCoord| grid_contains(size, x) && reach(s, start, k, x) implies d2[cell_index(size, x)]
        == dist0[cell_index(size, x)] && p2[cell_index(size, x)] == prev0[cell_index(size, x)] by {
        lemma_cell_index_bounds(size, x);
        assert(x != c);
        assert(d2[cell_index(size, x)] == dist[cell_index(size, x)]);
        assert(p2[cell_index(size, x)] == prev[cell_index(size, x)]);
    }
    assert(layer_progress_ok(s, start, k, dist0, prev0, d2, p2, n2));
    assert(settled_dir(s, d2, p, dir));
    assert(!visited_set(dist).contains(ci));
}

impl NavigationSnapshot {
    /// Breadth-first search from `start`, one layer of equal distance at a
    /// time: each layer is walked in the order its cells were reached, and
    /// each cell's neighbours are tried north, west, east, south. Stops after
    /// the first layer that reaches a cell flagged in `goal_mask`, or once a
    /// layer reaches nothing new. Returns the distances (`u32::MAX` where not
    /// reached), the parents, the number of layers and whether a goal was met.
    fn search(&self, start: CellCoord, goal_mask: &Vec<bool>) -> (r: (Vec<u32>, Vec<CellCoord>, u32, bool))
        requires
            self.wf(),
            grid_contains(self.spec_size(), start),
            self.spec_size().width * self.spec_size().height < u32::MAX,
            goal_mask@.len() == self.spec_size().width * self.spec_size().height,
        ensures
            dist_ok(*self, start, r.2 as nat, r.0@, r.1@),
            !r.3 ==> forall|m: nat, c: CellCoord| #[trigger] reach(*self, start, m, c) ==> reach(*self, start, r.2 as nat, c),
            !r.3 ==> forall|c: CellCoord| #[trigger] reach(*self, start, r.2 as nat, c) && grid_contains(self.spec_size(), c)
                ==> !goal_mask@[cell_index(self.spec_size(), c)],
            r.3 ==> exists|c: CellCoord| #[trigger] reach(*self, start, r.2 as nat, c) && grid_contains(self.spec_size(), c)
                && goal_mask@[cell_index(self.spec_size(), c)],
            r.3 && r.2 > 0 ==> forall|c: CellCoord| #[trigger] reach(*self, start, (r.2 - 1) as nat, c) && grid_contains(self.spec_size(), c)
                ==> !goal_mask@[cell_index(self.spec_size(), c)],
    {
        let ghost s = *self;
        let size = self.size;
        let n: usize = size.width * size.height;
        let mut dist: Vec<u32> = Vec::new();
        let mut prev: Vec<CellCoord> = Vec::new();
        let mut i: usize = 0;
        while i < n
            invariant
                i <= n,
                dist@.len() == i,
                prev@.len() == i,
                forall|t: int| 0 <= t < i ==> dist@[t] == u32::MAX,
            decreases n - i,
        {
            dist.push(u32::MAX);
            prev.push(start);
            i = i + 1;
        }
        let si = index_of(size, start);
        dist.set(si, 0);
        let mut frontier: Vec<CellCoord> = Vec::new();
        frontier.push(start);
        let mut k: u32 = 0;
        let mut found: bool = goal_mask[si];
        proof {
            assert forall|c: CellCoord| grid_contains(size, c) && c != start implies cell_index(size, c) != si by {
                if cell_index(size, c) == si {
                    lemma_cell_index_injective(size, c, start);
                }
            }
            assert forall|c: CellCoord| grid_contains(size, c) implies cell_index(size, c) < n by {
                lemma_cell_index_bounds(size, c);
            }
            assert(frontier@[0] == start);
            assert(visited_set(dist@) =~= set![si as int]);
            assert forall|c: CellCoord| grid_contains(size, c) implies (dist@[cell_index(size, c)] != u32::MAX
                <==> reach(s, start, 0, c)) && (dist@[cell_index(size, c)] != u32::MAX ==> dist@[cell_index(size, c)] == 0)
                && (dist@[cell_index(size, c)] == 0 ==> c == start) by {
                lemma_cell_index_bounds(size, c);
                if c != start {
                    assert(cell_index(size, c) != si);
                    assert(dist@[cell_index(size, c)] == u32::MAX);
                }
            }
            assert forall|c: CellCoord| grid_contains(size, c) && dist@[cell_index(size, c)] == 0 implies frontier@.contains(c) by {
                assert(c == start);
                assert(frontier@[0] == c);
            }
            assert(dist_ok(s, start, 0, dist@, prev@));
            assert(layer_start_ok(s, start, 0, dist@, prev@, frontier@));
        }
        while frontier.len() > 0 && !found
            invariant
                s == *self,
                size == s.spec_size(),
                s.wf(),
                grid_contains(size, start),
                n == size.width * size.height,
                n < u32::MAX,
                goal_mask@.len() == n,
                layer_start_ok(s, start, k as nat, dist@, prev@, frontier@),
                !found ==> forall|c: CellCoord| #[trigger] reach(s, start, k as nat, c) && grid_contains(size, c)
                    ==> !goal_mask@[cell_index(size, c)],
                found ==> exists|c: CellCoord| #[trigger] reach(s, start, k as nat, c) && grid_contains(size, c)
                    && goal_mask@[cell_index(size, c)],
                found && k > 0 ==> forall|c: CellCoord| #[trigger] reach(s, start, (k - 1) as nat, c) && grid_contains(size, c)
                    ==> !goal_mask@[cell_index(size, c)],
                visited_set(dist@).finite(),
                visited_set(dist@).len() <= n,
                frontier@.len() > 0 ==> k + 1 <= visited_set(dist@).len(),
                k <= visited_set(dist@).len(),
                frontier@.len() == 0 && !found ==> forall|x: CellCoord| #[trigger] reach(s, start, k as nat + 1, x) ==> reach(s, start, k as nat, x),
            decreases n - visited_set(dist@).len(), frontier@.len(),
        {
            let ghost dist0 = dist@;
            let ghost prev0 = prev@;
            let ghost visited0 = visited_set(dist0).len();
            let mut next: Vec<CellCoord> = Vec::new();
            let mut j: usize = 0;
            while j < frontier.len()
                invariant
                    s == *self,
                    size == s.spec_size(),
                    s.wf(),
                    grid_contains(size, start),
                    n == size.width * size.height,
                    n < u32::MAX,
                    goal_mask@.len() == n,
                    k + 1 <= visited0,
                    visited0 <= n,
                    visited0 == visited_set(dist0).len(),
                    visited_set(dist0).finite(),
                    layer_start_ok(s, start, k as nat, dist0, prev0, frontier@),
                    layer_progress_ok(s, start, k as nat, dist0, prev0, dist@, prev@, next@),
                    0 <= j <= frontier@.len(),
                    forall|t: int| 0 <= t < j ==> settled(s, dist@, #[trigger] frontier@[t]),
                    visited_set(dist@).finite(),
                    visited_set(dist@).len() == visited0 + next@.len(),
                    forall|c: CellCoord| #[trigger] reach(s, start, k as nat, c) && grid_contains(size, c)
                        ==> !goal_mask@[cell_index(size, c)],
                    found ==> exists|t: int| 0 <= t < next@.len() && goal_mask@[cell_index(size, #[trigger] next@[t])],
                    !found ==> forall|t: int| 0 <= t < next@.len() ==> !goal_mask@[cell_index(size, #[trigger] next@[t])],
                decreases frontier@.len() - j,
            {
                let p = frontier[j];
                let mut dir: u8 = 0;
                while dir < 4
                    invariant
                        s == *self,
                        size == s.spec_size(),
                        s.wf(),
                        grid_contains(size, start),
                        n == size.width * size.height,
                        n < u32::MAX,
                        goal_mask@.len() == n,
                        k + 1 <= visited0,
                        visited0 <= n,
                        visited0 == visited_set(dist0).len(),
                        visited_set(dist0).finite(),
                        layer_start_ok(s, start, k as nat, dist0, prev0, frontier@),
                        layer_progress_ok(s, start, k as nat, dist0, prev0, dist@, prev@, next@),
                        0 <= j < frontier@.len(),
                        p == frontier@[j as int],
                        forall|t: int| 0 <= t < j ==> settled(s, dist@, #[trigger] frontier@[t]),
                        0 <= dir <= 4,
                        forall|e: int| 0 <= e < dir ==> #[trigger] settled_dir(s, dist@, p, e),
                        visited_set(dist@).finite(),
                        visited_set(dist@).len() == visited0 + next@.len(),
                        forall|c: CellCoord| #[trigger] reach(s, start, k as nat, c) && grid_contains(size, c)
                            ==> !goal_mask@[cell_index(size, c)],
                        found ==> exists|t: int| 0 <= t < next@.len() && goal_mask@[cell_index(size, #[trigger] next@[t])],
                        !found ==> forall|t: int| 0 <= t < next@.len() ==> !goal_mask@[cell_index(size, #[trigger] next@[t])],
                    decreases 4 - dir,
                {
                    let nb = neighbor(size, p, dir);
                    if let Some(c) = nb {
                        let ci = index_of(size, c);
                        if dist[ci] == u32::MAX && self.is_walkable(c) {
                            let ghost d1 = dist@;
                            let ghost p1 = prev@;
                            let ghost n1 = next@;
                            proof {
                                assert(frontier@.contains(p));
                                lemma_visit(s, start, k as nat, dist0, prev0, frontier@, d1, p1, n1, p, dir as int, c);
                                lemma_visited_bounded(dist@.update(ci as int, (k + 1) as u32));
                            }
                            dist.set(ci, k + 1);
                            prev.set(ci, p);
                            next.push(c);
                            if goal_mask[ci] {
                                found = true;
                            }
                            proof {
                                assert(next@[n1.len() as int] == c);
                                assert forall|t: int| 0 <= t < j implies settled(s, dist@, #[trigger] frontier@[t]) by {
                                    assert(settled(s, d1, frontier@[t]));
                                }
                                assert forall|e: int| 0 <= e < dir implies #[trigger] settled_dir(s, dist@, p, e) by {
                                    assert(settled_dir(s, d1, p, e));
                                }
                                if found {
                                    if goal_mask@[ci as int] {
                                        assert(goal_mask@[cell_index(size, next@[n1.len() as int])]);
                                    } else {
                                        let t = choose|t: int| 0 <= t < n1.len() && goal_mask@[cell_index(size, #[trigger] n1[t])];
                                        assert(next@[t] == n1[t]);
                                    }
                                } else {
                                    assert forall|t: int| 0 <= t < next@.len() implies !goal_mask@[cell_index(size, #[trigger] next@[t])] by {
                                        if t < n1.len() {
                                            assert(next@[t] == n1[t]);
                                        }
                                    }
                                }
                            }
                        } else {
                            proof {
                                lemma_cell_index_bounds(size, c);
                            }
                        }
                    }
                    dir = dir + 1;
                }
                proof {
                    assert(settled_dir(s, dist@, p, 0));
                    assert(settled_dir(s, dist@, p, 1));
                    assert(settled_dir(s, dist@, p, 2));
                    assert(settled_dir(s, dist@, p, 3));
                }
                j = j + 1;
            }
            proof {
                lemma_layer_advance(s, start, k as nat, dist0, prev0, frontier@, dist@, prev@, next@);
                let k1 = (k + 1) as nat;
                if !found {
                    assert forall|c: CellCoord| #[trigger] reach(s, start, k1, c) && grid_contains(size, c)
                        implies !goal_mask@[cell_index(size, c)] by {
                        if !reach(s, start, k as nat, c) {
                            assert(next@.contains(c));
                            let t = choose|t: int| 0 <= t < next@.len() && next@[t] == c;
                            assert(!goal_mask@[cell_index(size, next@[t])]);
                        }
                    }
                } else {
                    let t = choose|t: int| 0 <= t < next@.len() && goal_mask@[cell_index(size, #[trigger] next@[t])];
                    let c = next@[t];
                    assert(reach(s, start, k1, c));
                }
                if next@.len() == 0 && !found {
                    lemma_empty_frontier(s, start, k1, dist@, prev@);
                }
                lemma_visited_bounded(dist@);
            }
            frontier = next;
            k = k + 1;
        }
        proof {
            if !found {
                assert forall|m: nat, c: CellCoord| #[trigger] reach(s, start, m, c) implies reach(s, start, k as nat, c) by {
                    lemma_reach_fixpoint(s, start, k as nat, m, c);
                }
            }
        }
        (dist, prev, k, found)
    }
}

/// A cell reached from `start` is `start` itself or walkable.
pub proof fn lemma_reach_enterable(s: NavigationSnapshot, start: CellCoord, m: nat, c: CellCoord)
    requires
        reach(s, start, m, c),
    ensures
        c == start || s.walkable_at(c),
    decreases m,
{
    if m > 0 {
        let j = (m - 1) as nat;
        if reach(s, start, j, c) {
            lemma_reach_enterable(s, start, j, c);
        }
    }
}

/// Reusable cardinal distances from one origin over one snapshot.
pub struct NavigationDistances {
    size: GridSize,
    distances: Vec<u32>,
}

impl NavigationDistances {
    pub closed spec fn spec_size(&self) -> GridSize {
        self.size
    }

    /// The number of steps to `c`, or `None` where it is not reached.
    pub closed spec fn distance_at(&self, c: CellCoord) -> Option<nat> {
        if grid_contains(self.size, c) && self.distances@[cell_index(self.size, c)] != u32::MAX {
            Some(self.distances@[cell_index(self.size, c)] as nat)
        } else {
            None
        }
    }

    pub closed spec fn wf(&self) -> bool {
        &&& self.distances@.len() == self.size.width * self.size.height
        &&& self.size.width * self.size.height < u32::MAX
    }

    /// The number of steps to `coord`, `None` where it is not reached.
    pub fn distance_to(&self, coord: CellCoord) -> (r: Option<u32>)
        requires
            self.wf(),
        ensures
            r matches Some(d) ==> self.distance_at(coord) == Some(d as nat),
            r is None ==> self.distance_at(coord) is None,
    {
        if !self.size.contains(coord) {
            return None;
        }
        let i = index_of(self.size, coord);
        let d = self.distances[i];
        if d == u32::MAX {
            None
        } else {
            Some(d)
        }
    }

    /// Whether `coord` is reached.
    pub fn is_reachable(&self, coord: CellCoord) -> (r: bool)
        requires
            self.wf(),
        ensures
            r == self.distance_at(coord) is Some,
    {
        self.distance_to(coord).is_some()
    }

    /// The reached goal ordered first by distance, then by row and column.
    pub fn closest_reachable(&self, goals: &[CellCoord]) -> (r: Option<(CellCoord, usize)>)
        requires
            self.wf(),
        ensures
            r is None <==> forall|i: int| 0 <= i < goals@.len() ==> self.distance_at(#[trigger] goals@[i]) is None,
            r matches Some((g, d)) ==> {
                &&& goals@.contains(g)
                &&& self.distance_at(g) == Some(d as nat)
                &&& forall|i: int| 0 <= i < goals@.len() && #[trigger] self.distance_at(goals@[i]) is Some
                    ==> distance_key_le(d as nat, g, self.distance_at(goals@[i]).unwrap(), goals@[i])
            },
    {
        let mut best: Option<(CellCoord, u32)> = None;
        let mut i: usize = 0;
        while i < goals.len()
            invariant
                self.wf(),
                0 <= i <= goals@.len(),
                best is None <==> forall|t: int| 0 <= t < i ==> self.distance_at(#[trigger] goals@[t]) is None,
                best matches Some((g, d)) ==> {
                    &&& goals@.subrange(0, i as int).contains(g)
                    &&& self.distance_at(g) == Some(d as nat)
                    &&& forall|t: int| 0 <= t < i && #[trigger] self.distance_at(goals@[t]) is Some
                        ==> distance_key_le(d as nat, g, self.distance_at(goals@[t]).unwrap(), goals@[t])
                },
            decreases goals@.len() - i,
        {
            let goal = goals[i];
            if let Some(d) = self.distance_to(goal) {
                let better = match best {
                    None => true,
                    Some((bg, bd)) => d < bd || (d == bd && (goal.y < bg.y || (goal.y == bg.y && goal.x < bg.x))),
                };
                if better {
                    best = Some((goal, d));
                }
            }
            proof {
                assert(goals@.subrange(0, i as int + 1)[i as int] == goal);
                if let Some((g, _)) = best {
                    if goals@.subrange(0, i as int).contains(g) {
                        let t = choose|t: int| 0 <= t < i && goals@.subrange(0, i as int)[t] == g;
                        assert(goals@.subrange(0, i as int + 1)[t] == g);
                    }
                }
            }
            i = i + 1;
        }
        proof {
            assert(goals@.subrange(0, goals@.len() as int) =~= goals@);
        }
        match best {
            Some((g, d)) => Some((g, d as usize)),
            None => None,
        }
    }
}

/// Order on reached goals: by distance, then row, then column.
pub open spec fn distance_key_le(d1: nat, g1: CellCoord, d2: nat, g2: CellCoord) -> bool {
    d1 < d2 || (d1 == d2 && (g1.y < g2.y || (g1.y == g2.y && g1.x <= g2.x)))
}

/// The goal chosen among reached goals depends only on which cells are
/// goals, not on the order in which they are listed: two lists with the
/// same cells, each with a reached goal that no other listed reached goal
/// precedes by distance, then row, then column, have the same goal at the
/// same distance.
pub proof fn lemma_closest_goal_ignores_order(
    distances: NavigationDistances,
    a: Seq<CellCoord>,
    b: Seq<CellCoord>,
    ga: CellCoord,
    da: nat,
    gb: CellCoord,
    db: nat,
)
    requires
        forall|c: CellCoord| a.contains(c) <==> b.contains(c),
        a.contains(ga),
        distances.distance_at(ga) == Some(da),
        forall|i: int| 0 <= i < a.len() && #[trigger] distances.distance_at(a[i]) is Some
            ==> distance_key_le(da, ga, distances.distance_at(a[i]).unwrap(), a[i]),
        b.contains(gb),
        distances.distance_at(gb) == Some(db),
        forall|i: int| 0 <= i < b.len() && #[trigger] distances.distance_at(b[i]) is Some
            ==> distance_key_le(db, gb, distances.distance_at(b[i]).unwrap(), b[i]),
    ensures
        ga == gb,
        da == db,
{
    assert(b.contains(ga));
    assert(a.contains(gb));
    let i = choose|i: int| 0 <= i < a.len() && a[i] == gb;
    let j = choose|j: int| 0 <= j < b.len() && b[j] == ga;
    assert(distances.distance_at(a[i]) is Some);
    assert(distances.distance_at(b[j]) is Some);
    assert(distance_key_le(da, ga, db, gb));
    assert(distance_key_le(db, gb, da, ga));
}

/// A cardinal path of `d` steps from `start` to `target`: consecutive cells
/// are neighbours and every cell after the first is walkable.
pub open spec fn path_ok(s: NavigationSnapshot, start: CellCoord, target: CellCoord, d: nat, cells: Seq<CellCoord>) -> bool {
    &&& cells.len() == d + 1
    &&& cells[0] == start
    &&& cells[d as int] == target
    &&& forall|i: int|
        0 <= i < d ==> is_step(s.spec_size(), #[trigger] cells[i], cells[i + 1]) && s.walkable_at(cells[i + 1])
}

/// A shortest route to the chosen goal.
pub struct NavigationPath {
    target: CellCoord,
    distance: usize,
    cells: Vec<CellCoord>,
}

impl NavigationPath {
    pub closed spec fn spec_target(&self) -> CellCoord {
        self.target
    }

    pub closed spec fn spec_distance(&self) -> nat {
        self.distance as nat
    }

    pub closed spec fn spec_cells(&self) -> Seq<CellCoord> {
        self.cells@
    }

    pub fn target(&self) -> (r: CellCoord)
        ensures
            r == self.spec_target(),
    {
        self.target
    }

    pub fn distance(&self) -> (r: usize)
        ensures
            r == self.spec_distance(),
    {
        self.distance
    }

    pub fn cells(&self) -> (r: &[CellCoord])
        ensures
            r@ == self.spec_cells(),
    {
        self.cells.as_slice()
    }

    pub fn into_cells(self) -> (r: Vec<CellCoord>)
        ensures
            r@ == self.spec_cells(),
    {
        self.cells
    }
}

/// Whether a goal may end a route: the start itself, or a walkable cell.
pub open spec fn goal_eligible(s: NavigationSnapshot, start: CellCoord, g: CellCoord) -> bool {
    g == start || s.walkable_at(g)
}

impl NavigationSnapshot {
    /// Cardinal distances from `start` to every cell, for reuse across many
    /// target sets. A blocked starting cell remains a valid origin. `None`
    /// when `start` is outside the grid or the grid has `u32::MAX` cells or
    /// more.
    pub fn distances_from(&self, start: CellCoord) -> (r: Option<NavigationDistances>)
        requires
            self.wf(),
        ensures
            r is Some <==> grid_contains(self.spec_size(), start) && self.spec_size().width
                * self.spec_size().height < u32::MAX,
            r matches Some(d) ==> {
                &&& d.wf()
                &&& d.spec_size() == self.spec_size()
                &&& forall|c: CellCoord| #![trigger d.distance_at(c)]
                    match d.distance_at(c) {
                        Some(k) => nav_distance(*self, start, c, k),
                        None => unreachable(*self, start, c),
                    }
            },
    {
        if !self.size.contains(start) {
            return None;
        }
        let n = self.size.width * self.size.height;
        if n >= u32::MAX as usize {
            return None;
        }
        let mut mask: Vec<bool> = Vec::new();
        let mut i: usize = 0;
        while i < n
            invariant
                i <= n,
                mask@.len() == i,
                forall|t: int| 0 <= t < i ==> !mask@[t],
            decreases n - i,
        {
            mask.push(false);
            i = i + 1;
        }
        let (dist, _prev, k, found) = self.search(start, &mask);
        let r = NavigationDistances { size: self.size, distances: dist };
        proof {
            if found {
                let c = choose|c: CellCoord| #[trigger] reach(*self, start, k as nat, c) && grid_contains(self.spec_size(), c)
                    && mask@[cell_index(self.spec_size(), c)];
                lemma_cell_index_bounds(self.size, c);
            }
            assert forall|c: CellCoord| #![trigger r.distance_at(c)]
                match r.distance_at(c) {
                    Some(d) => nav_distance(*self, start, c, d),
                    None => unreachable(*self, start, c),
                } by {
                if r.distance_at(c) is None {
                    assert forall|m: nat| !#[trigger] reach(*self, start, m, c) by {
                        if reach(*self, start, m, c) {
                            lemma_reach_in_grid(*self, start, m, c);
                            assert(reach(*self, start, k as nat, c));
                        }
                    }
                }
            }
        }
        Some(r)
    }
}

impl NavigationSnapshot {
    /// Marks the goals a route may end on: in the grid, and the start itself
    /// or walkable.
    fn goal_mask(&self, start: CellCoord, goals: &[CellCoord]) -> (r: Vec<bool>)
        requires
            self.wf(),
            grid_contains(self.spec_size(), start),
        ensures
            r@.len() == self.spec_size().width * self.spec_size().height,
            forall|c: CellCoord| #![trigger r@[cell_index(self.spec_size(), c)]]
                grid_contains(self.spec_size(), c) ==> (r@[cell_index(self.spec_size(), c)] <==> (
                goals@.contains(c) && goal_eligible(*self, start, c))),
    {
        let size = self.size;
        let n = size.width * size.height;
        let mut mask: Vec<bool> = Vec::new();
        let mut i: usize = 0;
        while i < n
            invariant
                i <= n,
                mask@.len() == i,
                forall|t: int| 0 <= t < i ==> !mask@[t],
            decreases n - i,
        {
            mask.push(false);
            i = i + 1;
        }
        proof {
            assert forall|c: CellCoord| #![trigger mask@[cell_index(size, c)]]
                grid_contains(size, c) implies (mask@[cell_index(size, c)] <==> (
                goals@.subrange(0, 0).contains(c) && goal_eligible(*self, start, c))) by {
                lemma_cell_index_bounds(size, c);
            }
        }
        let mut j: usize = 0;
        while j < goals.len()
            invariant
                self.wf(),
                size == self.spec_size(),
                n == size.width * size.height,
                grid_contains(size, start),
                0 <= j <= goals@.len(),
                mask@.len() == n,
                forall|c: CellCoord| #![trigger mask@[cell_index(size, c)]]
                    grid_contains(size, c) ==> (mask@[cell_index(size, c)] <==> (
                    goals@.subrange(0, j as int).contains(c) && goal_eligible(*self, start, c))),
            decreases goals@.len() - j,
        {
            let g = goals[j];
            let ghost m0 = mask@;
            if size.contains(g) && (g == start || self.is_walkable(g)) {
                let gi = index_of(size, g);
                mask.set(gi, true);
            }
            proof {
                assert(goals@.subrange(0, j as int + 1)[j as int] == g);
                assert forall|c: CellCoord| #![trigger mask@[cell_index(size, c)]]
                    grid_contains(size, c) implies (mask@[cell_index(size, c)] <==> (
                    goals@.subrange(0, j as int + 1).contains(c) && goal_eligible(*self, start, c))) by {
                    lemma_cell_index_bounds(size, c);
                    if grid_contains(size, g) {
                        lemma_cell_index_bounds(size, g);
                        if c != g && cell_index(size, c) == cell_index(size, g) {
                            lemma_cell_index_injective(size, c, g);
                        }
                    }
                    if goals@.subrange(0, j as int).contains(c) {
                        let t = choose|t: int| 0 <= t < j && #[trigger] goals@.subrange(0, j as int)[t] == c;
                        assert(goals@.subrange(0, j as int + 1)[t] == c);
                    }
                    if goals@.subrange(0, j as int + 1).contains(c) && c != g {
                        let t = choose|t: int| 0 <= t < j + 1 && #[trigger] goals@.subrange(0, j as int + 1)[t] == c;
                        assert(goals@.subrange(0, j as int)[t] == c);
                    }
                }
            }
            j = j + 1;
        }
        proof {
            assert(goals@.subrange(0, goals@.len() as int) =~= goals@);
        }
        mask
    }

    /// The route to the reachable goal with the fewest cardinal steps, ties
    /// broken by lower row and then lower column, whatever the order of
    /// `goals`. Goals other than `start` must be walkable; the start may
    /// have become blocked underneath an NPC, but every cell entered after
    /// it is walkable. The path includes both `start` and the goal.
    pub fn shortest_path_to_any(&self, start: CellCoord, goals: &[CellCoord]) -> (r: Option<NavigationPath>)
        requires
            self.wf(),
        ensures
            r is Some <==> {
                &&& grid_contains(self.spec_size(), start)
                &&& self.spec_size().width * self.spec_size().height < u32::MAX
                &&& exists|i: int, m: nat|
                    0 <= i < goals@.len() && goal_eligible(*self, start, goals@[i]) && #[trigger] reach(
                        *self,
                        start,
                        m,
                        #[trigger] goals@[i],
                    )
            },
            r matches Some(path) ==> {
                &&& goals@.contains(path.spec_target())
                &&& goal_eligible(*self, start, path.spec_target())
                &&& nav_distance(*self, start, path.spec_target(), path.spec_distance())
                &&& forall|i: int, m: nat|
                    0 <= i < goals@.len() && goal_eligible(*self, start, goals@[i]) && #[trigger] nav_distance(
                        *self,
                        start,
                        #[trigger] goals@[i],
                        m,
                    ) ==> distance_key_le(path.spec_distance(), path.spec_target(), m, goals@[i])
                &&& path_ok(*self, start, path.spec_target(), path.spec_distance(), path.spec_cells())
            },
    {
        let size = self.size;
        if !size.contains(start) {
            return None;
        }
        let n = size.width * size.height;
        if n >= u32::MAX as usize {
            return None;
        }
        let mask = self.goal_mask(start, goals);
        let (dist, prev, k, found) = self.search(start, &mask);
        let ghost s = *self;
        if !found {
            proof {
                assert forall|i: int, m: nat|
                    0 <= i < goals@.len() && goal_eligible(s, start, goals@[i]) implies !#[trigger] reach(
                    s,
                    start,
                    m,
                    #[trigger] goals@[i],
                ) by {
                    if reach(s, start, m, goals@[i]) {
                        lemma_reach_in_grid(s, start, m, goals@[i]);
                        assert(reach(s, start, k as nat, goals@[i]));
                        assert(goals@.contains(goals@[i]));
                        assert(mask@[cell_index(size, goals@[i])]);
                    }
                }
            }
            return None;
        }
        let target = match self.pick_target(start, goals, &mask, &dist, &prev, k) {
            Some(t) => t,
            None => {
                proof {
                    let c = choose|c: CellCoord| #[trigger] reach(s, start, k as nat, c) && grid_contains(size, c)
                        && mask@[cell_index(size, c)];
                    let t = choose|t: int| 0 <= t < goals@.len() && goals@[t] == c;
                    assert(grid_contains(size, goals@[t]));
                    assert(false);
                }
                return None;
            },
        };
        let target_dist: u32 = dist[index_of(size, target)];
        let cells = self.trace_path(start, k, &dist, &prev, target);
        let path = NavigationPath { target, distance: target_dist as usize, cells };
        proof {
            let d = target_dist as nat;
            assert(nav_distance(s, start, target, d));
            let c = choose|c: CellCoord| #[trigger] reach(s, start, k as nat, c) && grid_contains(size, c)
                && mask@[cell_index(size, c)];
            assert(d == k) by {
                if d < k {
                    assert(reach(s, start, d, target));
                    lemma_reach_monotone(s, start, d, (k - 1) as nat, target);
                }
            }
            assert forall|i: int, m: nat|
                0 <= i < goals@.len() && goal_eligible(s, start, goals@[i]) && #[trigger] nav_distance(
                    s,
                    start,
                    #[trigger] goals@[i],
                    m,
                ) implies distance_key_le(d, target, m, goals@[i]) by {
                let g = goals@[i];
                lemma_reach_in_grid(s, start, m, g);
                assert(goals@.contains(g));
                assert(mask@[cell_index(size, g)]);
                if m < k {
                    lemma_reach_monotone(s, start, m, (k - 1) as nat, g);
                } else if m == k {
                    assert(dist@[cell_index(size, g)] != u32::MAX);
                }
            }
            let t = choose|t: int| 0 <= t < goals@.len() && goals@[t] == target;
            assert(reach(s, start, d, goals@[t]));
        }
        Some(path)
    }

    /// Among the goals flagged in `mask` that the search reached, the one
    /// with the least row and then column.
    fn pick_target(
        &self,
        start: CellCoord,
        goals: &[CellCoord],
        mask: &Vec<bool>,
        dist: &Vec<u32>,
        prev: &Vec<CellCoord>,
        k: u32,
    ) -> (r: Option<CellCoord>)
        requires
            self.wf(),
            grid_contains(self.spec_size(), start),
            dist_ok(*self, start, k as nat, dist@, prev@),
            mask@.len() == self.spec_size().width * self.spec_size().height,
        ensures
            r is None ==> forall|t: int| 0 <= t < goals@.len() && grid_contains(self.spec_size(), #[trigger] goals@[t])
                ==> !(mask@[cell_index(self.spec_size(), goals@[t])] && dist@[cell_index(self.spec_size(), goals@[t])] != u32::MAX),
            r matches Some(b) ==> {
                &&& goals@.contains(b)
                &&& grid_contains(self.spec_size(), b)
                &&& mask@[cell_index(self.spec_size(), b)]
                &&& dist@[cell_index(self.spec_size(), b)] != u32::MAX
                &&& forall|t: int| 0 <= t < goals@.len() && grid_contains(self.spec_size(), #[trigger] goals@[t])
                    && mask@[cell_index(self.spec_size(), goals@[t])] && dist@[cell_index(self.spec_size(), goals@[t])] != u32::MAX
                    ==> (b.y < goals@[t].y || (b.y == goals@[t].y && b.x <= goals@[t].x))
            },
    {
        let size = self.size;
        let mut best: Option<CellCoord> = None;
        let mut i: usize = 0;
        while i < goals.len()
            invariant
                size == self.spec_size(),
                self.wf(),
                dist@.len() == size.width * size.height,
                mask@.len() == size.width * size.height,
                0 <= i <= goals@.len(),
                best matches Some(b) ==> {
                    &&& goals@.contains(b)
                    &&& grid_contains(size, b)
                    &&& mask@[cell_index(size, b)]
                    &&& dist@[cell_index(size, b)] != u32::MAX
                },
                best is None ==> forall|t: int| 0 <= t < i && grid_contains(size, #[trigger] goals@[t])
                    ==> !(mask@[cell_index(size, goals@[t])] && dist@[cell_index(size, goals@[t])] != u32::MAX),
                best matches Some(b) ==> forall|t: int| 0 <= t < i && grid_contains(size, #[trigger] goals@[t])
                    && mask@[cell_index(size, goals@[t])] && dist@[cell_index(size, goals@[t])] != u32::MAX
                    ==> (b.y < goals@[t].y || (b.y == goals@[t].y && b.x <= goals@[t].x)),
            decreases goals@.len() - i,
        {
            let g = goals[i];
            if size.contains(g) {
                let gi = index_of(size, g);
                if mask[gi] && dist[gi] != u32::MAX {
                    let better = match best {
                        None => true,
                        Some(b) => g.y < b.y || (g.y == b.y && g.x < b.x),
                    };
                    if better {
                        best = Some(g);
                    }
                }
            }
            proof {
                assert(goals@.contains(g));
            }
            i = i + 1;
        }
        best
    }

    /// Follows the parents from `target` back to `start` and returns the
    /// cells in walking order.
    fn trace_path(
        &self,
        start: CellCoord,
        k: u32,
        dist: &Vec<u32>,
        prev: &Vec<CellCoord>,
        target: CellCoord,
    ) -> (r: Vec<CellCoord>)
        requires
            self.wf(),
            grid_contains(self.spec_size(), start),
            dist_ok(*self, start, k as nat, dist@, prev@),
            grid_contains(self.spec_size(), target),
            dist@[cell_index(self.spec_size(), target)] != u32::MAX,
        ensures
            path_ok(*self, start, target, dist@[cell_index(self.spec_size(), target)] as nat, r@),
    {
        let ghost s = *self;
        let size = self.size;
        let ghost td = dist@[cell_index(size, target)];
        let mut rev: Vec<CellCoord> = Vec::new();
        let mut cur = target;
        let mut remaining: u32 = dist[index_of(size, target)];
        while remaining > 0
            invariant
                s == *self,
                size == s.spec_size(),
                s.wf(),
                grid_contains(size, start),
                dist_ok(s, start, k as nat, dist@, prev@),
                grid_contains(size, cur),
                dist@[cell_index(size, cur)] == remaining,
                td != u32::MAX,
                remaining <= td,
                rev@.len() == td - remaining,
                (rev@ + seq![cur])[0] == target,
                forall|t: int| 0 <= t < rev@.len() ==> is_step(size, (rev@ + seq![cur])[t + 1], #[trigger] (rev@ + seq![cur])[t])
                    && s.walkable_at((rev@ + seq![cur])[t]),
            decreases remaining,
        {
            let ci = index_of(size, cur);
            let p = prev[ci];
            proof {
                assert(parent_ok(size, dist@, p, cur));
                assert(nav_distance(s, start, cur, remaining as nat));
                let (_q, _dir) = lemma_reach_parent(s, start, (remaining - 1) as nat, cur);
                let old_full = rev@ + seq![cur];
                let new_full = rev@.push(cur) + seq![p];
                assert forall|t: int| 0 <= t < rev@.len() + 1 implies is_step(size, new_full[t + 1], #[trigger] new_full[t])
                    && s.walkable_at(new_full[t]) by {
                    if t < rev@.len() {
                        assert(new_full[t] == old_full[t]);
                        assert(new_full[t + 1] == old_full[t + 1]);
                    } else {
                        assert(new_full[t] == cur);
                        assert(new_full[t + 1] == p);
                    }
                }
                assert(new_full[0] == old_full[0]);
            }
            rev.push(cur);
            cur = p;
            remaining = remaining - 1;
        }
        proof {
            assert(nav_distance(s, start, cur, 0));
        }
        let ghost pre = rev@;
        rev.push(cur);
        let ghost full = rev@;
        proof {
            assert(full =~= pre + seq![cur]);
        }
        let len = rev.len();
        let mut cells: Vec<CellCoord> = Vec::new();
        let mut j: usize = 0;
        while j < len
            invariant
                len == full.len(),
                rev@ == full,
                0 <= j <= len,
                cells@.len() == j,
                forall|t: int| 0 <= t < j ==> cells@[t] == full[len - 1 - t],
            decreases len - j,
        {
            cells.push(rev[len - 1 - j]);
            j = j + 1;
        }
        proof {
            let d = td as nat;
            assert(full.len() == d + 1);
            assert forall|t: int| 0 <= t < d implies is_step(size, #[trigger] cells@[t], cells@[t + 1]) && s.walkable_at(
                cells@[t + 1],
            ) by {
                let u = d - 1 - t;
                assert(cells@[t] == full[u + 1]);
                assert(cells@[t + 1] == full[u]);
            }
            assert(full[0] == target);
            assert(cells@[d as int] == full[0]);
            assert(cells@[0] == full[d as int]);
        }
        cells
    }

    /// The cells of a shortest route from `start` to `goal`, both included.
    pub fn shortest_path(&self, start: CellCoord, goal: CellCoord) -> (r: Option<Vec<CellCoord>>)
        requires
            self.wf(),
        ensures
            r is Some <==> grid_contains(self.spec_size(), start) && self.spec_size().width
                * self.spec_size().height < u32::MAX && goal_eligible(*self, start, goal)
                && exists|m: nat| #[trigger] reach(*self, start, m, goal),
            r matches Some(cells) ==> exists|d: nat| #[trigger] nav_distance(*self, start, goal, d) && path_ok(
                *self,
                start,
                goal,
                d,
                cells@,
            ),
    {
        let goals = [goal];
        let r = self.shortest_path_to_any(start, &goals);
        proof {
            assert(goals@ == seq![goal]);
            if r is Some {
                assert(goals@.contains(r.unwrap().spec_target()));
                assert(r.unwrap().spec_target() == goal);
            }
            if grid_contains(self.spec_size(), start) && self.spec_size().width * self.spec_size().height < u32::MAX
                && goal_eligible(*self, start, goal) && exists|m: nat| #[trigger] reach(*self, start, m, goal) {
                let m = choose|m: nat| #[trigger] reach(*self, start, m, goal);
                assert(goals@[0] == goal);
                assert(reach(*self, start, m, goals@[0]));
            }
        }
        match r {
            Some(path) => Some(path.into_cells()),
            None => None,
        }
    }
}

/// Cells are ordered row-major.
impl KeyOrder for CellCoord {
    open spec fn key_le(self, other: Self) -> bool {
        row_major_le(self, other)
    }

    proof fn lemma_key_le_reflexive(a: Self) {
    }

    proof fn lemma_key_le_transitive(a: Self, b: Self, c: Self) {
    }

    proof fn lemma_key_le_total(a: Self, b: Self) {
    }

    fn comes_no_later(&self, other: &Self) -> (r: bool) {
        self.y < other.y || (self.y == other.y && self.x <= other.x)
    }
}

/// Cells strictly increasing in row-major order, hence without repeats.
pub open spec fn strictly_row_major(cells: Seq<CellCoord>) -> bool {
    forall|i: int, j: int| 0 <= i < j < cells.len() ==> row_major_lt(#[trigger] cells[i], #[trigger] cells[j])
}

/// The same cells in row-major order, each once.
pub fn sort_and_deduplicate(cells: &Vec<CellCoord>) -> (r: Vec<CellCoord>)
    ensures
        strictly_row_major(r@),
        forall|c: CellCoord| r@.contains(c) <==> cells@.contains(c),
{
    let sorted = sort_by_key_order(cells);
    proof {
        sorted@.to_multiset_ensures();
        cells@.to_multiset_ensures();
    }
    let mut out: Vec<CellCoord> = Vec::new();
    let mut i: usize = 0;
    while i < sorted.len()
        invariant
            0 <= i <= sorted@.len(),
            key_sorted(sorted@),
            strictly_row_major(out@),
            forall|c: CellCoord| out@.contains(c) <==> sorted@.subrange(0, i as int).contains(c),
            i > 0 ==> out@.len() > 0 && out@.last() == sorted@[i - 1],
            i == 0 ==> out@.len() == 0,
        decreases sorted@.len() - i,
    {
        let c = sorted[i];
        let ghost o0 = out@;
        if out.len() == 0 || out[out.len() - 1] != c {
            proof {
                if o0.len() > 0 {
                    assert(sorted@[i - 1].key_le(sorted@[i as int]));
                    assert forall|t: int| 0 <= t < o0.len() implies row_major_lt(#[trigger] o0[t], c) by {
                        if t < o0.len() - 1 {
                            assert(row_major_lt(o0[t], o0[o0.len() - 1]));
                        }
                    }
                }
            }
            out.push(c);
            proof {
                assert forall|a: int, b: int| 0 <= a < b < out@.len() implies row_major_lt(#[trigger] out@[a], #[trigger] out@[b]) by {
                    if b == out@.len() - 1 {
                        assert(out@[a] == o0[a]);
                    } else {
                        assert(out@[a] == o0[a]);
                        assert(out@[b] == o0[b]);
                    }
                }
            }
        }
        proof {
            let pre = sorted@.subrange(0, i as int);
            let post = sorted@.subrange(0, i as int + 1);
            assert(post =~= pre.push(c));
            assert forall|x: CellCoord| out@.contains(x) <==> post.contains(x) by {
                if out@.contains(x) {
                    let t = choose|t: int| 0 <= t < out@.len() && out@[t] == x;
                    if t < o0.len() {
                        assert(o0[t] == x);
                        assert(o0.contains(x));
                        assert(pre.contains(x));
                        let u = choose|u: int| 0 <= u < pre.len() && pre[u] == x;
                        assert(post[u] == x);
                    } else {
                        assert(post[i as int] == x);
                    }
                }
                if post.contains(x) {
                    let u = choose|u: int| 0 <= u < post.len() && post[u] == x;
                    if u < i {
                        assert(pre[u] == x);
                        assert(o0.contains(x));
                        let t = choose|t: int| 0 <= t < o0.len() && o0[t] == x;
                        assert(out@[t] == x);
                    } else {
                        assert(out@[out@.len() - 1] == c);
                    }
                }
            }
        }
        i = i + 1;
    }
    proof {
        assert(sorted@.subrange(0, sorted@.len() as int) =~= sorted@);
        assert forall|c: CellCoord| sorted@.contains(c) <==> cells@.contains(c) by {
            assert(sorted@.to_multiset().count(c) == cells@.to_multiset().count(c));
        }
    }
    out
}

/// The enterable cell one step from `point` in direction `dir`, as a
/// sequence of at most one cell.
pub open spec fn enterable_step(s: NavigationSnapshot, point: CellCoord, dir: int) -> Seq<CellCoord> {
    match spec_neighbor(s.spec_size(), point, dir) {
        Some(n) => if s.walkable_at(n) { seq![n] } else { seq![] },
        None => seq![],
    }
}

impl NavigationSnapshot {
    /// Walkable cardinal neighbours of `point`, north, west, east, south (row-major).
    pub fn point_interaction_cells(&self, point: CellCoord) -> (r: Vec<CellCoord>)
        requires
            self.wf(),
        ensures
            r@ == enterable_step(*self, point, 0) + enterable_step(*self, point, 1) + enterable_step(*self, point, 2)
                + enterable_step(*self, point, 3),
    {
        let mut cells: Vec<CellCoord> = Vec::new();
        let mut dir: u8 = 0;
        while dir < 4
            invariant
                self.wf(),
                0 <= dir <= 4,
                cells@ == (if dir > 0 { enterable_step(*self, point, 0) } else { seq![] }) + (if dir > 1 {
                    enterable_step(*self, point, 1)
                } else {
                    seq![]
                }) + (if dir > 2 { enterable_step(*self, point, 2) } else { seq![] }) + (if dir > 3 {
                    enterable_step(*self, point, 3)
                } else {
                    seq![]
                }),
            decreases 4 - dir,
        {
            let ghost c0 = cells@;
            if let Some(n) = neighbor(self.size, point, dir) {
                if self.is_walkable(n) {
                    cells.push(n);
                }
            }
            proof {
                assert(cells@ =~= c0 + enterable_step(*self, point, dir as int));
            }
            dir = dir + 1;
        }
        cells
    }

    /// Walkable cells just outside a footprint, a step away from one of its
    /// cells, in row-major order without repeats.
    pub fn exterior_interaction_cells(&self, footprint: BuildingFootprint) -> (r: Vec<CellCoord>)
        requires
            self.wf(),
        ensures
            strictly_row_major(r@),
            forall|c: CellCoord| #[trigger] r@.contains(c) <==> exterior_cell(*self, footprint, c),
    {
        let cells = footprint.iter_coords();
        let mut raw: Vec<CellCoord> = Vec::new();
        let mut i: usize = 0;
        while i < cells.len()
            invariant
                self.wf(),
                cells@ == footprint_cells(footprint),
                0 <= i <= cells@.len(),
                forall|c: CellCoord| #[trigger] raw@.contains(c) <==> (self.walkable_at(c) && !footprint_contains(footprint, c)
                    && exists|t: int, d: int| 0 <= t < i && 0 <= d < 4 && #[trigger] spec_neighbor(self.spec_size(), cells@[t], d) == Some(c)),
            decreases cells@.len() - i,
        {
            let f = cells[i];
            let mut dir: u8 = 0;
            while dir < 4
                invariant
                    self.wf(),
                    cells@ == footprint_cells(footprint),
                    0 <= i < cells@.len(),
                    f == cells@[i as int],
                    0 <= dir <= 4,
                    forall|c: CellCoord| #[trigger] raw@.contains(c) <==> (self.walkable_at(c) && !footprint_contains(footprint, c)
                        && (exists|t: int, d: int| 0 <= t < i && 0 <= d < 4 && #[trigger] spec_neighbor(self.spec_size(), cells@[t], d) == Some(c))
                        || (self.walkable_at(c) && !footprint_contains(footprint, c) && exists|d: int| 0 <= d < dir && #[trigger] spec_neighbor(self.spec_size(), f, d) == Some(c))),
                decreases 4 - dir,
            {
                let ghost r0 = raw@;
                if let Some(n) = neighbor(self.size, f, dir) {
                    if !footprint.contains(n) && self.is_walkable(n) {
                        raw.push(n);
                    }
                }
                proof {
                    assert forall|c: CellCoord| #[trigger] raw@.contains(c) <==> (self.walkable_at(c) && !footprint_contains(footprint, c)
                        && (exists|t: int, d: int| 0 <= t < i && 0 <= d < 4 && #[trigger] spec_neighbor(self.spec_size(), cells@[t], d) == Some(c))
                        || (self.walkable_at(c) && !footprint_contains(footprint, c) && exists|d: int| 0 <= d < dir + 1 && #[trigger] spec_neighbor(self.spec_size(), f, d) == Some(c))) by {
                        if raw@.contains(c) && !r0.contains(c) {
                            assert(raw@.last() == c) by {
                                let t = choose|t: int| 0 <= t < raw@.len() && raw@[t] == c;
                                if t < r0.len() {
                                    assert(r0[t] == c);
                                }
                            }
                            assert(spec_neighbor(self.spec_size(), f, dir as int) == Some(c));
                        }
                        if r0.contains(c) {
                            let t = choose|t: int| 0 <= t < r0.len() && r0[t] == c;
                            assert(raw@[t] == c);
                        }
                        if self.walkable_at(c) && !footprint_contains(footprint, c) && spec_neighbor(self.spec_size(), f, dir as int) == Some(c) {
                            assert(raw@.last() == c);
                        }
                    }
                }
                dir = dir + 1;
            }
            proof {
                assert forall|c: CellCoord| #[trigger] raw@.contains(c) <==> (self.walkable_at(c) && !footprint_contains(footprint, c)
                    && exists|t: int, d: int| 0 <= t < i + 1 && 0 <= d < 4 && #[trigger] spec_neighbor(self.spec_size(), cells@[t], d) == Some(c)) by {
                    if self.walkable_at(c) && !footprint_contains(footprint, c) && exists|t: int, d: int| 0 <= t < i + 1 && 0 <= d < 4 && #[trigger] spec_neighbor(self.spec_size(), cells@[t], d) == Some(c) {
                        let (t, d) = choose|t: int, d: int| 0 <= t < i + 1 && 0 <= d < 4 && #[trigger] spec_neighbor(self.spec_size(), cells@[t], d) == Some(c);
                        if t == i {
                            assert(spec_neighbor(self.spec_size(), f, d) == Some(c));
                        }
                    }
                }
            }
            i = i + 1;
        }
        let r = sort_and_deduplicate(&raw);
        proof {
            assert forall|c: CellCoord| #[trigger] r@.contains(c) <==> exterior_cell(*self, footprint, c) by {
                if exterior_cell(*self, footprint, c) {
                    let (t, d) = choose|t: int, d: int| 0 <= t < footprint_cells(footprint).len() && 0 <= d < 4
                        && #[trigger] spec_neighbor(self.spec_size(), footprint_cells(footprint)[t], d) == Some(c);
                    assert(spec_neighbor(self.spec_size(), cells@[t], d) == Some(c));
                    assert(raw@.contains(c));
                }
                if raw@.contains(c) {
                    let (t, d) = choose|t: int, d: int| 0 <= t < cells@.len() && 0 <= d < 4 && #[trigger] spec_neighbor(self.spec_size(), cells@[t], d) == Some(c);
                    assert(spec_neighbor(self.spec_size(), footprint_cells(footprint)[t], d) == Some(c));
                }
            }
        }
        r
    }

    /// Walkable cells of a footprint, for targets such as Fields and Tree
    /// Plots, in row-major order without repeats.
    pub fn footprint_interaction_cells(&self, footprint: BuildingFootprint) -> (r: Vec<CellCoord>)
        requires
            self.wf(),
        ensures
            strictly_row_major(r@),
            forall|c: CellCoord| #[trigger] r@.contains(c) <==> (footprint_cells(footprint).contains(c) && self.walkable_at(c)),
    {
        let cells = footprint.iter_coords();
        let mut raw: Vec<CellCoord> = Vec::new();
        let mut i: usize = 0;
        while i < cells.len()
            invariant
                self.wf(),
                cells@ == footprint_cells(footprint),
                0 <= i <= cells@.len(),
                forall|c: CellCoord| #[trigger] raw@.contains(c) <==> (cells@.subrange(0, i as int).contains(c) && self.walkable_at(c)),
            decreases cells@.len() - i,
        {
            let c = cells[i];
            let ghost r0 = raw@;
            if self.is_walkable(c) {
                raw.push(c);
            }
            proof {
                let pre = cells@.subrange(0, i as int);
                let post = cells@.subrange(0, i as int + 1);
                assert(post =~= pre.push(c));
                assert forall|x: CellCoord| #[trigger] raw@.contains(x) <==> (post.contains(x) && self.walkable_at(x)) by {
                    if raw@.contains(x) {
                        let t = choose|t: int| 0 <= t < raw@.len() && raw@[t] == x;
                        if t < r0.len() {
                            assert(r0[t] == x);
                            assert(r0.contains(x));
                            assert(pre.contains(x));
                            let u = choose|u: int| 0 <= u < pre.len() && pre[u] == x;
                            assert(post[u] == x);
                        } else {
                            assert(post[i as int] == x);
                        }
                    }
                    if post.contains(x) && self.walkable_at(x) {
                        let u = choose|u: int| 0 <= u < post.len() && post[u] == x;
                        if u < i {
                            assert(pre[u] == x);
                            assert(r0.contains(x));
                            let t = choose|t: int| 0 <= t < r0.len() && r0[t] == x;
                            assert(raw@[t] == x);
                        } else {
                            assert(raw@.last() == x);
                        }
                    }
                }
            }
            i = i + 1;
        }
        proof {
            assert(cells@.subrange(0, cells@.len() as int) =~= cells@);
        }
        sort_and_deduplicate(&raw)
    }
}

/// A walkable cell outside the footprint, one step from one of its cells.
pub open spec fn exterior_cell(s: NavigationSnapshot, footprint: BuildingFootprint, c: CellCoord) -> bool {
    &&& s.walkable_at(c)
    &&& !footprint_contains(footprint, c)
    &&& exists|t: int, d: int|
        0 <= t < footprint_cells(footprint).len() && 0 <= d < 4 && #[trigger] spec_neighbor(
            s.spec_size(),
            footprint_cells(footprint)[t],
            d,
        ) == Some(c)
}

/// Whether a plan from `start` towards `goals` ended at `destination` with
/// `waypoints` still to walk: no destination exactly when no eligible goal is
/// reachable (or the search cannot run), otherwise the least goal and a
/// shortest path to it, `start` excluded.
pub open spec fn route_planned(
    s: NavigationSnapshot,
    start: CellCoord,
    goals: Seq<CellCoord>,
    destination: Option<CellCoord>,
    waypoints: Seq<CellCoord>,
) -> bool {
    match destination {
        None => !{
            &&& grid_contains(s.spec_size(), start)
            &&& s.spec_size().width * s.spec_size().height < u32::MAX
            &&& exists|i: int, m: nat|
                0 <= i < goals.len() && goal_eligible(s, start, goals[i]) && #[trigger] reach(s, start, m, #[trigger] goals[i])
        },
        Some(t) => {
            &&& goals.contains(t)
            &&& goal_eligible(s, start, t)
            &&& exists|d: nat|
                #[trigger] nav_distance(s, start, t, d) && path_ok(s, start, t, d, seq![start] + waypoints) && forall|i: int, m: nat|
                    0 <= i < goals.len() && goal_eligible(s, start, goals[i]) && #[trigger] nav_distance(
                        s,
                        start,
                        #[trigger] goals[i],
                        m,
                    ) ==> distance_key_le(d, t, m, goals[i])
        },
    }
}

/// The waypoints left after dropping those at the front equal to `p`.
pub open spec fn drop_leading(w: Seq<CellCoord>, p: CellCoord) -> Seq<CellCoord>
    decreases w.len(),
{
    if w.len() > 0 && w[0] == p {
        drop_leading(w.skip(1), p)
    } else {
        w
    }
}

/// What the route driver asks of an NPC's movement.
#[derive(Debug, Clone, Copy, PartialEq, Eq, Structural)]
pub enum RouteAction {
    /// The destination is reached: the route is done.
    RemoveRoute,
    /// No way on: stop moving.
    RemoveMovement,
    /// Move to the next waypoint.
    SetMovement(CellCoord),
    /// Keep the current movement.
    Keep,
}

/// The action for an NPC at `position` with the given movement target.
pub open spec fn route_action(
    destination: Option<CellCoord>,
    waypoints: Seq<CellCoord>,
    position: CellCoord,
    movement: Option<CellCoord>,
) -> RouteAction {
    if destination == Some(position) && waypoints.len() == 0 && movement is None {
        RouteAction::RemoveRoute
    } else if destination is None || waypoints.len() == 0 {
        RouteAction::RemoveMovement
    } else if movement != Some(waypoints[0]) {
        RouteAction::SetMovement(waypoints[0])
    } else {
        RouteAction::Keep
    }
}

/// A persistent NPC navigation request: its goals, the cardinal waypoints
/// still to walk, and the snapshot fingerprint it was planned against.
pub struct NpcRoute {
    goals: Vec<CellCoord>,
    waypoints: Vec<CellCoord>,
    destination: Option<CellCoord>,
    planned_fingerprint: Option<u64>,
}

impl NpcRoute {
    pub closed spec fn spec_goals(&self) -> Seq<CellCoord> {
        self.goals@
    }

    pub closed spec fn spec_waypoints(&self) -> Seq<CellCoord> {
        self.waypoints@
    }

    pub closed spec fn spec_destination(&self) -> Option<CellCoord> {
        self.destination
    }

    pub closed spec fn spec_planned_fingerprint(&self) -> Option<u64> {
        self.planned_fingerprint
    }

    /// A route to any of `goals`, kept in row-major order without repeats;
    /// not yet planned.
    pub fn new(goals: &[CellCoord]) -> (r: Self)
        ensures
            strictly_row_major(r.spec_goals()),
            forall|c: CellCoord| r.spec_goals().contains(c) <==> goals@.contains(c),
            r.spec_waypoints().len() == 0,
            r.spec_destination() is None,
            r.spec_planned_fingerprint() is None,
    {
        let v = crate::sorting::copy_to_vec(goals);
        let goals = sort_and_deduplicate(&v);
        Self { goals, waypoints: Vec::new(), destination: None, planned_fingerprint: None }
    }

    /// A route to one cell.
    pub fn to_cell(goal: CellCoord) -> (r: Self)
        ensures
            r.spec_goals() == seq![goal],
            r.spec_waypoints().len() == 0,
            r.spec_destination() is None,
            r.spec_planned_fingerprint() is None,
    {
        let mut goals: Vec<CellCoord> = Vec::new();
        goals.push(goal);
        Self { goals, waypoints: Vec::new(), destination: None, planned_fingerprint: None }
    }

    pub fn goals(&self) -> (r: &[CellCoord])
        ensures
            r@ == self.spec_goals(),
    {
        self.goals.as_slice()
    }

    pub fn destination(&self) -> (r: Option<CellCoord>)
        ensures
            r == self.spec_destination(),
    {
        self.destination
    }

    /// The waypoints still to walk, the next one first.
    pub fn waypoints(&self) -> (r: &[CellCoord])
        ensures
            r@ == self.spec_waypoints(),
    {
        self.waypoints.as_slice()
    }

    /// Planned, but no goal could be reached.
    pub fn is_blocked(&self) -> (r: bool)
        ensures
            r == (self.spec_planned_fingerprint() is Some && self.spec_destination() is None),
    {
        self.planned_fingerprint.is_some() && self.destination.is_none()
    }

    /// Plans against `snapshot` from `start`: the waypoints become a shortest
    /// path to the least reachable goal, the start left out.
    pub fn plan(&mut self, snapshot: &NavigationSnapshot, start: CellCoord)
        requires
            snapshot.wf(),
        ensures
            final(self).spec_goals() == old(self).spec_goals(),
            final(self).spec_planned_fingerprint() == Some(snapshot.spec_fingerprint()),
            route_planned(
                *snapshot,
                start,
                final(self).spec_goals(),
                final(self).spec_destination(),
                final(self).spec_waypoints(),
            ),
    {
        self.waypoints = Vec::new();
        self.destination = None;
        self.planned_fingerprint = Some(snapshot.fingerprint());
        let path = snapshot.shortest_path_to_any(start, self.goals.as_slice());
        match path {
            Some(path) => {
                let target = path.target();
                let ghost d = path.spec_distance();
                let cells = path.into_cells();
                let mut waypoints: Vec<CellCoord> = Vec::new();
                let mut i: usize = 1;
                while i < cells.len()
                    invariant
                        1 <= i <= cells@.len(),
                        waypoints@ == cells@.subrange(1, i as int),
                    decreases cells@.len() - i,
                {
                    waypoints.push(cells[i]);
                    proof {
                        assert(waypoints@ =~= cells@.subrange(1, i as int + 1));
                    }
                    i = i + 1;
                }
                proof {
                    assert(cells@ =~= seq![start] + waypoints@);
                }
                self.waypoints = waypoints;
                self.destination = Some(target);
            },
            None => {},
        }
    }

    fn drop_reached(&mut self, position: CellCoord)
        ensures
            final(self).spec_waypoints() == drop_leading(old(self).spec_waypoints(), position),
            final(self).spec_goals() == old(self).spec_goals(),
            final(self).spec_destination() == old(self).spec_destination(),
            final(self).spec_planned_fingerprint() == old(self).spec_planned_fingerprint(),
    {
        while self.waypoints.len() > 0 && self.waypoints[0] == position
            invariant
                drop_leading(self.waypoints@, position) == drop_leading(old(self).spec_waypoints(), position),
                self.goals@ == old(self).spec_goals(),
                self.destination == old(self).spec_destination(),
                self.planned_fingerprint == old(self).spec_planned_fingerprint(),
            decreases self.waypoints@.len(),
        {
            let ghost w0 = self.waypoints@;
            self.waypoints.remove(0);
            proof {
                assert(self.waypoints@ =~= w0.skip(1));
            }
        }
    }

    /// One tick of the route driver for an NPC at `position` whose movement
    /// target is `movement`: replans when the snapshot changed since the last
    /// plan, drops reached waypoints when the NPC stands still, and says
    /// what to do with its movement.
    pub fn advance(
        &mut self,
        snapshot: &NavigationSnapshot,
        position: CellCoord,
        movement: Option<CellCoord>,
    ) -> (a: RouteAction)
        requires
            snapshot.wf(),
        ensures
            final(self).spec_goals() == old(self).spec_goals(),
            final(self).spec_planned_fingerprint() == Some(snapshot.spec_fingerprint()),
            old(self).spec_planned_fingerprint() == Some(snapshot.spec_fingerprint()) ==> {
                &&& final(self).spec_destination() == old(self).spec_destination()
                &&& final(self).spec_waypoints() == if movement is None {
                    drop_leading(old(self).spec_waypoints(), position)
                } else {
                    old(self).spec_waypoints()
                }
            },
            old(self).spec_planned_fingerprint() != Some(snapshot.spec_fingerprint()) ==> exists|w: Seq<CellCoord>|
                route_planned(*snapshot, position, old(self).spec_goals(), final(self).spec_destination(), w)
                    && final(self).spec_waypoints() == if movement is None {
                    drop_leading(w, position)
                } else {
                    w
                },
            a == route_action(final(self).spec_destination(), final(self).spec_waypoints(), position, movement),
    {
        let ghost w_old = self.waypoints@;
        if self.planned_fingerprint != Some(snapshot.fingerprint()) {
            self.plan(snapshot, position);
        }
        let ghost w_planned = self.waypoints@;
        if movement.is_none() {
            self.drop_reached(position);
        }
        if self.destination == Some(position) && self.waypoints.len() == 0 && movement.is_none() {
            RouteAction::RemoveRoute
        } else if self.destination.is_none() || self.waypoints.len() == 0 {
            RouteAction::RemoveMovement
        } else {
            let next = self.waypoints[0];
            if movement != Some(next) {
                RouteAction::SetMovement(next)
            } else {
                RouteAction::Keep
            }
        }
    }
}

/// The flags after writing each update in turn, skipping cells outside the
/// grid, and whether any write changed a flag.
pub open spec fn apply_walkability(size: GridSize, walkable: Seq<bool>, updates: Seq<(CellCoord, bool)>) -> (Seq<bool>, bool)
    decreases updates.len(),
{
    if updates.len() == 0 {
        (walkable, false)
    } else {
        let (w, changed) = apply_walkability(size, walkable, updates.drop_last());
        let (c, v) = updates.last();
        if grid_contains(size, c) && w[cell_index(size, c)] != v {
            (w.update(cell_index(size, c), v), true)
        } else {
            (w, changed)
        }
    }
}

impl NavigationSnapshot {
    /// Re-evaluated walkability for a few cells: writes each flag and
    /// advances the fingerprint by one (wrapping) only when some flag
    /// actually changed. Returns whether one did.
    pub fn refresh_cells(&mut self, updates: &[(CellCoord, bool)]) -> (changed: bool)
        requires
            old(self).wf(),
        ensures
            final(self).wf(),
            final(self).spec_size() == old(self).spec_size(),
            (final(self).spec_walkable(), changed) == apply_walkability(old(self).spec_size(), old(self).spec_walkable(), updates@),
            final(self).spec_fingerprint() == if changed {
                vstd::wrapping::u64_specs::wrapping_add(old(self).spec_fingerprint(), 1)
            } else {
                old(self).spec_fingerprint()
            },
    {
        let mut changed = false;
        let mut i: usize = 0;
        while i < updates.len()
            invariant
                self.wf(),
                self.size == old(self).spec_size(),
                self.fingerprint == old(self).spec_fingerprint(),
                0 <= i <= updates@.len(),
                (self.walkable@, changed) == apply_walkability(self.size, old(self).spec_walkable(), updates@.subrange(0, i as int)),
            decreases updates@.len() - i,
        {
            let (c, v) = updates[i];
            proof {
                let pre = updates@.subrange(0, i as int);
                let post = updates@.subrange(0, i as int + 1);
                assert(post.drop_last() =~= pre);
                assert(post.last() == updates@[i as int]);
            }
            if self.size.contains(c) {
                let ci = index_of(self.size, c);
                if self.walkable[ci] != v {
                    self.walkable.set(ci, v);
                    changed = true;
                }
            }
            i = i + 1;
        }
        proof {
            assert(updates@.subrange(0, updates@.len() as int) =~= updates@);
        }
        if changed {
            self.fingerprint = self.fingerprint.wrapping_add(1);
        }
        changed
    }

    /// Takes a fully rebuilt snapshot: unchanged when it covers the same grid
    /// with the same flags; otherwise the replacement, its fingerprint one
    /// past the current one (wrapping).
    pub fn refresh_from(&mut self, replacement: NavigationSnapshot)
        requires
            old(self).wf(),
            replacement.wf(),
        ensures
            final(self).wf(),
            (old(self).spec_size() == replacement.spec_size() && old(self).spec_walkable() == replacement.spec_walkable())
                ==> final(self).spec_size() == old(self).spec_size() && final(self).spec_walkable() == old(self).spec_walkable()
                && final(self).spec_fingerprint() == old(self).spec_fingerprint(),
            !(old(self).spec_size() == replacement.spec_size() && old(self).spec_walkable() == replacement.spec_walkable())
                ==> final(self).spec_size() == replacement.spec_size() && final(self).spec_walkable() == replacement.spec_walkable()
                && final(self).spec_fingerprint() == vstd::wrapping::u64_specs::wrapping_add(old(self).spec_fingerprint(), 1),
    {
        let same_size = self.size.width == replacement.size.width && self.size.height == replacement.size.height;
        let mut same = same_size && self.walkable.len() == replacement.walkable.len();
        if same {
            let mut i: usize = 0;
            while i < self.walkable.len()
                invariant
                    self.walkable@.len() == replacement.walkable@.len(),
                    0 <= i <= self.walkable@.len(),
                    same ==> self.walkable@.subrange(0, i as int) == replacement.walkable@.subrange(0, i as int),
                    !same ==> self.walkable@ != replacement.walkable@,
                decreases self.walkable@.len() - i,
            {
                if same && self.walkable[i] != replacement.walkable[i] {
                    same = false;
                    proof {
                        assert(self.walkable@[i as int] != replacement.walkable@[i as int]);
                    }
                }
                proof {
                    if same {
                        assert(self.walkable@.subrange(0, i as int + 1) =~= self.walkable@.subrange(0, i as int).push(self.walkable@[i as int]));
                        assert(replacement.walkable@.subrange(0, i as int + 1) =~= replacement.walkable@.subrange(0, i as int).push(replacement.walkable@[i as int]));
                    }
                }
                i = i + 1;
            }
            proof {
                if same {
                    assert(self.walkable@.subrange(0, self.walkable@.len() as int) =~= self.walkable@);
                    assert(replacement.walkable@.subrange(0, self.walkable@.len() as int) =~= replacement.walkable@);
                }
            }
        }
        if !same {
            let fingerprint = self.fingerprint.wrapping_add(1);
            *self = NavigationSnapshot { fingerprint, ..replacement };
        }
    }
}

/// Whether NPCs may enter a cell, from its tile's terrain (`None` without a
/// tile), whether a resource node stands on it, and the buildings and
/// blueprints of the surface: land, no node, no structure that blocks walking.
pub open spec fn layout_walkable(
    terrain: Option<TerrainKind>,
    resource_here: bool,
    structures: Seq<Structure>,
    c: CellCoord,
) -> bool {
    match terrain {
        Some(t) => t != TerrainKind::Water && !resource_here && !covered_by_walk_blocker(structures, c),
        None => false,
    }
}

/// The walkability flag at position `i` of the row-major listing; false
/// where the cell's coordinates do not fit in `i32`.
pub open spec fn layout_flag(
    size: GridSize,
    terrain: Seq<Option<TerrainKind>>,
    resource_cells: Seq<CellCoord>,
    structures: Seq<Structure>,
    i: int,
) -> bool {
    let x = i % (size.width as int);
    let y = i / (size.width as int);
    let c = CellCoord { x: x as i32, y: y as i32 };
    x <= i32::MAX && y <= i32::MAX && layout_walkable(terrain[i], resource_cells.contains(c), structures, c)
}

fn contains_cell(cells: &[CellCoord], c: CellCoord) -> (r: bool)
    ensures
        r == cells@.contains(c),
{
    let mut i: usize = 0;
    while i < cells.len()
        invariant
            0 <= i <= cells@.len(),
            forall|t: int| 0 <= t < i ==> cells@[t] != c,
        decreases cells@.len() - i,
    {
        if cells[i] == c {
            return true;
        }
        i = i + 1;
    }
    false
}

impl NavigationSnapshot {
    /// Builds the snapshot of a surface from one terrain entry per cell in
    /// row-major order (`None` where a cell has no tile), the cells holding
    /// resource nodes, and the buildings and blueprints standing on it.
    /// `None` when the terrain entries do not cover the grid exactly.
    pub fn from_layout(
        size: GridSize,
        terrain: &[Option<TerrainKind>],
        resource_cells: &[CellCoord],
        structures: &[Structure],
    ) -> (r: Option<Self>)
        ensures
            r is Some <==> terrain@.len() == size.width * size.height,
            r matches Some(s) ==> {
                &&& s.wf()
                &&& s.spec_size() == size
                &&& s.spec_walkable() == Seq::new(
                    terrain@.len(),
                    |i: int| layout_flag(size, terrain@, resource_cells@, structures@, i),
                )
                &&& s.spec_fingerprint() == fnv1a(walkability_bytes(size, s.spec_walkable()))
                &&& forall|c: CellCoord| #[trigger] s.walkable_at(c) <==> grid_contains(size, c) && layout_walkable(
                    terrain@[cell_index(size, c)],
                    resource_cells@.contains(c),
                    structures@,
                    c,
                )
            },
    {
        let len = terrain.len();
        match size.width.checked_mul(size.height) {
            Some(n) => {
                if len != n {
                    return None;
                }
            },
            None => {
                return None;
            },
        }
        let ghost flags = Seq::new(terrain@.len(), |i: int| layout_flag(size, terrain@, resource_cells@, structures@, i));
        let mut walkable: Vec<bool> = Vec::new();
        let mut i: usize = 0;
        while i < len
            invariant
                len == terrain@.len(),
                len == size.width * size.height,
                0 <= i <= len,
                flags == Seq::new(terrain@.len(), |i: int| layout_flag(size, terrain@, resource_cells@, structures@, i)),
                walkable@ == flags.subrange(0, i as int),
            decreases len - i,
        {
            let x = i % size.width;
            let y = i / size.width;
            let mut flag = false;
            if x <= i32::MAX as usize && y <= i32::MAX as usize {
                let c = CellCoord { x: x as i32, y: y as i32 };
                let here = contains_cell(resource_cells, c);
                flag = match collision_flags_for(terrain[i], here, structures, c) {
                    Some(f) => !f.npc_walk_blocked,
                    None => false,
                };
            }
            walkable.push(flag);
            proof {
                assert(walkable@ =~= flags.subrange(0, i as int + 1));
            }
            i = i + 1;
        }
        proof {
            assert(walkable@ =~= flags);
        }
        let r = Self::from_walkable(size, walkable);
        proof {
            let s = r.unwrap();
            assert forall|c: CellCoord| #[trigger] s.walkable_at(c) <==> grid_contains(size, c) && layout_walkable(
                terrain@[cell_index(size, c)],
                resource_cells@.contains(c),
                structures@,
                c,
            ) by {
                if grid_contains(size, c) {
                    lemma_cell_index_bounds(size, c);
                    reveal(cell_index);
                    lemma_row_major_index(size.width as int, c.y as int, c.x as int);
                    let i = cell_index(size, c);
                    assert(i % (size.width as int) == c.x);
                    assert(i / (size.width as int) == c.y);
                    assert(flags[i] == layout_flag(size, terrain@, resource_cells@, structures@, i));
                }
            }
        }
        r
    }
}

} // verus!
