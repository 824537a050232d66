use vstd::prelude::*;
use crate::components::ResourceNode;
use crate::grid::{spec_iter_coords, CellCoord, GridSize};
use crate::resources::ResourceKind;
use crate::sorting::{key_sorted, sort_by_key_order, KeyOrder};
use crate::tile::{coord_bits, spec_mix_hash, spec_rotate_left};

verus! {

/// Natural resource nodes per thousand cells.
pub const COVERAGE_PER_THOUSAND: usize = 15;

/// Fewest units a new node holds.
pub const MIN_RESOURCE_NODE_QUANTITY: u32 = 50;

/// Number of different node sizes above the minimum.
pub const RESOURCE_NODE_QUANTITY_RANGE: u64 = 101;

/// The kinds natural nodes hold, in bucket order.
pub open spec fn natural_kind(bucket: int) -> ResourceKind {
    if bucket == 0 {
        ResourceKind::Wood
    } else if bucket == 1 {
        ResourceKind::Stone
    } else if bucket == 2 {
        ResourceKind::Food
    } else {
        ResourceKind::Gold
    }
}

/// Kind of a node from its placement hash: its high half picks a bucket.
pub fn resource_kind_for_hash(hash: u64) -> (r: ResourceKind)
    ensures
        r == natural_kind(((hash >> 32u64) % 4) as int),
{
    let bucket = (hash >> 32u64) % 4;
    if bucket == 0 {
        ResourceKind::Wood
    } else if bucket == 1 {
        ResourceKind::Stone
    } else if bucket == 2 {
        ResourceKind::Food
    } else {
        ResourceKind::Gold
    }
}

/// Units in a node from its placement hash: 50 to 150.
pub fn resource_quantity_for_hash(hash: u64) -> (r: u32)
    ensures
        r == MIN_RESOURCE_NODE_QUANTITY + hash % RESOURCE_NODE_QUANTITY_RANGE,
        MIN_RESOURCE_NODE_QUANTITY <= r <= MIN_RESOURCE_NODE_QUANTITY + 100,
{
    MIN_RESOURCE_NODE_QUANTITY + (hash % RESOURCE_NODE_QUANTITY_RANGE) as u32
}

/// Placement hash of a cell on a grid of a given size.
pub open spec fn spec_placement_hash(size: GridSize, coord: CellCoord) -> u64 {
    let v0 = 0x9e37_79b9_7f4a_7c15u64;
    let v1 = spec_rotate_left(v0 ^ (size.width as u64).wrapping_mul(0xbf58_476d_1ce4_e5b9u64), 27);
    let v2 = spec_rotate_left(v1 ^ (size.height as u64).wrapping_mul(0x94d0_49bb_1331_11ebu64), 31);
    let v3 = spec_rotate_left(v2 ^ coord_bits(coord.x).wrapping_mul(0xd6e8_feb8_6659_fd93u64), 23);
    let v4 = v3 ^ coord_bits(coord.y).wrapping_mul(0xa5a3_58f1_d6a1_0f41u64);
    spec_mix_hash(v4)
}

pub fn placement_hash(size: GridSize, coord: CellCoord) -> (r: u64)
    ensures
        r == spec_placement_hash(size, coord),
{
    let w: u64 = size.width as u64;
    let h: u64 = size.height as u64;
    let xw: i64 = coord.x as i64;
    let yw: i64 = coord.y as i64;
    let xb: u64 = xw as u64;
    let yb: u64 = yw as u64;
    let v0 = 0x9e37_79b9_7f4a_7c15u64;
    let a = v0 ^ w.wrapping_mul(0xbf58_476d_1ce4_e5b9u64);
    let v1 = (a << 27u64) | (a >> 37u64);
    let b = v1 ^ h.wrapping_mul(0x94d0_49bb_1331_11ebu64);
    let v2 = (b << 31u64) | (b >> 33u64);
    let c = v2 ^ xb.wrapping_mul(0xd6e8_feb8_6659_fd93u64);
    let v3 = (c << 23u64) | (c >> 41u64);
    let v4 = v3 ^ yb.wrapping_mul(0xa5a3_58f1_d6a1_0f41u64);
    crate::tile::mix_hash(v4)
}

/// How many nodes a grid of `n` cells starts with: fifteen per thousand
/// cells (rounded down), at least one.
pub open spec fn spec_target_node_count(n: int) -> int {
    let t = (n / 1000) * (COVERAGE_PER_THOUSAND as int) + ((n % 1000) * (COVERAGE_PER_THOUSAND as int)) / 1000;
    if t < 1 { 1 } else { t }
}

pub fn target_node_count(n: usize) -> (r: usize)
    ensures
        r == spec_target_node_count(n as int),
{
    let t = (n / 1000) * COVERAGE_PER_THOUSAND + ((n % 1000) * COVERAGE_PER_THOUSAND) / 1000;
    if t < 1 { 1 } else { t }
}

/// A cell competing for a node, with its placement hash.
#[derive(Debug, Clone, Copy, PartialEq, Eq, Structural)]
pub struct NodeCandidate {
    pub hash: u64,
    pub coord: CellCoord,
}

impl KeyOrder for NodeCandidate {
    /// Order by hash, then row, then column.
    open spec fn key_le(self, other: Self) -> bool {
        self.hash < other.hash || (self.hash == other.hash && (self.coord.y < other.coord.y || (self.coord.y
            == other.coord.y && self.coord.x <= other.coord.x)))
    }

    proof fn lemma_key_le_reflexive(a: Self) {
    }

    proof fn lemma_key_le_transitive(a: Self, b: Self, c: Self) {
    }

    proof fn lemma_key_le_total(a: Self, b: Self) {
    }

    fn comes_no_later(&self, other: &Self) -> (r: bool) {
        self.hash < other.hash || (self.hash == other.hash && (self.coord.y < other.coord.y || (self.coord.y
            == other.coord.y && self.coord.x <= other.coord.x)))
    }
}

/// The candidates of every addressable cell, in row-major order.
pub open spec fn node_candidates(size: GridSize) -> Seq<NodeCandidate> {
    spec_iter_coords(size).map(|i: int, c: CellCoord| NodeCandidate { hash: spec_placement_hash(size, c), coord: c })
}

/// The node a candidate gets.
pub open spec fn node_of(c: NodeCandidate) -> (CellCoord, ResourceNode) {
    (
        c.coord,
        ResourceNode {
            kind: natural_kind(((c.hash >> 32u64) % 4) as int),
            quantity: (MIN_RESOURCE_NODE_QUANTITY + c.hash % RESOURCE_NODE_QUANTITY_RANGE) as u32,
        },
    )
}

/// The starting resource nodes of a surface: nothing on an empty grid (or
/// one too large to count); otherwise the candidates ordered by (hash, row,
/// column) and the first `spec_target_node_count` of them, each holding
/// the kind and amount its hash picks.
pub fn plan_resource_nodes(size: GridSize) -> (r: Vec<(CellCoord, ResourceNode)>)
    ensures
        size.width * size.height > usize::MAX || size.width * size.height == 0 ==> r@.len() == 0,
        0 < size.width * size.height <= usize::MAX ==> exists|sorted: Seq<NodeCandidate>|
            #![trigger key_sorted(sorted)]
            {
                &&& key_sorted(sorted)
                &&& sorted.to_multiset() == node_candidates(size).to_multiset()
                &&& sorted.len() == node_candidates(size).len()
                &&& r@ == sorted.take(
                    if spec_target_node_count(size.width * size.height) < sorted.len() {
                        spec_target_node_count(size.width * size.height)
                    } else {
                        sorted.len() as int
                    },
                ).map_values(|c: NodeCandidate| node_of(c))
            },
{
    let n = match size.cell_count() {
        Some(n) => n,
        None => {
            return Vec::new();
        },
    };
    if n == 0 {
        return Vec::new();
    }
    let target = target_node_count(n);
    let coords = size.iter_coords();
    let mut candidates: Vec<NodeCandidate> = Vec::new();
    let mut i: usize = 0;
    while i < coords.len()
        invariant
            0 <= i <= coords@.len(),
            coords@ == spec_iter_coords(size),
            candidates@ == node_candidates(size).subrange(0, i as int),
        decreases coords@.len() - i,
    {
        let c = coords[i];
        candidates.push(NodeCandidate { hash: placement_hash(size, c), coord: c });
        proof {
            assert(candidates@ =~= node_candidates(size).subrange(0, i as int + 1));
        }
        i = i + 1;
    }
    proof {
        assert(candidates@ =~= node_candidates(size));
    }
    let sorted = sort_by_key_order(&candidates);
    let take = if target < sorted.len() { target } else { sorted.len() };
    let mut out: Vec<(CellCoord, ResourceNode)> = Vec::new();
    let mut k: usize = 0;
    while k < take
        invariant
            0 <= k <= take <= sorted@.len(),
            out@ == sorted@.take(k as int).map_values(|c: NodeCandidate| node_of(c)),
        decreases take - k,
    {
        let c = sorted[k];
        let node = ResourceNode { kind: resource_kind_for_hash(c.hash), quantity: resource_quantity_for_hash(c.hash) };
        out.push((c.coord, node));
        proof {
            assert(out@ =~= sorted@.take(k as int + 1).map_values(|c: NodeCandidate| node_of(c)));
        }
        k = k + 1;
    }
    proof {
        assert(key_sorted(sorted@));
    }
    out
}

} // verus!
