use crate::buildings::{footprint_bounds, footprint_contains, BuildingFootprint};
use crate::entity::EntityId;
use crate::grid::{row_major_le, CellCoord};
use vstd::prelude::*;

verus! {

/// Seeding and growth progress of a cultivated plot.
#[derive(Debug, Clone, Copy, PartialEq, Eq, Structural)]
pub struct PlotGrowth {
    pub seeding_progress_ticks: u32,
    pub growth_ticks: Option<u32>,
}

impl PlotGrowth {
    pub fn seedable() -> (r: Self)
        ensures
            r.seeding_progress_ticks == 0,
            r.growth_ticks is None,
    {
        Self { seeding_progress_ticks: 0, growth_ticks: None }
    }

    pub fn with_seeding_progress(seeding_progress_ticks: u32) -> (r: Self)
        ensures
            r.seeding_progress_ticks == seeding_progress_ticks,
            r.growth_ticks is None,
    {
        Self { seeding_progress_ticks, growth_ticks: None }
    }

    pub fn growing(growth_ticks: u32, seeding_duration: u32) -> (r: Self)
        ensures
            r.seeding_progress_ticks == seeding_duration,
            r.growth_ticks == Some(growth_ticks),
    {
        Self { seeding_progress_ticks: seeding_duration, growth_ticks: Some(growth_ticks) }
    }

    pub fn seeding_progress_ticks(self) -> (r: u32)
        ensures
            r == self.seeding_progress_ticks,
    {
        self.seeding_progress_ticks
    }

    pub fn growth_ticks(self) -> (r: Option<u32>)
        ensures
            r == self.growth_ticks,
    {
        self.growth_ticks
    }

    pub open spec fn spec_is_seedable(self, seeding_duration: u32) -> bool {
        self.growth_ticks is None && self.seeding_progress_ticks < seeding_duration
    }

    pub fn is_seedable(self, seeding_duration: u32) -> (r: bool)
        ensures
            r == self.spec_is_seedable(seeding_duration),
    {
        self.growth_ticks.is_none() && self.seeding_progress_ticks < seeding_duration
    }

    /// One tick of seeding. When seeding completes, growth starts at zero and
    /// `true` is returned; a plot that is not seedable is left unchanged.
    pub fn advance_seeding_tick(&mut self, seeding_duration: u32) -> (r: bool)
        ensures
            !old(self).spec_is_seedable(seeding_duration) ==> !r && *final(self) == *old(self),
            old(self).spec_is_seedable(seeding_duration) ==> {
                let next = old(self).seeding_progress_ticks + 1;
                &&& r == (next >= seeding_duration)
                &&& r ==> *final(self) == PlotGrowth {
                    seeding_progress_ticks: seeding_duration,
                    growth_ticks: Some(0),
                }
                &&& !r ==> *final(self) == PlotGrowth {
                    seeding_progress_ticks: next as u32,
                    growth_ticks: None,
                }
            },
    {
        if !self.is_seedable(seeding_duration) {
            return false;
        }
        self.seeding_progress_ticks = self.seeding_progress_ticks + 1;
        if self.seeding_progress_ticks >= seeding_duration {
            self.seeding_progress_ticks = seeding_duration;
            self.growth_ticks = Some(0);
            true
        } else {
            false
        }
    }

    /// One tick of growth, stopping at `growth_duration`; plots that are not
    /// growing are left unchanged.
    pub fn advance_growth_tick(&mut self, growth_duration: u32)
        ensures
            final(self).seeding_progress_ticks == old(self).seeding_progress_ticks,
            final(self).growth_ticks == (match old(self).growth_ticks {
                Some(t) => Some(if t < growth_duration { (t + 1) as u32 } else { t }),
                None => None,
            }),
    {
        if let Some(ticks) = self.growth_ticks {
            if ticks < growth_duration {
                self.growth_ticks = Some(ticks + 1);
            }
        }
    }

    pub fn reset(&mut self)
        ensures
            final(self).seeding_progress_ticks == 0,
            final(self).growth_ticks is None,
    {
        *self = Self::seedable();
    }
}

/// Growth never passes its duration once it starts at or below it.
pub proof fn lemma_growth_stays_within_duration(g: PlotGrowth, growth_duration: u32)
    requires
        g.growth_ticks matches Some(t) && t <= growth_duration,
    ensures
        ({
            let next = match g.growth_ticks {
                Some(t) => if t < growth_duration { t + 1 } else { t as int },
                None => 0,
            };
            next <= growth_duration
        }),
{
}

/// The four cardinal neighbours of a cell: east, west, south, north.
pub fn cardinal_neighbors(coord: CellCoord) -> (r: [CellCoord; 4])
    requires
        i32::MIN < coord.x < i32::MAX,
        i32::MIN < coord.y < i32::MAX,
    ensures
        r@ == seq![
            CellCoord { x: (coord.x + 1) as i32, y: coord.y },
            CellCoord { x: (coord.x - 1) as i32, y: coord.y },
            CellCoord { x: coord.x, y: (coord.y + 1) as i32 },
            CellCoord { x: coord.x, y: (coord.y - 1) as i32 },
        ],
{
    let r = [
        CellCoord::new(coord.x + 1, coord.y),
        CellCoord::new(coord.x - 1, coord.y),
        CellCoord::new(coord.x, coord.y + 1),
        CellCoord::new(coord.x, coord.y - 1),
    ];
    assert(r@ =~= seq![
        CellCoord { x: (coord.x + 1) as i32, y: coord.y },
        CellCoord { x: (coord.x - 1) as i32, y: coord.y },
        CellCoord { x: coord.x, y: (coord.y + 1) as i32 },
        CellCoord { x: coord.x, y: (coord.y - 1) as i32 },
    ]);
    r
}


/// Whether a footprint covers the cell at integer coordinates `(x, y)`.
pub open spec fn covers_xy(f: BuildingFootprint, x: int, y: int) -> bool {
    match footprint_bounds(f) {
        Some((l, t, r, b)) => l <= x < r && t <= y < b,
        None => false,
    }
}

/// Whether a footprint covers one of the four cardinal neighbours of a cell.
pub open spec fn borders(f: BuildingFootprint, c: CellCoord) -> bool {
    ||| covers_xy(f, c.x + 1, c.y as int)
    ||| covers_xy(f, c.x - 1, c.y as int)
    ||| covers_xy(f, c.x as int, c.y + 1)
    ||| covers_xy(f, c.x as int, c.y - 1)
}

/// Whether two cells share an edge.
pub open spec fn cells_adjacent(a: CellCoord, b: CellCoord) -> bool {
    ||| a.y == b.y && (a.x - b.x == 1 || b.x - a.x == 1)
    ||| a.x == b.x && (a.y - b.y == 1 || b.y - a.y == 1)
}

/// Whether a cell joins an owner's plot network: it borders the owner's
/// footprint, the footprint of a plot already linked to the owner, or a cell
/// that has already joined.
pub open spec fn joins_network(
    c: CellCoord,
    owner: BuildingFootprint,
    linked: Seq<BuildingFootprint>,
    joined: Seq<CellCoord>,
) -> bool {
    ||| borders(owner, c)
    ||| exists|i: int| 0 <= i < linked.len() && borders(#[trigger] linked[i], c)
    ||| exists|j: int| 0 <= j < joined.len() && cells_adjacent(c, #[trigger] joined[j])
}

/// A candidate that has not joined yet and can join now.
pub open spec fn on_frontier(
    cands: Seq<CellCoord>,
    owner: BuildingFootprint,
    linked: Seq<BuildingFootprint>,
    joined: Seq<CellCoord>,
    c: CellCoord,
) -> bool {
    cands.contains(c) && !joined.contains(c) && joins_network(c, owner, linked, joined)
}

/// The frontier cell that comes first in row-major order, if any.
pub open spec fn next_to_join(
    cands: Seq<CellCoord>,
    owner: BuildingFootprint,
    linked: Seq<BuildingFootprint>,
    joined: Seq<CellCoord>,
) -> Option<CellCoord> {
    if exists|c: CellCoord| #[trigger] on_frontier(cands, owner, linked, joined, c)
        && forall|d: CellCoord| on_frontier(cands, owner, linked, joined, d) ==> row_major_le(c, d) {
        Some(choose|c: CellCoord| #[trigger] on_frontier(cands, owner, linked, joined, c)
            && forall|d: CellCoord| on_frontier(cands, owner, linked, joined, d) ==> row_major_le(c, d))
    } else {
        None
    }
}

/// The cells joined after `steps` rounds that each add the first frontier
/// cell in row-major order, in the order they joined; growth stops once the
/// frontier is empty.
pub open spec fn grown(
    cands: Seq<CellCoord>,
    owner: BuildingFootprint,
    linked: Seq<BuildingFootprint>,
    steps: nat,
) -> Seq<CellCoord>
    decreases steps,
{
    if steps == 0 {
        seq![]
    } else {
        let g = grown(cands, owner, linked, (steps - 1) as nat);
        match next_to_join(cands, owner, linked, g) {
            Some(c) => g.push(c),
            None => g,
        }
    }
}

/// Whether a footprint covers the cell at `(x, y)`, where the coordinates may
/// lie one step outside the `i32` range.
fn covers_near(f: BuildingFootprint, x: i32, y: i32, dx: i8, dy: i8) -> (r: bool)
    requires
        -1 <= dx <= 1,
        -1 <= dy <= 1,
    ensures
        r == covers_xy(f, x + dx, y + dy),
{
    let nx: i64 = x as i64 + dx as i64;
    let ny: i64 = y as i64 + dy as i64;
    if nx < i32::MIN as i64 || nx > i32::MAX as i64 || ny < i32::MIN as i64 || ny > i32::MAX as i64 {
        proof {
            assert(!covers_xy(f, x + dx, y + dy));
        }
        return false;
    }
    let c = CellCoord::new(nx as i32, ny as i32);
    f.contains(c)
}

/// Whether a footprint covers a cardinal neighbour of a cell.
fn footprint_borders(f: BuildingFootprint, c: CellCoord) -> (r: bool)
    ensures
        r == borders(f, c),
{
    covers_near(f, c.x, c.y, 1, 0) || covers_near(f, c.x, c.y, -1, 0) || covers_near(f, c.x, c.y, 0, 1)
        || covers_near(f, c.x, c.y, 0, -1)
}

/// Whether two cells share an edge.
fn adjacent(a: CellCoord, b: CellCoord) -> (r: bool)
    ensures
        r == cells_adjacent(a, b),
{
    let dx: i64 = a.x as i64 - b.x as i64;
    let dy: i64 = a.y as i64 - b.y as i64;
    (dy == 0 && (dx == 1 || dx == -1)) || (dx == 0 && (dy == 1 || dy == -1))
}

/// Whether a cell is listed.
pub fn cell_listed(cells: &[CellCoord], c: CellCoord) -> (r: bool)
    ensures
        r == cells@.contains(c),
{
    let mut i: usize = 0;
    while i < cells.len()
        invariant
            0 <= i <= cells@.len(),
            forall|k: int| 0 <= k < i ==> cells@[k] != c,
        decreases cells@.len() - i,
    {
        if cells[i] == c {
            proof {
                assert(cells@[i as int] == c);
            }
            return true;
        }
        i = i + 1;
    }
    false
}

/// Whether a cell joins the owner's plot network (see `joins_network`).
pub fn joins_plot_network(
    c: CellCoord,
    owner: BuildingFootprint,
    linked: &[BuildingFootprint],
    joined: &[CellCoord],
) -> (r: bool)
    ensures
        r == joins_network(c, owner, linked@, joined@),
{
    if footprint_borders(owner, c) {
        return true;
    }
    let mut i: usize = 0;
    while i < linked.len()
        invariant
            0 <= i <= linked@.len(),
            forall|k: int| 0 <= k < i ==> !borders(#[trigger] linked@[k], c),
        decreases linked@.len() - i,
    {
        if footprint_borders(linked[i], c) {
            return true;
        }
        i = i + 1;
    }
    let mut j: usize = 0;
    while j < joined.len()
        invariant
            0 <= j <= joined@.len(),
            forall|k: int| 0 <= k < j ==> !cells_adjacent(c, #[trigger] joined@[k]),
        decreases joined@.len() - j,
    {
        if adjacent(c, joined[j]) {
            return true;
        }
        j = j + 1;
    }
    false
}


/// How many entries of a sequence are `true`.
pub open spec fn count_true(s: Seq<bool>) -> nat
    decreases s.len(),
{
    if s.len() == 0 {
        0
    } else {
        count_true(s.drop_last()) + if s.last() { 1nat } else { 0nat }
    }
}

proof fn lemma_count_true_bounded(s: Seq<bool>)
    ensures
        count_true(s) <= s.len(),
    decreases s.len(),
{
    if s.len() > 0 {
        lemma_count_true_bounded(s.drop_last());
    }
}

proof fn lemma_count_true_set(s: Seq<bool>, i: int)
    requires
        0 <= i < s.len(),
        !s[i],
    ensures
        count_true(s.update(i, true)) == count_true(s) + 1,
    decreases s.len(),
{
    let t = s.update(i, true);
    if i == s.len() - 1 {
        assert(t.drop_last() =~= s.drop_last());
    } else {
        assert(t.drop_last() =~= s.drop_last().update(i, true));
        lemma_count_true_set(s.drop_last(), i);
    }
}

proof fn lemma_count_true_none(s: Seq<bool>)
    requires
        forall|i: int| 0 <= i < s.len() ==> !s[i],
    ensures
        count_true(s) == 0,
    decreases s.len(),
{
    if s.len() > 0 {
        lemma_count_true_none(s.drop_last());
    }
}

/// Once the frontier is empty, further rounds change nothing.
proof fn lemma_grown_stops(
    cands: Seq<CellCoord>,
    owner: BuildingFootprint,
    linked: Seq<BuildingFootprint>,
    m: nat,
    k: nat,
)
    requires
        m <= k,
        next_to_join(cands, owner, linked, grown(cands, owner, linked, m)) is None,
    ensures
        grown(cands, owner, linked, k) == grown(cands, owner, linked, m),
    decreases k - m,
{
    if k > m {
        lemma_grown_stops(cands, owner, linked, m, (k - 1) as nat);
    }
}

/// The cells that join an owner's plot network, one at a time: each round
/// adds the candidate that comes first in row-major order among those that
/// border the owner's footprint, a linked plot, or a cell joined earlier;
/// growth stops at `capacity` cells or when no candidate can join.
pub fn connected_cells(
    cands: &[CellCoord],
    capacity: usize,
    owner: BuildingFootprint,
    linked: &[BuildingFootprint],
) -> (r: Vec<CellCoord>)
    ensures
        r@ == grown(cands@, owner, linked@, capacity as nat),
{
    let mut joined: Vec<CellCoord> = Vec::new();
    let mut taken: Vec<bool> = Vec::new();
    let mut t: usize = 0;
    while t < cands.len()
        invariant
            0 <= t <= cands@.len(),
            taken@ =~= Seq::new(t as nat, |i: int| false),
        decreases cands@.len() - t,
    {
        taken.push(false);
        t = t + 1;
    }
    proof {
        lemma_count_true_none(taken@);
    }
    loop
        invariant
            taken@.len() == cands@.len(),
            forall|i: int| 0 <= i < cands@.len() ==> (taken@[i] ==> joined@.contains(cands@[i])),
            count_true(taken@) == joined@.len(),
            count_true(taken@) <= taken@.len(),
            joined@ == grown(cands@, owner, linked@, joined@.len() as nat),
            joined@.len() <= capacity,
        ensures
            joined@ == grown(cands@, owner, linked@, capacity as nat),
        decreases cands@.len() - count_true(taken@),
    {
        if joined.len() >= capacity {
            break;
        }
        let mut best: Option<usize> = None;
        let mut i: usize = 0;
        while i < cands.len()
            invariant
                0 <= i <= cands@.len(),
                taken@.len() == cands@.len(),
                best is None ==> forall|k: int| 0 <= k < i ==> !on_frontier(cands@, owner, linked@, joined@, #[trigger] cands@[k]),
                best matches Some(b) ==> {
                    &&& b < i
                    &&& on_frontier(cands@, owner, linked@, joined@, cands@[b as int])
                    &&& forall|k: int| 0 <= k < i && on_frontier(cands@, owner, linked@, joined@, #[trigger] cands@[k])
                        ==> row_major_le(cands@[b as int], cands@[k])
                },
            decreases cands@.len() - i,
        {
            let c = cands[i];
            proof {
                assert(cands@.contains(cands@[i as int]));
            }
            if !cell_listed(joined.as_slice(), c) && joins_plot_network(c, owner, linked, joined.as_slice()) {
                match best {
                    None => {
                        best = Some(i);
                    },
                    Some(b) => {
                        let e = cands[b];
                        if c.y < e.y || (c.y == e.y && c.x < e.x) {
                            best = Some(i);
                        }
                    },
                }
            }
            i = i + 1;
        }
        match best {
            None => {
                proof {
                    let g = joined@;
                    assert forall|c: CellCoord| !on_frontier(cands@, owner, linked@, g, c) by {
                        if on_frontier(cands@, owner, linked@, g, c) {
                            let k = choose|k: int| 0 <= k < cands@.len() && cands@[k] == c;
                            assert(!on_frontier(cands@, owner, linked@, g, cands@[k]));
                        }
                    }
                    assert(next_to_join(cands@, owner, linked@, g) is None);
                    lemma_grown_stops(cands@, owner, linked@, g.len(), capacity as nat);
                }
                break;
            },
            Some(b) => {
                let c = cands[b];
                let ghost g = joined@;
                let ghost before = taken@;
                proof {
                    assert(!before[b as int]);
                    assert forall|d: CellCoord| on_frontier(cands@, owner, linked@, g, d) implies row_major_le(c, d) by {
                        let k = choose|k: int| 0 <= k < cands@.len() && cands@[k] == d;
                        assert(on_frontier(cands@, owner, linked@, g, cands@[k]));
                    }
                    let ch = choose|x: CellCoord| #[trigger] on_frontier(cands@, owner, linked@, g, x)
                        && forall|d: CellCoord| on_frontier(cands@, owner, linked@, g, d) ==> row_major_le(x, d);
                    assert(on_frontier(cands@, owner, linked@, g, c));
                    assert(next_to_join(cands@, owner, linked@, g) == Some(ch));
                    assert(row_major_le(ch, c));
                    assert(row_major_le(c, ch));
                    assert(ch == c);
                    assert(grown(cands@, owner, linked@, (g.len() + 1) as nat) == g.push(c));
                    lemma_count_true_set(taken@, b as int);
                    lemma_count_true_bounded(taken@.update(b as int, true));
                }
                joined.push(c);
                taken.set(b, true);
                proof {
                    assert forall|k: int| 0 <= k < cands@.len() && #[trigger] taken@[k] implies joined@.contains(cands@[k]) by {
                        if k == b {
                            assert(joined@[g.len() as int] == c);
                        } else {
                            assert(before[k]);
                            let m = choose|m: int| 0 <= m < g.len() && g[m] == cands@[k];
                            assert(joined@[m] == cands@[k]);
                        }
                    }
                }
            },
        }
    }
    joined
}



/// A field or tree plot, as a blueprint or constructed, with the entity
/// that owns it.
#[derive(Debug, Clone, Copy, PartialEq, Eq, Structural)]
pub struct LinkedPlot {
    pub footprint: BuildingFootprint,
    pub constructed: bool,
    pub owner: EntityId,
}

/// How many of the first `n` plots belong to the owner (counting only
/// constructed ones when `constructed_only`).
pub open spec fn plots_of(plots: Seq<LinkedPlot>, owner: EntityId, n: int, constructed_only: bool) -> nat
    decreases n,
{
    if n <= 0 {
        0
    } else {
        plots_of(plots, owner, n - 1, constructed_only) + if plots[n - 1].owner == owner && (!constructed_only
            || plots[n - 1].constructed) {
            1nat
        } else {
            0nat
        }
    }
}

proof fn lemma_plots_of_bounded(plots: Seq<LinkedPlot>, owner: EntityId, n: int, constructed_only: bool)
    requires
        0 <= n,
    ensures
        plots_of(plots, owner, n, constructed_only) <= n,
        plots_of(plots, owner, n, true) <= plots_of(plots, owner, n, false),
    decreases n,
{
    if n > 0 {
        lemma_plots_of_bounded(plots, owner, n - 1, constructed_only);
    }
}

/// The plots an owner has, and how many of them are constructed.
pub fn linked_plot_counts(plots: &[LinkedPlot], owner: EntityId) -> (r: (usize, usize))
    ensures
        r.0 == plots_of(plots@, owner, plots@.len() as int, false),
        r.1 == plots_of(plots@, owner, plots@.len() as int, true),
{
    let mut linked: usize = 0;
    let mut constructed: usize = 0;
    let mut i: usize = 0;
    while i < plots.len()
        invariant
            0 <= i <= plots@.len(),
            linked == plots_of(plots@, owner, i as int, false),
            constructed == plots_of(plots@, owner, i as int, true),
        decreases plots@.len() - i,
    {
        proof {
            lemma_plots_of_bounded(plots@, owner, i as int, false);
        }
        if plots[i].owner == owner {
            linked = linked + 1;
            if plots[i].constructed {
                constructed = constructed + 1;
            }
        }
        i = i + 1;
    }
    (linked, constructed)
}

/// The footprints of the first `n` plots that belong to the owner, in order.
pub open spec fn owned_footprints(plots: Seq<LinkedPlot>, owner: EntityId, n: int) -> Seq<BuildingFootprint>
    decreases n,
{
    if n <= 0 {
        seq![]
    } else {
        owned_footprints(plots, owner, n - 1) + if plots[n - 1].owner == owner {
            seq![plots[n - 1].footprint]
        } else {
            seq![]
        }
    }
}

/// The footprints of an owner's plots, in order.
pub fn linked_plot_footprints(plots: &[LinkedPlot], owner: EntityId) -> (r: Vec<BuildingFootprint>)
    ensures
        r@ == owned_footprints(plots@, owner, plots@.len() as int),
{
    let mut out: Vec<BuildingFootprint> = Vec::new();
    let mut i: usize = 0;
    while i < plots.len()
        invariant
            0 <= i <= plots@.len(),
            out@ == owned_footprints(plots@, owner, i as int),
        decreases plots@.len() - i,
    {
        if plots[i].owner == owner {
            out.push(plots[i].footprint);
            proof {
                assert(out@ =~= owned_footprints(plots@, owner, i as int) + seq![plots@[i as int].footprint]);
            }
        } else {
            proof {
                assert(out@ =~= owned_footprints(plots@, owner, i as int) + Seq::<BuildingFootprint>::empty());
            }
        }
        i = i + 1;
    }
    out
}


/// When some candidate is on the frontier, one of them comes first in
/// row-major order.
proof fn lemma_frontier_has_first(
    cands: Seq<CellCoord>,
    owner: BuildingFootprint,
    linked: Seq<BuildingFootprint>,
    joined: Seq<CellCoord>,
    n: int,
)
    requires
        0 <= n <= cands.len(),
        exists|i: int| 0 <= i < n && on_frontier(cands, owner, linked, joined, #[trigger] cands[i]),
    ensures
        exists|m: int| 0 <= m < n && on_frontier(cands, owner, linked, joined, #[trigger] cands[m])
            && forall|i: int| 0 <= i < n && on_frontier(cands, owner, linked, joined, #[trigger] cands[i])
                ==> row_major_le(cands[m], cands[i]),
    decreases n,
{
    if exists|i: int| 0 <= i < n - 1 && on_frontier(cands, owner, linked, joined, #[trigger] cands[i]) {
        lemma_frontier_has_first(cands, owner, linked, joined, n - 1);
        let m = choose|m: int| 0 <= m < n - 1 && on_frontier(cands, owner, linked, joined, #[trigger] cands[m])
            && forall|i: int| 0 <= i < n - 1 && on_frontier(cands, owner, linked, joined, #[trigger] cands[i])
                ==> row_major_le(cands[m], cands[i]);
        if on_frontier(cands, owner, linked, joined, cands[n - 1]) && !row_major_le(cands[m], cands[n - 1]) {
            assert forall|i: int| 0 <= i < n && on_frontier(cands, owner, linked, joined, #[trigger] cands[i])
                implies row_major_le(cands[n - 1], cands[i]) by {
                if i < n - 1 {
                    assert(row_major_le(cands[m], cands[i]));
                }
            }
        } else {
            assert forall|i: int| 0 <= i < n && on_frontier(cands, owner, linked, joined, #[trigger] cands[i])
                implies row_major_le(cands[m], cands[i]) by {
                if i < n - 1 {
                    assert(row_major_le(cands[m], cands[i]));
                }
            }
        }
    } else {
        assert(on_frontier(cands, owner, linked, joined, cands[n - 1]));
        assert forall|i: int| 0 <= i < n && on_frontier(cands, owner, linked, joined, #[trigger] cands[i])
            implies row_major_le(cands[n - 1], cands[i]) by {
            if i < n - 1 {
                assert(!on_frontier(cands, owner, linked, joined, cands[i]));
            }
        }
    }
}

/// With an empty next step, no candidate is on the frontier.
proof fn lemma_no_next_means_closed(
    cands: Seq<CellCoord>,
    owner: BuildingFootprint,
    linked: Seq<BuildingFootprint>,
    joined: Seq<CellCoord>,
    c: CellCoord,
)
    requires
        next_to_join(cands, owner, linked, joined) is None,
    ensures
        !on_frontier(cands, owner, linked, joined, c),
{
    if on_frontier(cands, owner, linked, joined, c) {
        let k = choose|k: int| 0 <= k < cands.len() && cands[k] == c;
        assert(on_frontier(cands, owner, linked, joined, cands[k]));
        lemma_frontier_has_first(cands, owner, linked, joined, cands.len() as int);
        let m = choose|m: int| 0 <= m < cands.len() && on_frontier(cands, owner, linked, joined, #[trigger] cands[m])
            && forall|i: int| 0 <= i < cands.len() && on_frontier(cands, owner, linked, joined, #[trigger] cands[i])
                ==> row_major_le(cands[m], cands[i]);
        assert forall|d: CellCoord| on_frontier(cands, owner, linked, joined, d) implies row_major_le(cands[m], d) by {
            let j = choose|j: int| 0 <= j < cands.len() && cands[j] == d;
            assert(on_frontier(cands, owner, linked, joined, cands[j]));
        }
        assert(on_frontier(cands, owner, linked, joined, cands[m]));
    }
}

/// Growth joins distinct candidates, one per round until it stops.
pub(crate) proof fn lemma_grown_shape(cands: Seq<CellCoord>, owner: BuildingFootprint, linked: Seq<BuildingFootprint>, k: nat)
    ensures
        grown(cands, owner, linked, k).no_duplicates(),
        grown(cands, owner, linked, k).len() <= k,
        forall|c: CellCoord| grown(cands, owner, linked, k).contains(c) ==> cands.contains(c),
        grown(cands, owner, linked, k).len() == k || next_to_join(cands, owner, linked, grown(cands, owner, linked, k)) is None,
    decreases k,
{
    if k > 0 {
        lemma_grown_shape(cands, owner, linked, (k - 1) as nat);
        let g = grown(cands, owner, linked, (k - 1) as nat);
        match next_to_join(cands, owner, linked, g) {
            Some(c) => {
                let ch = choose|x: CellCoord| #[trigger] on_frontier(cands, owner, linked, g, x)
                    && forall|d: CellCoord| on_frontier(cands, owner, linked, g, d) ==> row_major_le(x, d);
                assert(c == ch);
                assert(on_frontier(cands, owner, linked, g, c));
                let gk = g.push(c);
                assert(grown(cands, owner, linked, k) == gk);
                assert forall|a: int, b: int| 0 <= a < b < gk.len() implies gk[a] != gk[b] by {
                    if b == gk.len() - 1 {
                        assert(g.contains(gk[a]));
                    }
                }
                assert forall|x: CellCoord| gk.contains(x) implies cands.contains(x) by {
                    let i = choose|i: int| 0 <= i < gk.len() && gk[i] == x;
                    if i < g.len() {
                        assert(g.contains(x));
                    }
                }
            },
            None => {},
        }
    }
}

/// Growing for at least as many rounds as there are candidates leaves no
/// candidate that could still join: every candidate that borders the
/// owner, a linked plot, or a joined cell has joined.
pub proof fn lemma_exhaustive_growth_is_closed(
    cands: Seq<CellCoord>,
    owner: BuildingFootprint,
    linked: Seq<BuildingFootprint>,
    steps: nat,
    c: CellCoord,
)
    requires
        steps >= cands.len(),
        cands.contains(c),
        joins_network(c, owner, linked, grown(cands, owner, linked, steps)),
    ensures
        grown(cands, owner, linked, steps).contains(c),
{
    let g = grown(cands, owner, linked, steps);
    lemma_grown_shape(cands, owner, linked, steps);
    if next_to_join(cands, owner, linked, g) is None {
        lemma_no_next_means_closed(cands, owner, linked, g, c);
    } else {
        g.unique_seq_to_set();
        cands.lemma_cardinality_of_set();
        assert(g.to_set().subset_of(cands.to_set()));
        vstd::set_lib::lemma_len_subset(g.to_set(), cands.to_set());
        vstd::set_lib::lemma_subset_equality(g.to_set(), cands.to_set());
        assert(cands.to_set().contains(c));
        assert(g.to_set().contains(c));
    }
}

} // verus!
