use vstd::prelude::*;

verus! {

/// Largest number of cells along one axis whose coordinates fit in `i32`.
pub open spec fn axis_limit() -> int {
    0x8000_0000
}

/// A cell of the surface grid, addressed by column `x` and row `y`.
#[derive(Debug, Clone, Copy, PartialEq, Eq, Hash, Structural)]
pub struct CellCoord {
    pub x: i32,
    pub y: i32,
}

impl CellCoord {
    pub fn new(x: i32, y: i32) -> (r: Self)
        ensures
            r.x == x,
            r.y == y,
    {
        Self { x, y }
    }

    /// Converts unsigned grid indices, failing when either does not fit in `i32`.
    pub fn from_usize(x: usize, y: usize) -> (r: Option<Self>)
        ensures
            r is Some <==> (x < axis_limit() && y < axis_limit()),
            r matches Some(c) ==> c.x == x && c.y == y,
    {
        if x <= i32::MAX as usize && y <= i32::MAX as usize {
            Some(Self { x: x as i32, y: y as i32 })
        } else {
            None
        }
    }

    pub fn x(self) -> (r: i32)
        ensures
            r == self.x,
    {
        self.x
    }

    pub fn y(self) -> (r: i32)
        ensures
            r == self.y,
    {
        self.y
    }
}

/// Row-major order on cells: by row, then by column.
pub open spec fn row_major_le(a: CellCoord, b: CellCoord) -> bool {
    a.y < b.y || (a.y == b.y && a.x <= b.x)
}

/// Strict row-major order on cells.
pub open spec fn row_major_lt(a: CellCoord, b: CellCoord) -> bool {
    a.y < b.y || (a.y == b.y && a.x < b.x)
}

/// Exact row-major comparison of two cells.
pub fn row_major_less(a: CellCoord, b: CellCoord) -> (r: bool)
    ensures
        r == row_major_lt(a, b),
{
    a.y < b.y || (a.y == b.y && a.x < b.x)
}

/// Width and height of a rectangular grid of cells.
#[derive(Debug, Clone, Copy, PartialEq, Eq, Hash, Structural)]
pub struct GridSize {
    pub width: usize,
    pub height: usize,
}

/// Number of columns that `iter_coords` can address.
pub open spec fn addressable_width(size: GridSize) -> int {
    if size.width < axis_limit() { size.width as int } else { axis_limit() }
}

/// Number of rows that `iter_coords` can address.
pub open spec fn addressable_height(size: GridSize) -> int {
    if size.height < axis_limit() { size.height as int } else { axis_limit() }
}

/// Whether a cell lies inside a grid of the given size.
pub open spec fn grid_contains(size: GridSize, coord: CellCoord) -> bool {
    0 <= coord.x && 0 <= coord.y && coord.x < size.width && coord.y < size.height
}

/// The row-major coordinate at position `i` of the cell listing of a grid.
pub open spec fn row_major_coord(width: int, i: int) -> CellCoord {
    CellCoord { x: (i % width) as i32, y: (i / width) as i32 }
}

/// Row-major listing of every addressable cell of a grid.
pub open spec fn spec_iter_coords(size: GridSize) -> Seq<CellCoord> {
    Seq::new(
        (addressable_width(size) * addressable_height(size)) as nat,
        |i: int| row_major_coord(addressable_width(size), i),
    )
}

impl GridSize {
    pub fn new(width: usize, height: usize) -> (r: Self)
        ensures
            r.width == width,
            r.height == height,
    {
        Self { width, height }
    }

    pub fn width(self) -> (r: usize)
        ensures
            r == self.width,
    {
        self.width
    }

    pub fn height(self) -> (r: usize)
        ensures
            r == self.height,
    {
        self.height
    }

    pub fn width_i32(self) -> (r: Option<i32>)
        ensures
            r is Some <==> self.width < axis_limit(),
            r matches Some(w) ==> w == self.width,
    {
        if self.width <= i32::MAX as usize {
            Some(self.width as i32)
        } else {
            None
        }
    }

    pub fn height_i32(self) -> (r: Option<i32>)
        ensures
            r is Some <==> self.height < axis_limit(),
            r matches Some(h) ==> h == self.height,
    {
        if self.height <= i32::MAX as usize {
            Some(self.height as i32)
        } else {
            None
        }
    }

    pub fn cell_count(self) -> (r: Option<usize>)
        ensures
            r is Some <==> self.width * self.height <= usize::MAX,
            r matches Some(n) ==> n == self.width * self.height,
    {
        self.width.checked_mul(self.height)
    }

    pub fn contains(self, coord: CellCoord) -> (r: bool)
        ensures
            r == grid_contains(self, coord),
    {
        if coord.x < 0 || coord.y < 0 {
            return false;
        }
        (coord.x as usize) < self.width && (coord.y as usize) < self.height
    }

    /// Every addressable cell in row-major order (rows from the top, then columns).
    pub fn iter_coords(self) -> (r: Vec<CellCoord>)
        ensures
            r@ == spec_iter_coords(self),
    {
        let w: usize = if self.width <= i32::MAX as usize { self.width } else { 0x8000_0000 };
        let h: usize = if self.height <= i32::MAX as usize { self.height } else { 0x8000_0000 };
        let mut coords: Vec<CellCoord> = Vec::new();
        let mut y: usize = 0;
        while y < h
            invariant
                w == addressable_width(self),
                h == addressable_height(self),
                y <= h,
                coords@.len() == y * w,
                forall|j: int|
                    0 <= j < coords@.len() ==> #[trigger] coords@[j] == row_major_coord(w as int, j),
            decreases h - y,
        {
            let mut x: usize = 0;
            while x < w
                invariant
                    w == addressable_width(self),
                    h == addressable_height(self),
                    y < h,
                    x <= w,
                    coords@.len() == y * w + x,
                    forall|j: int|
                        0 <= j < coords@.len() ==> #[trigger] coords@[j] == row_major_coord(
                            w as int,
                            j,
                        ),
                decreases w - x,
            {
                proof {
                    lemma_row_major_index(w as int, y as int, x as int);
                }
                coords.push(CellCoord { x: x as i32, y: y as i32 });
                x = x + 1;
            }
            proof {
                assert((y + 1) * w == y * w + w) by (nonlinear_arith);
            }
            y = y + 1;
        }
        proof {
            vstd::arithmetic::mul::lemma_mul_is_commutative(w as int, h as int);
            assert(coords@ =~= spec_iter_coords(self));
        }
        coords
    }
}

/// The row-major position `y * w + x` decodes back to column `x` and row `y`.
pub proof fn lemma_row_major_index(w: int, y: int, x: int)
    requires
        0 <= x < w,
        0 <= y,
    ensures
        (y * w + x) % w == x,
        (y * w + x) / w == y,
{
    vstd::arithmetic::div_mod::lemma_fundamental_div_mod_converse(y * w + x, w, y, x);
}

/// The surface grid resource.
#[derive(Debug, Clone)]
pub struct Grid {
    size: GridSize,
}

impl Grid {
    pub closed spec fn spec_size(&self) -> GridSize {
        self.size
    }

    pub fn new(width: usize, height: usize) -> (r: Self)
        ensures
            r.spec_size() == (GridSize { width, height }),
    {
        Self { size: GridSize::new(width, height) }
    }

    pub fn size(&self) -> (r: GridSize)
        ensures
            r == self.spec_size(),
    {
        self.size
    }

    pub fn width(&self) -> (r: usize)
        ensures
            r == self.spec_size().width,
    {
        self.size.width
    }

    pub fn height(&self) -> (r: usize)
        ensures
            r == self.spec_size().height,
    {
        self.size.height
    }
}

/// Every cell listed by `iter_coords` lies inside the grid, and when both
/// dimensions are addressable the listing has exactly `width * height` cells.
pub proof fn lemma_iter_coords_cover_grid(size: GridSize)
    ensures
        forall|i: int|
            0 <= i < spec_iter_coords(size).len() ==> grid_contains(
                size,
                #[trigger] spec_iter_coords(size)[i],
            ),
        size.width <= axis_limit() && size.height <= axis_limit() ==> spec_iter_coords(size).len()
            == size.width * size.height,
{
    let w = addressable_width(size);
    let h = addressable_height(size);
    assert forall|i: int| 0 <= i < spec_iter_coords(size).len() implies grid_contains(
        size,
        #[trigger] spec_iter_coords(size)[i],
    ) by {
        assert(0 <= i < w * h);
        assert(w > 0) by (nonlinear_arith)
            requires
                0 <= i < w * h,
                h >= 0,
        ;
        vstd::arithmetic::div_mod::lemma_div_pos_is_pos(i, w);
        vstd::arithmetic::div_mod::lemma_mod_bound(i, w);
        vstd::arithmetic::div_mod::lemma_multiply_divide_lt(i, w, h);
        vstd::arithmetic::div_mod::lemma_div_nonincreasing(i, w);
    }
}

} // verus!
