use game_engine::grid::{CellCoord, Grid, GridSize};

#[test]
fn test_grid_new() {
    let g = Grid::new(10, 5);
    assert_eq!(g.width(), 10);
    assert_eq!(g.height(), 5);
}

#[test]
fn test_contains_bounds() {
    let g = Grid::new(10, 10);
    assert!(g.size().contains(CellCoord::new(5, 5)));
    assert!(!g.size().contains(CellCoord::new(-1, 0)));
    assert!(!g.size().contains(CellCoord::new(10, 0)));
    assert!(!g.size().contains(CellCoord::new(0, -1)));
    assert!(!g.size().contains(CellCoord::new(0, 10)));
}

#[test]
fn test_iter_coords_matches_cell_count() {
    let size = GridSize::new(10, 10);
    assert_eq!(Some(size.iter_coords().len()), size.cell_count());
}

#[test]
fn iter_coords_lists_cells_row_major() {
    let coords = GridSize::new(3, 2).iter_coords();
    assert_eq!(
        coords,
        vec![
            CellCoord::new(0, 0),
            CellCoord::new(1, 0),
            CellCoord::new(2, 0),
            CellCoord::new(0, 1),
            CellCoord::new(1, 1),
            CellCoord::new(2, 1),
        ]
    );
    assert!(GridSize::new(0, 7).iter_coords().is_empty());
}

#[test]
fn from_usize_rejects_values_beyond_i32() {
    assert_eq!(CellCoord::from_usize(3, 4), Some(CellCoord::new(3, 4)));
    assert_eq!(CellCoord::from_usize(1 << 31, 0), None);
    assert_eq!(CellCoord::from_usize(0, (1 << 31) - 1), Some(CellCoord::new(0, i32::MAX)));
}

#[test]
fn cell_count_detects_overflow_and_axes_convert_to_i32() {
    assert_eq!(GridSize::new(usize::MAX, 2).cell_count(), None);
    assert_eq!(GridSize::new(7, 3).cell_count(), Some(21));
    assert_eq!(GridSize::new(7, 3).width_i32(), Some(7));
    assert_eq!(GridSize::new(1 << 31, 3).width_i32(), None);
    assert_eq!(GridSize::new(7, 1 << 31).height_i32(), None);
}
