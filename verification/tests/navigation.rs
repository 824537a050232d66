use game_engine::buildings::{BuildingFootprint, BuildingKind};
use game_engine::collision::Structure;
use game_engine::components::TerrainKind;
use game_engine::grid::{CellCoord, GridSize};
use game_engine::navigation::{sort_and_deduplicate, NavigationSnapshot, NpcRoute};

fn snapshot(size: GridSize, walkable: Vec<bool>) -> NavigationSnapshot {
    NavigationSnapshot::from_walkable(size, walkable).expect("one flag per cell")
}

fn open_grid(width: usize, height: usize) -> Vec<bool> {
    vec![true; width * height]
}

#[test]
fn shortest_path_can_exit_a_starting_cell_that_became_blocked() {
    let size = GridSize::new(3, 1);
    let snapshot = snapshot(size, vec![false, true, true]);

    assert_eq!(
        snapshot.shortest_path(CellCoord::new(0, 0), CellCoord::new(2, 0)),
        Some(vec![
            CellCoord::new(0, 0),
            CellCoord::new(1, 0),
            CellCoord::new(2, 0),
        ])
    );
}

#[test]
fn route_goals_are_normalized_to_row_major_unique_order() {
    let route = NpcRoute::new(&[
        CellCoord::new(2, 2),
        CellCoord::new(1, 1),
        CellCoord::new(2, 2),
        CellCoord::new(0, 1),
    ]);

    assert_eq!(
        route.goals(),
        &[
            CellCoord::new(0, 1),
            CellCoord::new(1, 1),
            CellCoord::new(2, 2),
        ]
    );
}

#[test]
fn reusable_distances_choose_reachable_row_major_ties() {
    let size = GridSize::new(5, 3);
    let mut walkable = open_grid(5, 3);
    for y in 0..3 {
        walkable[y * 5 + 3] = false;
    }
    let snapshot = snapshot(size, walkable);

    let distances = snapshot
        .distances_from(CellCoord::new(1, 1))
        .expect("origin should be in bounds");

    assert_eq!(
        distances.closest_reachable(&[
            CellCoord::new(4, 1),
            CellCoord::new(2, 2),
            CellCoord::new(0, 0),
            CellCoord::new(2, 2),
        ]),
        Some((CellCoord::new(0, 0), 2))
    );
    assert_eq!(distances.closest_reachable(&[CellCoord::new(4, 1)]), None);
}

#[test]
fn reusable_distances_can_exit_a_blocked_origin() {
    let size = GridSize::new(3, 1);
    let snapshot = snapshot(size, vec![false, true, true]);
    let distances = snapshot
        .distances_from(CellCoord::new(0, 0))
        .expect("origin should be in bounds");

    assert_eq!(
        distances.closest_reachable(&[CellCoord::new(2, 0), CellCoord::new(0, 0)]),
        Some((CellCoord::new(0, 0), 0))
    );
    assert_eq!(
        distances.closest_reachable(&[CellCoord::new(2, 0)]),
        Some((CellCoord::new(2, 0), 2))
    );
}

#[test]
fn targeted_refresh_changes_revision_only_when_walkability_changes() {
    let size = GridSize::new(3, 2);
    let mut snapshot = snapshot(size, open_grid(3, 2));
    let coord = CellCoord::new(1, 0);
    let initial = snapshot.fingerprint();

    assert!(!snapshot.refresh_cells(&[(coord, true), (coord, true)]));
    assert_eq!(snapshot.fingerprint(), initial);

    assert!(snapshot.refresh_cells(&[(coord, false)]));
    assert!(!snapshot.is_walkable(coord));
    assert_ne!(snapshot.fingerprint(), initial);

    let blocked_revision = snapshot.fingerprint();
    assert!(!snapshot.refresh_cells(&[(coord, false)]));
    assert_eq!(snapshot.fingerprint(), blocked_revision);

    assert!(snapshot.refresh_cells(&[(coord, true)]));
    assert!(snapshot.is_walkable(coord));
    assert_ne!(snapshot.fingerprint(), blocked_revision);
}

fn grass(size: GridSize) -> Vec<Option<TerrainKind>> {
    vec![Some(TerrainKind::Grass); size.width() * size.height()]
}

#[test]
fn non_blocking_blueprint_does_not_advance_navigation_revision() {
    let size = GridSize::new(3, 2);
    let initial = NavigationSnapshot::from_layout(size, &grass(size), &[], &[]).expect("layout covers the grid");
    let footprint = BuildingFootprint::new(CellCoord::new(0, 0), 2, 1);
    let structures = [Structure { kind: BuildingKind::Field, footprint }];
    let refreshed =
        NavigationSnapshot::from_layout(size, &grass(size), &[], &structures).expect("layout covers the grid");

    assert_eq!(refreshed.fingerprint(), initial.fingerprint());
    assert!(footprint.iter_coords().iter().all(|coord| refreshed.is_walkable(*coord)));
}

#[test]
fn blocking_blueprint_refreshes_its_footprint_and_advances_revision() {
    let size = GridSize::new(4, 2);
    let initial = NavigationSnapshot::from_layout(size, &grass(size), &[], &[]).expect("layout covers the grid");
    let footprint = BuildingFootprint::new(CellCoord::new(1, 0), 2, 1);
    let structures = [Structure { kind: BuildingKind::Warehouse, footprint }];
    let refreshed =
        NavigationSnapshot::from_layout(size, &grass(size), &[], &structures).expect("layout covers the grid");

    assert_ne!(refreshed.fingerprint(), initial.fingerprint());
    assert!(footprint.iter_coords().iter().all(|coord| !refreshed.is_walkable(*coord)));
}

#[test]
fn bfs_distances_follow_walls() {
    let size = GridSize::new(3, 3);
    let mut walkable = open_grid(3, 3);
    walkable[1 * 3 + 1] = false;
    let snapshot = snapshot(size, walkable);
    let distances = snapshot.distances_from(CellCoord::new(0, 0)).expect("in bounds");
    assert_eq!(distances.distance_to(CellCoord::new(2, 2)), Some(4));
    assert_eq!(distances.distance_to(CellCoord::new(1, 1)), None);
    assert!(!distances.is_reachable(CellCoord::new(1, 1)));
    assert_eq!(snapshot.shortest_path(CellCoord::new(0, 0), CellCoord::new(1, 1)), None);
    let path = snapshot.shortest_path(CellCoord::new(0, 0), CellCoord::new(2, 2)).expect("reachable");
    assert_eq!(path.len(), 5);
    assert_eq!(path[0], CellCoord::new(0, 0));
    assert_eq!(path[4], CellCoord::new(2, 2));
}

#[test]
fn out_of_bounds_origin_has_no_distances() {
    let snapshot = snapshot(GridSize::new(2, 2), open_grid(2, 2));
    assert!(snapshot.distances_from(CellCoord::new(5, 0)).is_none());
    assert!(NavigationSnapshot::from_walkable(GridSize::new(2, 2), vec![true; 3]).is_none());
}

#[test]
fn cells_are_sorted_row_major_without_repeats() {
    let cells = vec![CellCoord::new(1, 1), CellCoord::new(0, 1), CellCoord::new(1, 0), CellCoord::new(0, 1)];
    assert_eq!(
        sort_and_deduplicate(&cells),
        vec![CellCoord::new(1, 0), CellCoord::new(0, 1), CellCoord::new(1, 1)]
    );
}

#[test]
fn interaction_cells_surround_a_footprint() {
    let snapshot = snapshot(GridSize::new(4, 4), open_grid(4, 4));
    let footprint = BuildingFootprint::new(CellCoord::new(1, 1), 2, 2);
    let cells = snapshot.exterior_interaction_cells(footprint);
    assert_eq!(cells.len(), 8);
    assert!(cells.iter().all(|c| !footprint.contains(*c)));
    let point = snapshot.point_interaction_cells(CellCoord::new(0, 0));
    assert_eq!(point, vec![CellCoord::new(1, 0), CellCoord::new(0, 1)]);
}
