use game_engine::components::TerrainKind;
use game_engine::entity::EntityId;
use game_engine::grid::{CellCoord, GridSize};
use game_engine::tile::{generate_terrain, mix_hash, start_area_contains, SurfaceGeneration, TileBundle, TileIndex};

const TEST_SEED: u64 = 0x1234_5678_9abc_def0;

fn entity(index: u32) -> EntityId {
    EntityId::from_bits((1u64 << 32) | index as u64)
}

#[test]
fn test_tile_index_set_get() {
    let entity = entity(1);
    let mut index = TileIndex::new(GridSize::new(3, 3));

    assert!(index.set(CellCoord::new(1, 1), entity));
    assert_eq!(index.get(CellCoord::new(1, 1)), Some(entity));
    assert_eq!(index.get(CellCoord::new(3, 0)), None);
}

#[test]
fn test_tile_index_rejects_out_of_bounds_set() {
    let entity = entity(1);
    let mut index = TileIndex::new(GridSize::new(3, 3));

    assert!(!index.set(CellCoord::new(3, 0), entity));
    assert_eq!(index.len(), 0);
}

#[test]
fn terrain_generation_is_deterministic_and_keeps_target_distribution() {
    let size = GridSize::new(100, 100);
    let generation = SurfaceGeneration::new(TEST_SEED, false);
    let first = generate_terrain(size, generation);
    let second = generate_terrain(size, generation);

    assert_eq!(first, second);
    for (kind, expected) in [
        (TerrainKind::Water, 800),
        (TerrainKind::Sand, 1_200),
        (TerrainKind::Dirt, 2_000),
        (TerrainKind::Grass, 6_000),
    ] {
        assert_eq!(
            first.iter().filter(|(_, terrain)| *terrain == kind).count(),
            expected
        );
    }
}

#[test]
fn terrain_generation_does_not_repeat_uniform_aligned_eight_tile_patches() {
    let size = GridSize::new(64, 64);
    let terrain = generate_terrain(size, SurfaceGeneration::new(TEST_SEED, false));

    let every_patch_is_uniform = (0..8).all(|patch_y| {
        (0..8).all(|patch_x| {
            let first_index = patch_y * 8 * size.width() + patch_x * 8;
            let first = terrain[first_index].1;
            (0..8).all(|offset_y| {
                (0..8).all(|offset_x| {
                    let index = (patch_y * 8 + offset_y) * size.width() + patch_x * 8 + offset_x;
                    terrain[index].1 == first
                })
            })
        })
    });

    assert!(!every_patch_is_uniform);
}

#[test]
fn protected_start_area_is_grass_and_clipped_to_the_surface() {
    for size in [GridSize::new(256, 256), GridSize::new(2, 2)] {
        let generation = SurfaceGeneration::new(TEST_SEED, true);
        let terrain = generate_terrain(size, generation);

        for (coord, kind) in terrain {
            if generation.protects(size, coord) {
                assert_eq!(kind, TerrainKind::Grass);
            }
        }
    }
}

#[test]
fn tile_index_lists_recorded_tiles_in_row_major_order() {
    let mut index = TileIndex::new(GridSize::new(2, 2));
    assert!(index.set(CellCoord::new(1, 1), entity(4)));
    assert!(index.set(CellCoord::new(0, 0), entity(1)));
    assert_eq!(index.len(), 2);
    assert_eq!(
        index.iter(),
        vec![(CellCoord::new(0, 0), entity(1)), (CellCoord::new(1, 1), entity(4))]
    );
    assert_eq!(index.size(), GridSize::new(2, 2));
}

#[test]
fn start_area_is_the_three_by_three_block_around_the_center() {
    let size = GridSize::new(10, 10);
    assert!(start_area_contains(size, CellCoord::new(5, 5)));
    assert!(start_area_contains(size, CellCoord::new(4, 6)));
    assert!(!start_area_contains(size, CellCoord::new(3, 5)));
    assert!(!start_area_contains(GridSize::new(0, 4), CellCoord::new(0, 0)));
    assert!(!SurfaceGeneration::new(1, false).protects(size, CellCoord::new(5, 5)));
}

#[test]
fn generated_cells_follow_row_major_order_and_mixing_is_deterministic() {
    let size = GridSize::new(3, 2);
    let terrain = generate_terrain(size, SurfaceGeneration::new(7, false));
    let coords: Vec<CellCoord> = terrain.iter().map(|(c, _)| *c).collect();
    assert_eq!(coords, size.iter_coords());
    assert_eq!(mix_hash(0), 0);
    assert_eq!(mix_hash(12345), mix_hash(12345));
    assert_ne!(mix_hash(1), mix_hash(2));
    let bundle = TileBundle::new(CellCoord::new(2, 3));
    assert_eq!(bundle.terrain.kind, TerrainKind::Grass);
}
