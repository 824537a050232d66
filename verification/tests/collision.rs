use game_engine::buildings::{BuildingFootprint, BuildingKind};
use game_engine::collision::{collision_flags_for, terrain_allows_building, Structure};
use game_engine::components::TerrainKind;
use game_engine::grid::CellCoord;

#[test]
fn empty_land_tiles_do_not_block_collision_layers() {
    for terrain in [TerrainKind::Grass, TerrainKind::Dirt, TerrainKind::Sand] {
        let flags = collision_flags_for(Some(terrain), false, &[], CellCoord::new(1, 1))
            .expect("tile should have collision flags");

        assert!(!flags.is_build_blocked());
        assert!(!flags.is_npc_walk_blocked());
    }
}

#[test]
fn water_blocks_building_and_npc_walking() {
    let flags = collision_flags_for(Some(TerrainKind::Water), false, &[], CellCoord::new(1, 1))
        .expect("tile should have collision flags");

    assert!(flags.is_build_blocked());
    assert!(flags.is_npc_walk_blocked());
}

#[test]
fn resource_node_blocks_until_removed() {
    let coord = CellCoord::new(1, 1);
    let blocked = collision_flags_for(Some(TerrainKind::Grass), true, &[], coord)
        .expect("tile should have collision flags");
    assert!(blocked.is_build_blocked());
    assert!(blocked.is_npc_walk_blocked());

    let unblocked = collision_flags_for(Some(TerrainKind::Grass), false, &[], coord)
        .expect("tile should have collision flags");
    assert!(!unblocked.is_build_blocked());
    assert!(!unblocked.is_npc_walk_blocked());
}

#[test]
fn major_buildings_and_blueprints_block_npc_walking() {
    let coord = CellCoord::new(2, 2);
    for kind in [
        BuildingKind::Warehouse,
        BuildingKind::TownHall,
        BuildingKind::Sawmill,
        BuildingKind::Stoneworks,
        BuildingKind::Kitchen,
        BuildingKind::Farm,
        BuildingKind::SmallHouse,
        BuildingKind::MediumHouse,
        BuildingKind::LargeHouse,
    ] {
        let footprint = BuildingFootprint::new(coord, 3, 3);
        let structures = [Structure { kind, footprint }];
        let flags = collision_flags_for(Some(TerrainKind::Grass), false, &structures, coord)
            .expect("tile should have collision flags");
        assert!(flags.is_build_blocked());
        assert!(flags.is_npc_walk_blocked());
    }
}

#[test]
fn fields_and_field_blueprints_block_building_but_not_npc_walking() {
    let coord = CellCoord::new(2, 2);
    let footprint = BuildingFootprint::new(coord, 1, 1);
    let structures = [Structure { kind: BuildingKind::Field, footprint }];

    let flags = collision_flags_for(Some(TerrainKind::Grass), false, &structures, coord)
        .expect("tile should have collision flags");
    assert!(flags.is_build_blocked());
    assert!(!flags.is_npc_walk_blocked());
}

#[test]
fn missing_tiles_have_no_flags_and_structures_elsewhere_do_not_block() {
    assert!(collision_flags_for(None, false, &[], CellCoord::new(0, 0)).is_none());
    let structures = [Structure {
        kind: BuildingKind::Warehouse,
        footprint: BuildingFootprint::new(CellCoord::new(5, 5), 2, 2),
    }];
    let flags = collision_flags_for(Some(TerrainKind::Grass), false, &structures, CellCoord::new(0, 0))
        .expect("tile exists");
    assert!(!flags.is_build_blocked());
    assert!(!flags.is_npc_walk_blocked());
}

#[test]
fn major_buildings_accept_land_but_not_water() {
    for terrain in [TerrainKind::Grass, TerrainKind::Dirt, TerrainKind::Sand] {
        assert!(terrain_allows_building(BuildingKind::Warehouse, terrain));
    }
    assert!(!terrain_allows_building(BuildingKind::Warehouse, TerrainKind::Water));
}
