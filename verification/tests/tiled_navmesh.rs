use rerecast::area::AreaType;
use rerecast::heightfield::{HeightSpan, Heightfield};
use rerecast::tiles::{Config, TileCoord, TileInput, TiledNavmeshConfig, TiledNavmeshError};

/// Voxel grid extent of a world axis, as the rasterizer derives it.
fn grid_extent(world: f32, cell_size: f32) -> u32 {
    (world / cell_size).ceil() as u32
}

fn base_config(world_x: f32, world_z: f32, cell_size: f32, tile_size: u16) -> Config {
    Config {
        tile_size,
        border_size: 3,
        walkable_height: 10,
        walkable_climb: 4,
        walkable_radius: 2,
        grid_width: grid_extent(world_x, cell_size),
        grid_height: grid_extent(world_z, cell_size),
    }
}

/// A flat walkable floor covering a whole tile, one span per column.
fn flat_tile_input(config: &Config) -> TileInput {
    let side = config.tile_size + 2 * config.border_size;
    let column = vec![HeightSpan {
        y_min: 0,
        y_max: 1,
        area: AreaType(63),
    }];
    TileInput {
        heightfield: Heightfield {
            width: side,
            height: side,
            columns: vec![column; side as usize * side as usize],
        },
        volumes: Vec::new(),
    }
}

#[test]
fn test_tile_coord_generation() {
    let config = base_config(100.0, 100.0, 0.3, 32);
    let tiled_config = TiledNavmeshConfig::new(config).unwrap();

    // Verify we get the expected number of tiles
    assert!(tiled_config.tiles_x > 0);
    assert!(tiled_config.tiles_z > 0);
    assert_eq!(
        tiled_config.tile_count(),
        tiled_config.tiles_x as usize * tiled_config.tiles_z as usize
    );

    // Verify all coordinates are generated
    let coords: Vec<_> = tiled_config.tile_coords();
    assert_eq!(coords.len(), tiled_config.tile_count());
}

#[test]
fn test_tile_aabb_calculation() {
    let config = base_config(100.0, 100.0, 0.3, 32);
    let tiled_config = TiledNavmeshConfig::new(config).unwrap();
    let tile_aabb = tiled_config.tile_aabb(TileCoord { x: 0, z: 0 });

    // The bounds should include the border, reaching below the world origin
    assert!(tile_aabb.0 < 0);
    assert!(tile_aabb.1 < 0);
}

#[test]
fn test_tiling_not_enabled() {
    let mut config = base_config(100.0, 100.0, 0.3, 32);

    // When tile_size is 0, tiling is disabled
    config.tile_size = 0;

    let result = TiledNavmeshConfig::new(config);
    assert!(matches!(result, Err(TiledNavmeshError::TilingNotEnabled)));
}

#[test]
fn test_parallel_tile_generation() {
    // A flat ground plane from (0,0,0) to (100,0,100), voxelized per tile
    let config = base_config(100.0, 100.0, 0.3, 16);
    let tiled_config = TiledNavmeshConfig::new(config).unwrap();

    // This should generate multiple tiles
    assert!(tiled_config.tile_count() > 1);

    let inputs: Vec<TileInput> = (0..tiled_config.tile_count())
        .map(|_| flat_tile_input(&config))
        .collect();

    // Generate tiles in parallel
    let tiles = tiled_config.generate_tiles(&inputs).unwrap();

    // Verify we got the expected number of tiles
    assert_eq!(tiles.len(), tiled_config.tile_count());

    // Verify each tile has the correct coordinates
    for tile in &tiles {
        assert!(tile.coord.x < tiled_config.tiles_x);
        assert!(tile.coord.z < tiled_config.tiles_z);
    }
}
