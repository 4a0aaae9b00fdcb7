use rerecast::area::AreaType;
use rerecast::heightfield::{HeightSpan, Heightfield};
use rerecast::mark::ConvexVolume;
use rerecast::tiles::{Config, TileInput, TiledNavmeshConfig, TiledNavmeshError};

/// A grid where every column holds one walkable floor at `y_max = 1`.
fn flat_field(width: u16, height: u16) -> Heightfield {
    let column = vec![HeightSpan {
        y_min: 0,
        y_max: 1,
        area: AreaType(63),
    }];
    Heightfield {
        width,
        height,
        columns: vec![column; width as usize * height as usize],
    }
}

#[test]
fn compact_build_links_neighbors_both_ways() {
    let hf = flat_field(2, 1);
    let chf = hf.into_compact(2, 1).unwrap();
    assert_eq!(chf.cells.len(), 2);
    assert_eq!(chf.spans.len(), 2);
    assert_eq!(chf.spans[0].y, 1);
    assert_eq!(chf.spans[1].y, 1);
    // span 0 connects east (dir 2) to span 0 of the next column,
    // and that span connects back west (dir 0)
    assert_eq!(chf.spans[0].con(2), Some(0));
    assert_eq!(chf.spans[1].con(0), Some(0));
    // no neighbors beyond the grid edge
    assert_eq!(chf.spans[0].con(0), None);
    assert_eq!(chf.spans[0].con(1), None);
    assert_eq!(chf.spans[0].con(3), None);
}

#[test]
fn compact_build_drops_low_clearance_and_unwalkable() {
    // Two solid spans with a 2-voxel gap between them; walkable_height 3
    // drops the lower surface, the top one stays.
    let col = vec![
        HeightSpan {
            y_min: 0,
            y_max: 5,
            area: AreaType(63),
        },
        HeightSpan {
            y_min: 7,
            y_max: 20,
            area: AreaType(63),
        },
    ];
    let hf = Heightfield {
        width: 1,
        height: 1,
        columns: vec![col],
    };
    let chf = hf.into_compact(3, 1).unwrap();
    assert_eq!(chf.spans.len(), 1);
    assert_eq!(chf.spans[0].y, 20);
    assert_eq!(chf.areas[0], AreaType(63));

    // An unwalkable surface yields no compact span at all.
    let hf = Heightfield {
        width: 1,
        height: 1,
        columns: vec![vec![HeightSpan {
            y_min: 0,
            y_max: 1,
            area: AreaType(0),
        }]],
    };
    let chf = hf.into_compact(3, 1).unwrap();
    assert_eq!(chf.spans.len(), 0);
}

#[test]
fn compact_build_span_count_overflow() {
    // 70000 zero-thickness surfaces in one column overflow a cell's
    // 16-bit span count when walkable_height 0 keeps them all.
    let col = vec![
        HeightSpan {
            y_min: 0,
            y_max: 0,
            area: AreaType(63),
        };
        70000
    ];
    let hf = Heightfield {
        width: 1,
        height: 1,
        columns: vec![col],
    };
    assert!(hf.into_compact(0, 1).is_err());
}

#[test]
fn distance_field_small_grid() {
    let hf = flat_field(3, 3);
    let mut chf = hf.into_compact(1, 1).unwrap();
    chf.build_distance_field();
    // every edge span touches the boundary; the center is one axis step
    // (cost 2) away
    for i in 0..9 {
        if i == 4 {
            assert_eq!(chf.dist[i], 2);
        } else {
            assert_eq!(chf.dist[i], 0);
        }
    }
    assert_eq!(chf.max_distance, 2);
}

#[test]
fn distance_field_blur() {
    let hf = flat_field(7, 7);
    let mut chf = hf.into_compact(1, 1).unwrap();
    chf.build_distance_field();
    // raw chamfer rings grow by 2 per step inward: 0, 2, 4, 6 at the
    // center; the blur averages the center down to 4
    assert_eq!(chf.max_distance, 6);
    let center = 3 * 7 + 3;
    assert_eq!(chf.dist[center], 4);
    // ring-1 values sit at the pass-through threshold and stay 2
    assert_eq!(chf.dist[1 * 7 + 1], 2);
}

#[test]
fn erosion_shrinks_walkable_area() {
    let hf = flat_field(3, 3);
    let mut chf = hf.into_compact(1, 1).unwrap();
    chf.erode_walkable_area(1);
    // every span within distance 2 of unwalkable space is cleared; only
    // the center span is exactly at distance 2
    for i in 0..9 {
        if i == 4 {
            assert_eq!(chf.areas[i], AreaType(63));
        } else {
            assert_eq!(chf.areas[i], AreaType(0));
        }
    }
}

#[test]
fn mark_volume_covers_grid() {
    let hf = flat_field(3, 3);
    let mut chf = hf.into_compact(1, 1).unwrap();
    let volume = ConvexVolume {
        min_x: 0,
        max_x: 2,
        min_z: 0,
        max_z: 2,
        min_y: 0,
        max_y: 5,
        area: AreaType(7),
        inside: vec![true; 9],
    };
    chf.mark_convex_poly_area(&volume);
    for i in 0..9 {
        assert_eq!(chf.areas[i], AreaType(7));
    }
}

#[test]
fn mark_volume_empty_mask_is_noop() {
    let hf = flat_field(3, 3);
    let mut chf = hf.into_compact(1, 1).unwrap();
    let before = chf.clone();
    let volume = ConvexVolume {
        min_x: 0,
        max_x: 2,
        min_z: 0,
        max_z: 2,
        min_y: 0,
        max_y: 5,
        area: AreaType(7),
        inside: vec![false; 9],
    };
    chf.mark_convex_poly_area(&volume);
    assert_eq!(chf, before);
}

#[test]
fn mark_volume_respects_y_range_and_walkability() {
    let hf = flat_field(2, 1);
    let mut chf = hf.into_compact(1, 1).unwrap();
    // floors sit at y = 1; a volume above them touches nothing
    let above = ConvexVolume {
        min_x: 0,
        max_x: 1,
        min_z: 0,
        max_z: 0,
        min_y: 2,
        max_y: 5,
        area: AreaType(7),
        inside: vec![true; 2],
    };
    chf.mark_convex_poly_area(&above);
    assert_eq!(chf.areas[0], AreaType(63));
    assert_eq!(chf.areas[1], AreaType(63));

    // clearing one span first leaves it unwalkable: a later volume
    // cannot relabel it
    let clear_first = ConvexVolume {
        min_x: 0,
        max_x: 0,
        min_z: 0,
        max_z: 0,
        min_y: 0,
        max_y: 5,
        area: AreaType(0),
        inside: vec![true; 1],
    };
    chf.mark_convex_poly_area(&clear_first);
    let relabel = ConvexVolume {
        min_x: 0,
        max_x: 1,
        min_z: 0,
        max_z: 0,
        min_y: 0,
        max_y: 5,
        area: AreaType(9),
        inside: vec![true; 2],
    };
    chf.mark_convex_poly_area(&relabel);
    assert_eq!(chf.areas[0], AreaType(0));
    assert_eq!(chf.areas[1], AreaType(9));
}

#[test]
fn tile_counts_cover_world() {
    // a 100-unit world at cell size 0.3 spans 334 voxel columns; 16-wide
    // tiles cover it in 21 tiles per axis
    let config = Config {
        tile_size: 16,
        border_size: 3,
        walkable_height: 10,
        walkable_climb: 4,
        walkable_radius: 2,
        grid_width: 334,
        grid_height: 334,
    };
    let tiled = TiledNavmeshConfig::new(config).unwrap();
    assert_eq!(tiled.tiles_x, 21);
    assert_eq!(tiled.tiles_z, 21);
    assert_eq!(tiled.tile_count(), 441);
}

#[test]
fn generate_tile_reports_bad_heightfield() {
    let config = Config {
        tile_size: 4,
        border_size: 0,
        walkable_height: 1,
        walkable_climb: 1,
        walkable_radius: 0,
        grid_width: 4,
        grid_height: 4,
    };
    let tiled = TiledNavmeshConfig::new(config).unwrap();
    // a column with descending spans is rejected before the pipeline runs
    let bad = TileInput {
        heightfield: Heightfield {
            width: 1,
            height: 1,
            columns: vec![vec![
                HeightSpan {
                    y_min: 5,
                    y_max: 9,
                    area: AreaType(63),
                },
                HeightSpan {
                    y_min: 0,
                    y_max: 3,
                    area: AreaType(63),
                },
            ]],
        },
        volumes: Vec::new(),
    };
    let r = tiled.generate_tile(rerecast::tiles::TileCoord { x: 0, z: 0 }, &bad);
    assert!(matches!(r, Err(TiledNavmeshError::HeightfieldBuild(_))));
}

fn small_tiled_setup() -> (TiledNavmeshConfig, Vec<TileInput>) {
    let config = Config {
        tile_size: 4,
        border_size: 1,
        walkable_height: 1,
        walkable_climb: 1,
        walkable_radius: 1,
        grid_width: 8,
        grid_height: 8,
    };
    let tiled = TiledNavmeshConfig::new(config).unwrap();
    let side = config.tile_size + 2 * config.border_size;
    let inputs = (0..tiled.tile_count())
        .map(|i| {
            let mut hf = flat_field(side, side);
            // vary the tiles a little so equality checks see real data
            if i % 2 == 0 {
                hf.columns[0] = vec![HeightSpan {
                    y_min: 0,
                    y_max: 3,
                    area: AreaType(63),
                }];
            }
            TileInput {
                heightfield: hf,
                volumes: vec![ConvexVolume {
                    min_x: 1,
                    max_x: 2,
                    min_z: 1,
                    max_z: 2,
                    min_y: 0,
                    max_y: 5,
                    area: AreaType(5),
                    inside: vec![true, false, true, true],
                }],
            }
        })
        .collect();
    (tiled, inputs)
}

#[test]
fn sequential_generation_is_repeatable() {
    let (tiled, inputs) = small_tiled_setup();
    let first = tiled.generate_tiles_sequential(&inputs).unwrap();
    let second = tiled.generate_tiles_sequential(&inputs).unwrap();
    assert_eq!(first, second);
}

#[test]
fn parallel_generation_matches_sequential() {
    let (tiled, inputs) = small_tiled_setup();
    let sequential = tiled.generate_tiles_sequential(&inputs).unwrap();
    let parallel = tiled.generate_tiles_parallel(&inputs).unwrap();
    assert_eq!(sequential, parallel);
    // and the tiles hold processed data, not the inputs handed in
    assert!(sequential[0].compact.spans.len() > 0);
    assert_eq!(sequential.len(), tiled.tile_count());
}

#[test]
fn single_navmesh_flat_plane() {
    // an untiled run over a flat floor keeps a walkable interior
    let config = Config {
        tile_size: 0,
        border_size: 0,
        walkable_height: 1,
        walkable_climb: 1,
        walkable_radius: 1,
        grid_width: 16,
        grid_height: 16,
    };
    let input = TileInput {
        heightfield: flat_field(16, 16),
        volumes: Vec::new(),
    };
    let compact = rerecast::tiles::build_single_navmesh(config, &input).unwrap();
    assert_eq!(compact.spans.len(), 256);
    let walkable = compact.areas.iter().filter(|a| a.0 != 0).count();
    assert!(walkable > 0);
    assert!(compact.max_distance > 0);
}

#[test]
fn empty_world_generates_empty_tiles() {
    // no geometry at all: every stage succeeds and yields empty surfaces
    let config = Config {
        tile_size: 4,
        border_size: 0,
        walkable_height: 1,
        walkable_climb: 1,
        walkable_radius: 1,
        grid_width: 8,
        grid_height: 8,
    };
    let tiled = TiledNavmeshConfig::new(config).unwrap();
    let empty = TileInput {
        heightfield: Heightfield {
            width: 4,
            height: 4,
            columns: vec![Vec::new(); 16],
        },
        volumes: Vec::new(),
    };
    let inputs = vec![empty; tiled.tile_count()];
    let tiles = tiled.generate_tiles_sequential(&inputs).unwrap();
    assert_eq!(tiles.len(), tiled.tile_count());
    for tile in &tiles {
        assert_eq!(tile.compact.spans.len(), 0);
        assert_eq!(tile.compact.max_distance, 0);
    }
}

#[test]
fn add_span_merges_overlap() {
    let mut hf = Heightfield {
        width: 1,
        height: 1,
        columns: vec![Vec::new()],
    };
    hf.add_span(0, 0, 0, 5, AreaType(63), 1);
    hf.add_span(0, 0, 3, 9, AreaType(63), 1);
    assert_eq!(hf.columns[0].len(), 1);
    assert_eq!(hf.columns[0][0].y_min, 0);
    assert_eq!(hf.columns[0][0].y_max, 9);
}

#[test]
fn add_span_merges_within_climb_only() {
    let mut hf = Heightfield {
        width: 1,
        height: 1,
        columns: vec![Vec::new()],
    };
    // a 2-voxel gap merges at climb 2 ...
    hf.add_span(0, 0, 0, 2, AreaType(63), 2);
    hf.add_span(0, 0, 4, 5, AreaType(63), 2);
    assert_eq!(hf.columns[0].len(), 1);
    assert_eq!(hf.columns[0][0].y_max, 5);

    // ... but not at climb 1
    let mut hf = Heightfield {
        width: 1,
        height: 1,
        columns: vec![Vec::new()],
    };
    hf.add_span(0, 0, 0, 2, AreaType(63), 1);
    hf.add_span(0, 0, 4, 5, AreaType(63), 1);
    assert_eq!(hf.columns[0].len(), 2);
}

#[test]
fn add_span_area_priority() {
    // at equal tops the larger area wins: unwalkable cannot override
    let mut hf = Heightfield {
        width: 1,
        height: 1,
        columns: vec![Vec::new()],
    };
    hf.add_span(0, 0, 0, 5, AreaType(63), 1);
    hf.add_span(0, 0, 2, 5, AreaType(0), 1);
    assert_eq!(hf.columns[0].len(), 1);
    assert_eq!(hf.columns[0][0].area, AreaType(63));

    // when the tops differ by more than the climb, the higher top wins
    let mut hf = Heightfield {
        width: 1,
        height: 1,
        columns: vec![Vec::new()],
    };
    hf.add_span(0, 0, 0, 3, AreaType(7), 1);
    hf.add_span(0, 0, 0, 10, AreaType(9), 1);
    assert_eq!(hf.columns[0].len(), 1);
    assert_eq!(hf.columns[0][0].area, AreaType(9));
    assert_eq!(hf.columns[0][0].y_max, 10);
}

#[test]
fn connections_respect_climb_and_are_symmetric() {
    // neighboring floors one step apart connect when the climb allows it
    let step = |y: u16| {
        vec![HeightSpan {
            y_min: 0,
            y_max: y,
            area: AreaType(63),
        }]
    };
    let hf = Heightfield {
        width: 3,
        height: 1,
        columns: vec![step(1), step(2), step(6)],
    };
    let chf = hf.into_compact(2, 1).unwrap();
    // floors 1 and 2 differ by the climb: linked both ways
    assert_eq!(chf.spans[0].con(2), Some(0));
    assert_eq!(chf.spans[1].con(0), Some(0));
    // floors 2 and 6 differ by more: no link either way
    assert_eq!(chf.spans[1].con(2), None);
    assert_eq!(chf.spans[2].con(0), None);
}

#[test]
fn tile_counts_saturate() {
    // a pathologically wide world cannot overflow the 16-bit tile counts
    let config = Config {
        tile_size: 1,
        border_size: 0,
        walkable_height: 1,
        walkable_climb: 1,
        walkable_radius: 0,
        grid_width: u32::MAX,
        grid_height: 4,
    };
    let tiled = TiledNavmeshConfig::new(config).unwrap();
    assert_eq!(tiled.tiles_x, u16::MAX);
    assert_eq!(tiled.tiles_z, 4);
}

#[test]
fn generation_needs_one_input_per_tile() {
    let config = Config {
        tile_size: 4,
        border_size: 0,
        walkable_height: 1,
        walkable_climb: 1,
        walkable_radius: 0,
        grid_width: 8,
        grid_height: 8,
    };
    let tiled = TiledNavmeshConfig::new(config).unwrap();
    let inputs: Vec<TileInput> = Vec::new();
    assert!(tiled.generate_tiles_sequential(&inputs).is_err());
    assert!(tiled.generate_tiles_parallel(&inputs).is_err());
}
