use vstd::prelude::*;

use crate::area::AreaType;
use crate::compact::CompactHeightfield;
use crate::connect::compact_built;
use crate::distance::{blur_field, chamfer_field, seq_max_u16};
use crate::erosion::erode_field;
use crate::heightfield::{compact_overflow, Heightfield};
use crate::mark::{marked_span, ConvexVolume};
use rayon::iter::{IndexedParallelIterator, IntoParallelRefIterator, ParallelIterator};

verus! {

// Tile-based navmesh generation. The world is cut into tiles on the XZ
// plane; each tile's voxelized geometry runs through the pipeline on its
// own (compact heightfield, erosion, volume marking, distance field), so
// tiles can be processed independently and in parallel.

/// A tile coordinate on the XZ plane.
#[derive(Debug, Clone, Copy, PartialEq, Eq, Hash, Structural)]
pub struct TileCoord {
    /// X coordinate of the tile.
    pub x: u16,
    /// Z coordinate of the tile.
    pub z: u16,
}

/// The pipeline configuration, in voxel units. World-space quantities
/// (bounds, cell size, agent dimensions) are converted to voxel counts
/// before they reach the pipeline.
#[derive(Debug, Clone, Copy, PartialEq, Eq, Structural)]
pub struct Config {
    /// XZ extent of one tile, in voxel columns; zero disables tiling.
    pub tile_size: u16,
    /// Voxel border added around each tile.
    pub border_size: u16,
    /// Minimum clearance of a walkable span, in voxel units.
    pub walkable_height: u16,
    /// Maximum floor step between connected spans, in voxel units.
    pub walkable_climb: u16,
    /// Agent radius, in voxel units.
    pub walkable_radius: u16,
    /// World extent along X, in voxel columns.
    pub grid_width: u32,
    /// World extent along Z, in voxel columns.
    pub grid_height: u32,
}

/// Configuration for tiled navmesh generation.
#[derive(Debug, Clone, Copy, PartialEq, Eq, Structural)]
pub struct TiledNavmeshConfig {
    /// The base configuration.
    pub config: Config,
    /// Number of tiles along the X axis.
    pub tiles_x: u16,
    /// Number of tiles along the Z axis.
    pub tiles_z: u16,
}

/// The per-tile input of the pipeline: the tile's voxelized geometry and
/// the convex volumes clipped to it, both in the tile's own voxel frame.
#[derive(Debug, Clone, PartialEq)]
pub struct TileInput {
    /// The tile's voxelized solid geometry, border included.
    pub heightfield: Heightfield,
    /// The area volumes that touch the tile, in tile voxel coordinates.
    pub volumes: Vec<ConvexVolume>,
}

/// A single processed tile of a navmesh.
#[derive(Debug, Clone, PartialEq)]
pub struct NavmeshTile {
    /// The tile's coordinate.
    pub coord: TileCoord,
    /// The tile's processed surface: eroded, marked, with its distance
    /// field built, ready for region partitioning.
    pub compact: CompactHeightfield,
}

/// Errors that can occur during tiled navmesh generation.
#[derive(Debug, Clone, PartialEq)]
pub enum TiledNavmeshError {
    /// Error building the heightfield.
    HeightfieldBuild(String),
    /// Error during rasterization.
    Rasterization(String),
    /// Error building the compact heightfield.
    CompactHeightfield(String),
    /// Error building regions.
    RegionBuild(String),
    /// Error building the polygon mesh.
    PolygonMesh(String),
    /// Error building the detail mesh.
    DetailMesh(String),
    /// Tiling is not enabled in the config.
    TilingNotEnabled,
}

/// Division rounding up.
pub open spec fn ceil_div(a: int, b: int) -> int {
    (a + b - 1) / b
}

/// How many tiles cover `extent` voxels, capped at the largest `u16` as
/// the stored tile counts are.
pub open spec fn tiles_for(extent: int, tile_size: int) -> int {
    if ceil_div(extent, tile_size) > 0xffff {
        0xffff
    } else {
        ceil_div(extent, tile_size)
    }
}

/// What erosion leaves of a compact heightfield: same grid, every span
/// closer than twice the radius to unwalkable space relabeled.
pub open spec fn eroded(a: CompactHeightfield, radius: u16, b: CompactHeightfield) -> bool {
    &&& b.wf()
    &&& b.width == a.width
    &&& b.height == a.height
    &&& b.walkable_height == a.walkable_height
    &&& b.walkable_climb == a.walkable_climb
    &&& b.cells == a.cells
    &&& b.spans == a.spans
    &&& b.dist == a.dist
    &&& b.max_distance == a.max_distance
    &&& b.areas@.len() == a.areas@.len()
    &&& (forall|i: int|
        0 <= i < a.areas@.len() ==> b.areas@[i] == (
        if (erode_field(a)[i] as int) < 2 * radius as int {
            AreaType::null_area()
        } else {
            a.areas@[i]
        }))
}

/// What marking one convex volume leaves: same grid, the spans under the
/// volume relabeled; a volume with a broken footprint mask is skipped.
pub open spec fn volume_marked(
    a: CompactHeightfield,
    vol: ConvexVolume,
    b: CompactHeightfield,
) -> bool {
    if vol.wf() {
        &&& b.wf()
        &&& b.width == a.width
        &&& b.height == a.height
        &&& b.walkable_height == a.walkable_height
        &&& b.walkable_climb == a.walkable_climb
        &&& b.cells == a.cells
        &&& b.spans == a.spans
        &&& b.dist == a.dist
        &&& b.max_distance == a.max_distance
        &&& b.areas@.len() == a.areas@.len()
        &&& (forall|i: int|
            0 <= i < a.areas@.len() ==> b.areas@[i] == (
            if marked_span(a, vol, a.cell_of(i), i) {
                vol.area
            } else {
                a.areas@[i]
            }))
    } else {
        b == a
    }
}

/// What marking a list of volumes leaves, applied in order.
pub open spec fn volumes_marked(
    a: CompactHeightfield,
    vols: Seq<ConvexVolume>,
    b: CompactHeightfield,
) -> bool
    decreases vols.len(),
{
    if vols.len() == 0 {
        b == a
    } else {
        exists|m: CompactHeightfield|
            #[trigger] volume_marked(a, vols[0], m) && volumes_marked(m, vols.skip(1), b)
    }
}

/// What the distance-field pass leaves: same grid and areas, the maximum
/// of the raw chamfer field stored, and its blurred form as `dist`.
pub open spec fn distance_built(a: CompactHeightfield, b: CompactHeightfield) -> bool {
    &&& b.wf()
    &&& b.width == a.width
    &&& b.height == a.height
    &&& b.walkable_height == a.walkable_height
    &&& b.walkable_climb == a.walkable_climb
    &&& b.cells == a.cells
    &&& b.spans == a.spans
    &&& b.areas == a.areas
    &&& b.max_distance == seq_max_u16(chamfer_field(a))
    &&& b.dist@ == blur_field(a, chamfer_field(a), 2)
}

/// What one tile's pipeline run returns: the error naming the failing
/// stage on bad or oversized input, else the fully processed surface.
pub open spec fn tile_post(
    cfg: Config,
    coord: TileCoord,
    input: TileInput,
    r: Result<NavmeshTile, TiledNavmeshError>,
) -> bool {
    if !input.heightfield.wf() {
        &&& r is Err
        &&& r->Err_0 is HeightfieldBuild
    } else if compact_overflow(input.heightfield, cfg.walkable_height) {
        &&& r is Err
        &&& r->Err_0 is CompactHeightfield
    } else {
        &&& r is Ok
        &&& r->Ok_0.coord == coord
        &&& exists|c1: CompactHeightfield, c2: CompactHeightfield, c3: CompactHeightfield|
            {
                &&& #[trigger] compact_built(
                    input.heightfield,
                    cfg.walkable_height,
                    cfg.walkable_climb,
                    c1,
                )
                &&& #[trigger] eroded(c1, cfg.walkable_radius, c2)
                &&& #[trigger] volumes_marked(c2, input.volumes@, c3)
                &&& distance_built(c3, r->Ok_0.compact)
            }
    }
}

impl TiledNavmeshConfig {
    /// Creates a tiled navmesh configuration from a base config: the tile
    /// counts cover the world grid, rounding up. Fails exactly when the
    /// config has tiling disabled.
    pub fn new(config: Config) -> (r: Result<TiledNavmeshConfig, TiledNavmeshError>)
        ensures
            r is Err <==> config.tile_size == 0,
            r is Err ==> r->Err_0 is TilingNotEnabled,
            r is Ok ==> ({
                let t = r->Ok_0;
                &&& t.config == config
                &&& t.tiles_x as int == tiles_for(config.grid_width as int, config.tile_size as int)
                &&& t.tiles_z as int == tiles_for(
                    config.grid_height as int,
                    config.tile_size as int,
                )
            }),
    {
        if config.tile_size == 0 {
            return Err(TiledNavmeshError::TilingNotEnabled);
        }
        let ts = config.tile_size as u64;
        let tx = (config.grid_width as u64 + ts - 1) / ts;
        let tz = (config.grid_height as u64 + ts - 1) / ts;
        let tiles_x: u16 = if tx > 0xffff {
            0xffff
        } else {
            tx as u16
        };
        let tiles_z: u16 = if tz > 0xffff {
            0xffff
        } else {
            tz as u16
        };
        Ok(TiledNavmeshConfig { config, tiles_x, tiles_z })
    }

    /// The total number of tiles.
    pub open spec fn tile_count_spec(self) -> int {
        self.tiles_x as int * self.tiles_z as int
    }

    /// Returns the total number of tiles.
    pub fn tile_count(&self) -> (r: usize)
        ensures
            r as int == self.tile_count_spec(),
    {
        proof {
            let xi = self.tiles_x as int;
            let zi = self.tiles_z as int;
            assert(xi * zi <= 0xffff_ffff) by (nonlinear_arith)
                requires
                    0 <= xi < 0x1_0000,
                    0 <= zi < 0x1_0000,
            ;
        }
        self.tiles_x as usize * self.tiles_z as usize
    }

    /// The coordinate of the tile at a flat scatter index: X varies
    /// fastest, Z slowest.
    pub open spec fn coord_at(self, i: int) -> TileCoord {
        TileCoord {
            x: (i % (self.tiles_x as int)) as u16,
            z: (i / (self.tiles_x as int)) as u16,
        }
    }

    /// Returns all tile coordinates in scatter order: row by row,
    /// X varying fastest.
    pub fn tile_coords(&self) -> (r: Vec<TileCoord>)
        ensures
            r@.len() == self.tile_count_spec(),
            forall|i: int| 0 <= i < r@.len() ==> #[trigger] r@[i] == self.coord_at(i),
    {
        let mut r: Vec<TileCoord> = Vec::new();
        let mut z: u16 = 0;
        while z < self.tiles_z
            invariant
                z <= self.tiles_z,
                r@.len() == z as int * self.tiles_x as int,
                r@.len() <= self.tile_count_spec(),
                forall|i: int| 0 <= i < r@.len() ==> #[trigger] r@[i] == self.coord_at(i),
            decreases self.tiles_z - z,
        {
            let mut x: u16 = 0;
            while x < self.tiles_x
                invariant
                    z < self.tiles_z,
                    x <= self.tiles_x,
                    r@.len() == z as int * self.tiles_x as int + x as int,
                    forall|i: int| 0 <= i < r@.len() ==> #[trigger] r@[i] == self.coord_at(i),
                decreases self.tiles_x - x,
            {
                r.push(TileCoord { x, z });
                proof {
                    let xi = self.tiles_x as int;
                    let idx = z as int * xi + x as int;
                    assert(idx % xi == x as int && idx / xi == z as int) by (nonlinear_arith)
                        requires
                            0 <= (x as int) && (x as int) < xi,
                            0 <= z as int,
                            idx == z as int * xi + x as int,
                    ;
                }
                x += 1;
            }
            z += 1;
            proof {
                let xi = self.tiles_x as int;
                let zi = z as int;
                assert((zi - 1) * xi + xi == zi * xi) by (nonlinear_arith);
                assert(zi * xi <= self.tiles_z as int * xi) by (nonlinear_arith)
                    requires
                        zi <= self.tiles_z as int,
                        0 <= xi,
                ;
            }
        }
        proof {
            let xi = self.tiles_x as int;
            let zi = self.tiles_z as int;
            assert(zi * xi == xi * zi) by (nonlinear_arith);
        }
        r
    }

    /// The voxel-space bounds of a tile, border included. The world-space
    /// box is these bounds scaled by the cell size from the world origin.
    pub fn tile_aabb(&self, coord: TileCoord) -> (r: (i64, i64, i64, i64))
        ensures
            r.0 == coord.x as int * self.config.tile_size as int - self.config.border_size as int,
            r.1 == coord.z as int * self.config.tile_size as int - self.config.border_size as int,
            r.2 == r.0 + self.config.tile_size as int + 2 * self.config.border_size as int,
            r.3 == r.1 + self.config.tile_size as int + 2 * self.config.border_size as int,
    {
        let ts = self.config.tile_size as i64;
        let bs = self.config.border_size as i64;
        proof {
            let cxi = coord.x as int;
            let czi = coord.z as int;
            let tsi = ts as int;
            assert(cxi * tsi <= 0xffff_ffff && czi * tsi <= 0xffff_ffff && 0 <= cxi * tsi && 0
                <= czi * tsi) by (nonlinear_arith)
                requires
                    0 <= cxi < 0x1_0000,
                    0 <= czi < 0x1_0000,
                    0 <= tsi < 0x1_0000,
            ;
        }
        let min_x = coord.x as i64 * ts - bs;
        let min_z = coord.z as i64 * ts - bs;
        let max_x = min_x + ts + 2 * bs;
        let max_z = min_z + ts + 2 * bs;
        (min_x, min_z, max_x, max_z)
    }

    /// Runs the pipeline on one tile's input: compact heightfield,
    /// erosion by the agent radius, volume marking, distance field.
    pub fn generate_tile(&self, coord: TileCoord, input: &TileInput) -> (r: Result<
        NavmeshTile,
        TiledNavmeshError,
    >)
        ensures
            tile_post(self.config, coord, *input, r),
    {
        if !input.heightfield.check_wf() {
            return Err(
                TiledNavmeshError::HeightfieldBuild(
                    "heightfield columns are not sorted or sized to the grid".to_owned(),
                ),
            );
        }
        let compact = match input.heightfield.into_compact(
            self.config.walkable_height,
            self.config.walkable_climb,
        ) {
            Ok(c) => c,
            Err(_) => {
                return Err(
                    TiledNavmeshError::CompactHeightfield(
                        "span count exceeded the cell index range".to_owned(),
                    ),
                );
            },
        };
        let ghost c1 = compact;
        let mut compact = compact;
        compact.erode_walkable_area(self.config.walkable_radius);
        let ghost c2 = compact;
        proof {
            assert(eroded(c1, self.config.walkable_radius, c2));
        }
        let mut v: usize = 0;
        while v < input.volumes.len()
            invariant
                v <= input.volumes@.len(),
                compact.wf(),
                volumes_marked(c2, input.volumes@.take(v as int), compact),
            decreases input.volumes@.len() - v,
        {
            let ghost pre = compact;
            let vol = &input.volumes[v];
            if vol.check_wf() {
                compact.mark_convex_poly_area(vol);
            }
            v += 1;
            proof {
                assert(volume_marked(pre, input.volumes@[v as int - 1], compact));
                lemma_volumes_marked_snoc(
                    c2,
                    input.volumes@.take(v as int - 1),
                    pre,
                    input.volumes@[v as int - 1],
                    compact,
                );
                assert(input.volumes@.take(v as int - 1).push(input.volumes@[v as int - 1])
                    =~= input.volumes@.take(v as int));
            }
        }
        proof {
            assert(input.volumes@.take(input.volumes@.len() as int) =~= input.volumes@);
        }
        let ghost c3 = compact;
        compact.build_distance_field();
        proof {
            assert(distance_built(c3, compact));
        }
        Ok(NavmeshTile { coord, compact })
    }

    /// Runs the pipeline on the tile at a flat scatter index.
    pub fn generate_tile_at(&self, i: usize, input: &TileInput) -> (r: Result<
        NavmeshTile,
        TiledNavmeshError,
    >)
        ensures
            tile_at_post(*self, i as int, *input, r),
    {
        if self.tiles_x == 0 || i >= self.tile_count() {
            return Err(TiledNavmeshError::TilingNotEnabled);
        }
        let x = (i % self.tiles_x as usize) as u16;
        let z = (i / self.tiles_x as usize) as u16;
        proof {
            let xi = self.tiles_x as int;
            let ii = i as int;
            assert(ii % xi < xi && ii / xi < self.tiles_z as int && 0 <= ii % xi && 0 <= ii
                / xi) by (nonlinear_arith)
                requires
                    0 < xi,
                    0 <= ii,
                    ii < xi * self.tiles_z as int,
            ;
        }
        self.generate_tile(TileCoord { x, z }, input)
    }

    /// Runs the pipeline over every tile in scatter order, stopping at
    /// the first tile that fails.
    pub fn generate_tiles_sequential(&self, inputs: &Vec<TileInput>) -> (r: Result<
        Vec<NavmeshTile>,
        TiledNavmeshError,
    >)
        ensures
            tiles_post(*self, *inputs, r),
            r is Err ==> (inputs@.len() != self.tile_count_spec() || exists|i: int|
                0 <= i < inputs@.len() && #[trigger] tile_fails(*self, i, inputs@[i]) && (
                forall|i2: int| 0 <= i2 < i ==> !#[trigger] tile_fails(*self, i2, inputs@[i2]))),
    {
        if inputs.len() != self.tile_count() {
            return Err(
                TiledNavmeshError::HeightfieldBuild(
                    "one tile input is needed for each tile".to_owned(),
                ),
            );
        }
        let mut out: Vec<NavmeshTile> = Vec::new();
        let mut i: usize = 0;
        while i < inputs.len()
            invariant
                inputs@.len() == self.tile_count_spec(),
                i <= inputs@.len(),
                out@.len() == i,
                forall|i2: int|
                    0 <= i2 < i as int ==> #[trigger] tile_at_post(
                        *self,
                        i2,
                        inputs@[i2],
                        Result::<NavmeshTile, TiledNavmeshError>::Ok(out@[i2]),
                    ),
                forall|i2: int| 0 <= i2 < i as int ==> !#[trigger] tile_fails(*self, i2, inputs@[i2]),
            decreases inputs@.len() - i,
        {
            match self.generate_tile_at(i, &inputs[i]) {
                Ok(tile) => {
                    out.push(tile);
                },
                Err(e) => {
                    proof {
                        assert(tile_fails(*self, i as int, inputs@[i as int]));
                    }
                    return Err(e);
                },
            }
            i += 1;
        }
        Ok(out)
    }
}

/// Whether the tile at index `i` fails the pipeline: the index is out of
/// the tile grid, or its input heightfield is broken or oversized.
pub open spec fn tile_fails(cfg: TiledNavmeshConfig, i: int, input: TileInput) -> bool {
    ||| cfg.tiles_x == 0
    ||| i >= cfg.tile_count_spec()
    ||| !input.heightfield.wf()
    ||| compact_overflow(input.heightfield, cfg.config.walkable_height)
}

/// What running the pipeline on the tile at a flat index returns.
pub open spec fn tile_at_post(
    cfg: TiledNavmeshConfig,
    i: int,
    input: TileInput,
    r: Result<NavmeshTile, TiledNavmeshError>,
) -> bool {
    if cfg.tiles_x == 0 || i >= cfg.tile_count_spec() {
        r is Err && r->Err_0 is TilingNotEnabled
    } else {
        tile_post(cfg.config, cfg.coord_at(i), input, r)
    }
}

/// What a whole generation run returns: on success, one processed tile
/// per input in scatter order; an error exactly when the input count is
/// off or some tile fails.
pub open spec fn tiles_post(
    cfg: TiledNavmeshConfig,
    inputs: Vec<TileInput>,
    r: Result<Vec<NavmeshTile>, TiledNavmeshError>,
) -> bool {
    &&& (r is Ok <==> (inputs@.len() == cfg.tile_count_spec() && forall|i: int|
        0 <= i < inputs@.len() ==> !#[trigger] tile_fails(cfg, i, inputs@[i])))
    &&& (r is Ok ==> {
        let out = r->Ok_0;
        &&& out@.len() == inputs@.len()
        &&& (forall|i: int|
            0 <= i < inputs@.len() ==> #[trigger] tile_at_post(
                cfg,
                i,
                inputs@[i],
                Result::<NavmeshTile, TiledNavmeshError>::Ok(out@[i]),
            ))
    })
}

/// Relies on rayon's parallel `collect` into `Result`: the closure maps
/// each indexed input on a worker thread; if every call returns `Ok` the
/// collected vector holds the results in input order, otherwise one of
/// the returned errors comes back.
#[verifier::external_body]
fn par_generate_tiles(cfg: &TiledNavmeshConfig, inputs: &Vec<TileInput>) -> (r: Result<
    Vec<NavmeshTile>,
    TiledNavmeshError,
>)
    ensures
        r is Ok ==> r->Ok_0@.len() == inputs@.len() && (forall|i: int|
            0 <= i < inputs@.len() ==> #[trigger] tile_at_post(
                *cfg,
                i,
                inputs@[i],
                Result::<NavmeshTile, TiledNavmeshError>::Ok(r->Ok_0@[i]),
            )),
        r is Err ==> exists|i: int|
            0 <= i < inputs@.len() && #[trigger] tile_at_post(
                *cfg,
                i,
                inputs@[i],
                Result::<NavmeshTile, TiledNavmeshError>::Err(r->Err_0),
            ),
{
    inputs.par_iter().enumerate().map(|(i, input)| cfg.generate_tile_at(i, input)).collect()
}

impl TiledNavmeshConfig {
    /// Runs the pipeline over every tile on parallel worker threads; the
    /// result is the same as the sequential run's, except that when
    /// several tiles fail, which tile's error comes back is not fixed.
    pub fn generate_tiles_parallel(&self, inputs: &Vec<TileInput>) -> (r: Result<
        Vec<NavmeshTile>,
        TiledNavmeshError,
    >)
        ensures
            tiles_post(*self, *inputs, r),
            r is Err ==> (inputs@.len() != self.tile_count_spec() || exists|i: int|
                0 <= i < inputs@.len() && #[trigger] tile_at_post(
                    *self,
                    i,
                    inputs@[i],
                    Result::<NavmeshTile, TiledNavmeshError>::Err(r->Err_0),
                )),
    {
        if inputs.len() != self.tile_count() {
            return Err(
                TiledNavmeshError::HeightfieldBuild(
                    "one tile input is needed for each tile".to_owned(),
                ),
            );
        }
        let r = par_generate_tiles(self, inputs);
        proof {
            if r is Ok {
                let out = r->Ok_0;
                assert forall|i: int| 0 <= i < inputs@.len() implies !#[trigger] tile_fails(
                    *self,
                    i,
                    inputs@[i],
                ) by {
                    assert(tile_at_post(
                        *self,
                        i,
                        inputs@[i],
                        Result::<NavmeshTile, TiledNavmeshError>::Ok(out@[i]),
                    ));
                }
            } else {
                let e = r->Err_0;
                let i = choose|i: int|
                    0 <= i < inputs@.len() && #[trigger] tile_at_post(
                        *self,
                        i,
                        inputs@[i],
                        Result::<NavmeshTile, TiledNavmeshError>::Err(e),
                    );
                assert(tile_fails(*self, i, inputs@[i]));
            }
        }
        r
    }

    /// Runs the pipeline over every tile, in parallel.
    pub fn generate_tiles(&self, inputs: &Vec<TileInput>) -> (r: Result<
        Vec<NavmeshTile>,
        TiledNavmeshError,
    >)
        ensures
            tiles_post(*self, *inputs, r),
    {
        self.generate_tiles_parallel(inputs)
    }
}

/// Runs the untiled pipeline over the whole world as a single piece:
/// the same stages as one tile's run, on the full-grid input.
pub fn build_single_navmesh(config: Config, input: &TileInput) -> (r: Result<
    CompactHeightfield,
    TiledNavmeshError,
>)
    ensures
        tile_post(
            config,
            TileCoord { x: 0, z: 0 },
            *input,
            match r {
                Ok(c) => Result::<NavmeshTile, TiledNavmeshError>::Ok(
                    NavmeshTile { coord: TileCoord { x: 0, z: 0 }, compact: c },
                ),
                Err(e) => Result::<NavmeshTile, TiledNavmeshError>::Err(e),
            },
        ),
{
    let single = TiledNavmeshConfig { config, tiles_x: 1, tiles_z: 1 };
    match single.generate_tile(TileCoord { x: 0, z: 0 }, input) {
        Ok(tile) => Ok(tile.compact),
        Err(e) => Err(e),
    }
}

/// Marking volumes never touches the grid, the spans or the distances:
/// only area labels change.
pub proof fn lemma_volumes_marked_preserves(
    a: CompactHeightfield,
    vols: Seq<ConvexVolume>,
    b: CompactHeightfield,
)
    requires
        a.wf(),
        volumes_marked(a, vols, b),
    ensures
        b.wf(),
        b.width == a.width,
        b.height == a.height,
        b.walkable_height == a.walkable_height,
        b.walkable_climb == a.walkable_climb,
        b.cells == a.cells,
        b.spans == a.spans,
        b.dist == a.dist,
        b.max_distance == a.max_distance,
    decreases vols.len(),
{
    if vols.len() > 0 {
        let m = choose|m: CompactHeightfield|
            #[trigger] volume_marked(a, vols[0], m) && volumes_marked(m, vols.skip(1), b);
        lemma_volumes_marked_preserves(m, vols.skip(1), b);
    }
}

/// The invariants of a generated tile's surface: every span keeps at
/// least `walkable_height` of clearance, and the neighbor links are
/// exactly what the two-way linking rule asks, so every connection has a
/// reverse connection (`lemma_connection_symmetric`).
pub proof fn lemma_tile_surface_invariants(
    cfg: Config,
    coord: TileCoord,
    input: TileInput,
    t: NavmeshTile,
)
    requires
        tile_post(cfg, coord, input, Result::<NavmeshTile, TiledNavmeshError>::Ok(t)),
    ensures
        t.compact.wf(),
        crate::connect::connections_built(t.compact),
        forall|i: int|
            0 <= i < t.compact.spans@.len() ==> (#[trigger] t.compact.spans@[i]).h
                >= cfg.walkable_height,
{
    let (c1, c2, c3) = choose|c1: CompactHeightfield, c2: CompactHeightfield, c3: CompactHeightfield|
        {
            &&& #[trigger] compact_built(input.heightfield, cfg.walkable_height, cfg.walkable_climb, c1)
            &&& #[trigger] eroded(c1, cfg.walkable_radius, c2)
            &&& #[trigger] volumes_marked(c2, input.volumes@, c3)
            &&& distance_built(c3, t.compact)
        };
    lemma_volumes_marked_preserves(c2, input.volumes@, c3);
    crate::connect::lemma_connections_built_transfer(c1, t.compact);
}

/// Applying one more volume extends a marking chain.
pub proof fn lemma_volumes_marked_snoc(
    a: CompactHeightfield,
    vols: Seq<ConvexVolume>,
    m: CompactHeightfield,
    vol: ConvexVolume,
    b: CompactHeightfield,
)
    requires
        volumes_marked(a, vols, m),
        volume_marked(m, vol, b),
    ensures
        volumes_marked(a, vols.push(vol), b),
    decreases vols.len(),
{
    if vols.len() == 0 {
        assert(vols.push(vol).skip(1) =~= Seq::<ConvexVolume>::empty());
        assert(vols.push(vol)[0] == vol);
        assert(volume_marked(a, vol, b) && volumes_marked(b, vols.push(vol).skip(1), b));
    } else {
        let mid = choose|mid: CompactHeightfield|
            #[trigger] volume_marked(a, vols[0], mid) && volumes_marked(mid, vols.skip(1), m);
        lemma_volumes_marked_snoc(mid, vols.skip(1), m, vol, b);
        assert(vols.push(vol).skip(1) =~= vols.skip(1).push(vol));
        assert(vols.push(vol)[0] == vols[0]);
        assert(volume_marked(a, vols.push(vol)[0], mid) && volumes_marked(
            mid,
            vols.push(vol).skip(1),
            b,
        ));
    }
}

} // verus!
