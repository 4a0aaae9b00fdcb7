use vstd::prelude::*;

use crate::area::AreaType;
use crate::math::{dir_offset_x_spec, dir_offset_z_spec};

verus! {

/// One cell of the compact heightfield grid: a window into the flat span
/// array, giving the first span of the cell's column and how many it holds.
#[derive(Debug, Clone, Copy, PartialEq, Eq, Structural)]
pub struct CompactCell {
    /// Index of the column's first span in the flat span array.
    pub index: u32,
    /// Number of spans in the column.
    pub count: u16,
}

impl CompactCell {
    /// Index of the column's first span in the flat span array.
    pub fn index(&self) -> (r: u32)
        ensures
            r == self.index,
    {
        self.index
    }

    /// Number of spans in the column.
    pub fn count(&self) -> (r: u16)
        ensures
            r == self.count,
    {
        self.count
    }
}

/// One walkable interval of a voxel column: a floor at `y` with `h` voxels
/// of open space above it, and a link per direction to the matching span
/// of the neighboring column, if any.
#[derive(Debug, Clone, Copy, PartialEq)]
pub struct CompactSpan {
    /// Floor of the open interval, in voxel units.
    pub y: u16,
    /// Clearance above the floor, in voxel units.
    pub h: u16,
    /// Per-direction link: the index of the connected span relative to the
    /// start of the neighbor column, or `None` for no walkable neighbor.
    pub con: [Option<u8>; 4],
}

impl CompactSpan {
    /// The connection of this span in the given direction.
    pub fn con(&self, dir: usize) -> (r: Option<u8>)
        requires
            dir < 4,
        ensures
            r == self.con[dir as int],
    {
        self.con[dir]
    }
}

/// The walkable-top surface of a heightfield: a `width x height` grid of
/// cells, each holding a run of spans in one flat array, with per-span area
/// labels and the distance field filled in by the chamfer passes.
#[derive(Debug, Clone, PartialEq)]
pub struct CompactHeightfield {
    /// Grid extent along X, in voxel columns.
    pub width: u16,
    /// Grid extent along Z, in voxel columns.
    pub height: u16,
    /// Minimum clearance of a walkable span, in voxel units.
    pub walkable_height: u16,
    /// Maximum floor step between connected spans, in voxel units.
    pub walkable_climb: u16,
    /// The grid cells, row-major: cell of column `(x, z)` is `cells[x + z * width]`.
    pub cells: Vec<CompactCell>,
    /// All spans, cell by cell in row-major cell order.
    pub spans: Vec<CompactSpan>,
    /// Area label of each span.
    pub areas: Vec<AreaType>,
    /// Distance-to-boundary of each span, filled by `build_distance_field`.
    pub dist: Vec<u16>,
    /// Largest value of the unblurred distance field.
    pub max_distance: u16,
}

impl CompactHeightfield {
    /// Number of grid cells.
    pub open spec fn grid_len(self) -> int {
        self.width as int * self.height as int
    }

    /// X coordinate of cell `k`.
    pub open spec fn cell_x(self, k: int) -> int {
        k % (self.width as int)
    }

    /// Z coordinate of cell `k`.
    pub open spec fn cell_z(self, k: int) -> int {
        k / (self.width as int)
    }

    /// First span index of cell `k`.
    pub open spec fn cell_start(self, k: int) -> int {
        self.cells@[k].index as int
    }

    /// Number of spans of cell `k`.
    pub open spec fn cell_count(self, k: int) -> int {
        self.cells@[k].count as int
    }

    /// One past the last span index of cell `k`.
    pub open spec fn cell_end(self, k: int) -> int {
        self.cell_start(k) + self.cell_count(k)
    }

    /// The cells carve the flat span array into consecutive runs, row-major:
    /// cell 0 starts at 0, each cell starts where the previous one ends, and
    /// the last cell ends at the length of the span array.
    pub open spec fn cells_contiguous(self) -> bool {
        &&& self.cells@.len() == self.grid_len()
        &&& (self.cells@.len() > 0 ==> self.cell_start(0) == 0)
        &&& (forall|k: int|
            0 <= k < self.cells@.len() - 1 ==> self.cell_start(k + 1) == #[trigger] self.cell_end(
                k,
            ))
        &&& (if self.cells@.len() > 0 {
            self.cell_end(self.cells@.len() - 1) == self.spans@.len()
        } else {
            self.spans@.len() == 0
        })
    }

    /// Whether `(x, z)` lies on the grid.
    pub open spec fn in_grid(self, x: int, z: int) -> bool {
        0 <= x < self.width as int && 0 <= z < self.height as int
    }

    /// Whether cell `k` has a neighbor cell in direction `dir`.
    pub open spec fn has_nbr(self, k: int, dir: int) -> bool {
        self.in_grid(
            self.cell_x(k) + dir_offset_x_spec(dir),
            self.cell_z(k) + dir_offset_z_spec(dir),
        )
    }

    /// Index of the neighbor cell of cell `k` in direction `dir`.
    pub open spec fn nbr_cell(self, k: int, dir: int) -> int {
        (self.cell_x(k) + dir_offset_x_spec(dir)) + (self.cell_z(k) + dir_offset_z_spec(dir))
            * (self.width as int)
    }

    /// The connection of span `i` in direction `dir`.
    pub open spec fn span_con(self, i: int, dir: int) -> Option<u8> {
        self.spans@[i].con[dir]
    }

    /// Flat index of the span that span `i` of cell `k` connects to in
    /// direction `dir` (meaningful only when the connection is present).
    pub open spec fn con_target(self, k: int, i: int, dir: int) -> int {
        self.cell_start(self.nbr_cell(k, dir)) + self.span_con(i, dir)->0 as int
    }

    /// A present connection of span `i` of cell `k` addresses a span of the
    /// neighbor column: the neighbor cell lies on the grid and the relative
    /// index is within its span count.
    pub open spec fn con_valid(self, k: int, i: int, dir: int) -> bool {
        self.span_con(i, dir) is Some ==> {
            &&& self.has_nbr(k, dir)
            &&& (self.span_con(i, dir)->0 as int) < self.cell_count(self.nbr_cell(k, dir))
        }
    }

    /// Well-formedness: the arrays agree in length, the cells carve the span
    /// array contiguously, and every connection addresses a span of the
    /// neighboring column.
    pub open spec fn wf(self) -> bool {
        &&& self.cells_contiguous()
        &&& self.areas@.len() == self.spans@.len()
        &&& self.dist@.len() == self.spans@.len()
        &&& self.spans@.len() <= u32::MAX
        &&& (forall|k: int, i: int, dir: int|
            0 <= k < self.grid_len() && self.cell_start(k) <= i < self.cell_end(k) && 0 <= dir < 4
                ==> #[trigger] self.con_valid(k, i, dir))
    }

    /// Cell starts are monotone: an earlier cell ends no later than a later
    /// one starts.
    pub proof fn lemma_cells_ordered(self, k1: int, k2: int)
        requires
            self.cells_contiguous(),
            0 <= k1 <= k2 < self.cells@.len(),
        ensures
            self.cell_end(k1) <= self.cell_end(k2),
            self.cell_start(k1) <= self.cell_start(k2),
            k1 < k2 ==> self.cell_end(k1) <= self.cell_start(k2),
        decreases k2 - k1,
    {
        if k1 < k2 {
            assert(self.cell_start(k1 + 1) == self.cell_end(k1));
            self.lemma_cells_ordered(k1 + 1, k2);
        }
    }

    /// Every cell's span run lies within the span array.
    pub proof fn lemma_cell_bounds(self, k: int)
        requires
            self.cells_contiguous(),
            0 <= k < self.cells@.len(),
        ensures
            0 <= self.cell_start(k),
            self.cell_end(k) <= self.spans@.len(),
    {
        self.lemma_cells_ordered(k, self.cells@.len() - 1);
    }

    /// The cell that span `i` belongs to.
    pub open spec fn cell_of(self, i: int) -> int {
        choose|k: int|
            0 <= k < self.cells@.len() && #[trigger] self.cell_start(k) <= i < self.cell_end(k)
    }

    /// A span within cell `k`'s run belongs to cell `k` and no other.
    pub proof fn lemma_cell_of(self, k: int, i: int)
        requires
            self.cells_contiguous(),
            0 <= k < self.cells@.len(),
            self.cell_start(k) <= i < self.cell_end(k),
        ensures
            self.cell_of(i) == k,
    {
        assert(0 <= k < self.cells@.len() && self.cell_start(k) <= i < self.cell_end(k));
        let k2 = self.cell_of(i);
        assert(0 <= k2 < self.cells@.len() && self.cell_start(k2) <= i < self.cell_end(k2));
        if k2 < k {
            self.lemma_cells_ordered(k2, k);
            assert(false);
        } else if k < k2 {
            self.lemma_cells_ordered(k, k2);
            assert(false);
        }
    }

    /// X and Z of a row-major cell index recombine into the index.
    pub proof fn lemma_cell_coords(self, x: int, z: int)
        requires
            self.in_grid(x, z),
        ensures
            0 <= x + z * (self.width as int) < self.grid_len(),
            self.cell_x(x + z * (self.width as int)) == x,
            self.cell_z(x + z * (self.width as int)) == z,
    {
        let w = self.width as int;
        let h = self.height as int;
        assert(0 <= x + z * w < w * h && (x + z * w) % w == x && (x + z * w) / w == z)
            by (nonlinear_arith)
            requires
                0 <= x < w,
                0 <= z < h,
        ;
    }

    /// The target of a present connection is a span of the neighbor column.
    pub proof fn lemma_con_target_bounds(self, k: int, i: int, dir: int)
        requires
            self.wf(),
            0 <= k < self.grid_len(),
            self.cell_start(k) <= i < self.cell_end(k),
            0 <= dir < 4,
            self.span_con(i, dir) is Some,
        ensures
            self.has_nbr(k, dir),
            0 <= self.nbr_cell(k, dir) < self.grid_len(),
            self.cell_start(self.nbr_cell(k, dir)) <= self.con_target(k, i, dir) < self.cell_end(
                self.nbr_cell(k, dir),
            ),
            0 <= self.con_target(k, i, dir) < self.spans@.len(),
    {
        assert(self.con_valid(k, i, dir));
        let x2 = self.cell_x(k) + dir_offset_x_spec(dir);
        let z2 = self.cell_z(k) + dir_offset_z_spec(dir);
        self.lemma_cell_coords(x2, z2);
        self.lemma_cell_bounds(self.nbr_cell(k, dir));
    }

    /// A cell index decomposes into on-grid X and Z coordinates.
    pub proof fn lemma_cell_decompose(self, k: int)
        requires
            0 <= k < self.grid_len(),
        ensures
            self.in_grid(self.cell_x(k), self.cell_z(k)),
            k == self.cell_x(k) + self.cell_z(k) * (self.width as int),
    {
        let w = self.width as int;
        let h = self.height as int;
        assert(0 <= k % w < w && 0 <= k / w < h && k == k % w + (k / w) * w) by (nonlinear_arith)
            requires
                0 <= k < w * h,
                0 <= w,
                0 <= h,
        ;
    }

    /// Well-formedness does not depend on `dist` contents, `max_distance`
    /// or the walkable parameters: a value with the same grid fields and a
    /// `dist` of matching length is well-formed too.
    pub proof fn lemma_wf_same_grid(self, other: CompactHeightfield)
        requires
            self.wf(),
            other.width == self.width,
            other.height == self.height,
            other.cells == self.cells,
            other.spans == self.spans,
            other.areas@.len() == other.spans@.len(),
            other.dist@.len() == other.spans@.len(),
        ensures
            other.wf(),
    {
        assert forall|k: int|
            0 <= k < other.cells@.len() - 1 implies other.cell_start(k + 1) == #[trigger] other
            .cell_end(k) by {
            assert(self.cell_start(k + 1) == self.cell_end(k));
        }
        assert(other.cells_contiguous());
        assert forall|k: int, i: int, dir: int|
            0 <= k < other.grid_len() && other.cell_start(k) <= i < other.cell_end(k) && 0 <= dir
                < 4 implies #[trigger] other.con_valid(k, i, dir) by {
            assert(self.con_valid(k, i, dir));
        }
    }

    /// Fetches the cell of column `(x, z)`.
    pub fn cell_at(&self, x: u16, z: u16) -> (c: CompactCell)
        requires
            self.wf(),
            (x as int) < self.width as int,
            (z as int) < self.height as int,
        ensures
            c == self.cells@[x as int + z as int * self.width as int],
    {
        proof {
            self.lemma_cell_coords(x as int, z as int);
            let xi = x as int;
            let zi = z as int;
            let wi = self.width as int;
            assert(xi + zi * wi <= 0xffff_ffff) by (nonlinear_arith)
                requires
                    0 <= xi < 0x1_0000,
                    0 <= zi < 0x1_0000,
                    0 <= wi < 0x1_0000,
            ;
        }
        self.cells[x as usize + z as usize * self.width as usize]
    }
}

} // verus!
