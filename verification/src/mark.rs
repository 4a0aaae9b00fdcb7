use vstd::prelude::*;

use crate::area::AreaType;
use crate::compact::CompactHeightfield;

verus! {

// Convex-volume marking relabels the walkable spans under a volume's XZ
// footprint. The footprint is carried in voxel coordinates, with one flag
// per footprint cell saying whether the cell's center lies inside the
// volume's polygon; computing those flags from world-space vertices is
// floating-point work that happens outside the library.

/// A convex volume in voxel coordinates: an XZ footprint rectangle with a
/// per-cell inclusion mask, a Y range, and the area value to apply.
#[derive(Debug, Clone, PartialEq)]
pub struct ConvexVolume {
    /// Leftmost footprint column, in voxel units (may lie off the grid).
    pub min_x: i32,
    /// Rightmost footprint column.
    pub max_x: i32,
    /// Nearest footprint row.
    pub min_z: i32,
    /// Farthest footprint row.
    pub max_z: i32,
    /// Lowest affected span floor, in voxel units.
    pub min_y: i32,
    /// Highest affected span floor, in voxel units.
    pub max_y: i32,
    /// The area value written to the spans inside the volume.
    pub area: AreaType,
    /// Row-major over the footprint rectangle: whether each cell's center
    /// lies inside the volume's polygon.
    pub inside: Vec<bool>,
}

impl ConvexVolume {
    /// Width of the footprint rectangle.
    pub open spec fn footprint_w(self) -> int {
        self.max_x - self.min_x + 1
    }

    /// Height of the footprint rectangle.
    pub open spec fn footprint_h(self) -> int {
        self.max_z - self.min_z + 1
    }

    /// The footprint rectangle is non-empty and the mask covers it.
    pub open spec fn wf(self) -> bool {
        &&& self.min_x <= self.max_x
        &&& self.min_z <= self.max_z
        &&& self.inside@.len() == self.footprint_w() * self.footprint_h()
    }

    /// Whether the center of column `(x, z)` lies inside the volume.
    pub open spec fn contains_cell(self, x: int, z: int) -> bool {
        &&& self.min_x <= x <= self.max_x
        &&& self.min_z <= z <= self.max_z
        &&& self.inside@[(x - self.min_x) + (z - self.min_z) * self.footprint_w()]
    }

    /// Checks well-formedness of the footprint mask.
    pub fn check_wf(&self) -> (r: bool)
        ensures
            r == self.wf(),
    {
        if self.min_x > self.max_x || self.min_z > self.max_z {
            return false;
        }
        let fw = self.max_x as i64 - self.min_x as i64 + 1;
        let fh = self.max_z as i64 - self.min_z as i64 + 1;
        proof {
            let fwi = fw as int;
            let fhi = fh as int;
            assert(fwi * fhi <= 0x1_0000_0000_0000_0000) by (nonlinear_arith)
                requires
                    1 <= fwi <= 0x1_0000_0000,
                    1 <= fhi <= 0x1_0000_0000,
            ;
        }
        let want: u128 = fw as u128 * fh as u128;
        (self.inside.len() as u128) == want
    }
}

/// Whether span `i` of cell `k` is relabeled by the volume: its column's
/// center lies inside the polygon, it is still walkable, and its floor
/// lies within the volume's Y range.
pub open spec fn marked_span(
    chf: CompactHeightfield,
    vol: ConvexVolume,
    k: int,
    i: int,
) -> bool {
    &&& vol.contains_cell(chf.cell_x(k), chf.cell_z(k))
    &&& chf.areas@[i].is_walkable_spec()
    &&& vol.min_y <= chf.spans@[i].y as int <= vol.max_y
}

impl CompactHeightfield {
    /// Sets the area value of the walkable spans that lie within the given
    /// convex volume; every other span keeps its label, and nothing else
    /// changes.
    #[verifier::rlimit(100)]
    pub fn mark_convex_poly_area(&mut self, volume: &ConvexVolume)
        requires
            old(self).wf(),
            volume.wf(),
        ensures
            final(self).wf(),
            final(self).width == old(self).width,
            final(self).height == old(self).height,
            final(self).walkable_height == old(self).walkable_height,
            final(self).walkable_climb == old(self).walkable_climb,
            final(self).cells == old(self).cells,
            final(self).spans == old(self).spans,
            final(self).dist == old(self).dist,
            final(self).max_distance == old(self).max_distance,
            final(self).areas@.len() == old(self).areas@.len(),
            forall|i: int|
                0 <= i < old(self).areas@.len() ==> final(self).areas@[i] == (
                if marked_span(*old(self), *volume, old(self).cell_of(i), i) {
                    volume.area
                } else {
                    old(self).areas@[i]
                }),
    {
        let w = self.width;
        let h = self.height;
        let min_x = if volume.min_x > 0 {
            volume.min_x
        } else {
            0
        };
        let max_x = if volume.max_x < w as i32 - 1 {
            volume.max_x
        } else {
            w as i32 - 1
        };
        let min_z = if volume.min_z > 0 {
            volume.min_z
        } else {
            0
        };
        let max_z = if volume.max_z < h as i32 - 1 {
            volume.max_z
        } else {
            h as i32 - 1
        };
        if min_x > max_x || min_z > max_z {
            proof {
                assert forall|i: int| 0 <= i < self.areas@.len() implies !marked_span(
                    *old(self),
                    *volume,
                    old(self).cell_of(i),
                    i,
                ) by {
                    self.lemma_span_has_cell(i);
                    let ki = old(self).cell_of(i);
                    old(self).lemma_cell_decompose(ki);
                }
            }
            return ;
        }
        let ghost chf0 = *old(self);
        let mask_len = volume.inside.len();
        proof {
            assert forall|i: int|
                0 <= i < chf0.areas@.len() && #[trigger] marked_span(
                    chf0,
                    *volume,
                    chf0.cell_of(i),
                    i,
                ) implies min_x as int <= chf0.cell_x(chf0.cell_of(i)) <= max_x as int && min_z
                as int <= chf0.cell_z(chf0.cell_of(i)) <= max_z as int by {
                chf0.lemma_span_has_cell(i);
                chf0.lemma_cell_decompose(chf0.cell_of(i));
            }
        }
        let mut z: i32 = min_z;
        while z <= max_z
            invariant
                self.wf(),
                chf0.wf(),
                volume.wf(),
                mask_len == volume.inside@.len(),
                *self == (CompactHeightfield { areas: self.areas, ..chf0 }),
                chf0 == *old(self),
                self.areas@.len() == chf0.areas@.len(),
                0 <= min_z,
                min_z <= z <= max_z + 1,
                max_z < self.height as int,
                0 <= min_x <= max_x,
                max_x < self.width as int,
                volume.min_x <= min_x,
                max_x <= volume.max_x,
                volume.min_z <= min_z,
                max_z <= volume.max_z,
                min_x <= volume.min_x || min_x == 0,
                max_x >= volume.max_x || max_x == self.width as int - 1,
                min_z <= volume.min_z || min_z == 0,
                max_z >= volume.max_z || max_z == self.height as int - 1,
                forall|i: int|
                    0 <= i < chf0.areas@.len() && #[trigger] marked_span(
                        chf0,
                        *volume,
                        chf0.cell_of(i),
                        i,
                    ) ==> min_x as int <= chf0.cell_x(chf0.cell_of(i)) <= max_x as int
                        && min_z as int <= chf0.cell_z(chf0.cell_of(i)) <= max_z as int,
                forall|i: int|
                    0 <= i < chf0.areas@.len() && !marked_span(chf0, *volume, chf0.cell_of(i), i)
                        ==> self.areas@[i] == chf0.areas@[i],
                forall|i: int|
                    0 <= i < chf0.areas@.len() && #[trigger] marked_span(
                        chf0,
                        *volume,
                        chf0.cell_of(i),
                        i,
                    ) ==> self.areas@[i] == (if chf0.cell_z(chf0.cell_of(i)) < z as int {
                        volume.area
                    } else {
                        chf0.areas@[i]
                    }),
            decreases max_z + 1 - z,
        {
            let mut x: i32 = min_x;
            while x <= max_x
                invariant
                    self.wf(),
                    chf0.wf(),
                    volume.wf(),
                    mask_len == volume.inside@.len(),
                    *self == (CompactHeightfield { areas: self.areas, ..chf0 }),
                    chf0 == *old(self),
                    self.areas@.len() == chf0.areas@.len(),
                    0 <= min_z,
                    min_z <= z <= max_z,
                    max_z < self.height as int,
                    0 <= min_x,
                    min_x <= x <= max_x + 1,
                    max_x < self.width as int,
                    volume.min_x <= min_x,
                    max_x <= volume.max_x,
                    volume.min_z <= min_z,
                    max_z <= volume.max_z,
                    forall|i: int|
                        0 <= i < chf0.areas@.len() && #[trigger] marked_span(
                            chf0,
                            *volume,
                            chf0.cell_of(i),
                            i,
                        ) ==> min_x as int <= chf0.cell_x(chf0.cell_of(i)) <= max_x as int
                            && min_z as int <= chf0.cell_z(chf0.cell_of(i)) <= max_z as int,
                    forall|i: int|
                        0 <= i < chf0.areas@.len() && !marked_span(
                            chf0,
                            *volume,
                            chf0.cell_of(i),
                            i,
                        ) ==> self.areas@[i] == chf0.areas@[i],
                    forall|i: int|
                        0 <= i < chf0.areas@.len() && #[trigger] marked_span(
                            chf0,
                            *volume,
                            chf0.cell_of(i),
                            i,
                        ) ==> self.areas@[i] == (
                        if chf0.cell_z(chf0.cell_of(i)) < z as int || (chf0.cell_z(chf0.cell_of(i))
                            == z as int && chf0.cell_x(chf0.cell_of(i)) < x as int) {
                            volume.area
                        } else {
                            chf0.areas@[i]
                        }),
                decreases max_x + 1 - x,
            {
                let dx = (x as i64 - volume.min_x as i64) as usize;
                let dz = (z as i64 - volume.min_z as i64) as usize;
                let fw = (volume.max_x as i64 - volume.min_x as i64 + 1) as usize;
                proof {
                    let fwi = volume.footprint_w();
                    let fhi = volume.footprint_h();
                    let dxi = dx as int;
                    let dzi = dz as int;
                    assert(dxi + dzi * fwi < fwi * fhi && dzi * fwi <= fwi * fhi && fwi <= fwi
                        * fhi) by (nonlinear_arith)
                        requires
                            0 <= dxi < fwi,
                            0 <= dzi < fhi,
                            1 <= fhi,
                    ;
                }
                let fi = dx + dz * fw;
                if volume.inside[fi] {
                    let k = self.cell_index(x as u16, z as u16);
                    let cell = self.cells[k];
                    proof {
                        chf0.lemma_cell_bounds(k as int);
                        assert(volume.contains_cell(x as int, z as int));
                    }
                    let start = cell.index as usize;
                    let count = cell.count as usize;
                    proof {
                        assert forall|i: int|
                            0 <= i < chf0.areas@.len() && #[trigger] marked_span(
                                chf0,
                                *volume,
                                chf0.cell_of(i),
                                i,
                            ) implies chf0.cell_start(chf0.cell_of(i)) <= i by {
                            chf0.lemma_span_has_cell(i);
                        }
                    }
                    let mut j: usize = 0;
                    while j < count
                        invariant
                            self.wf(),
                            chf0.wf(),
                            volume.wf(),
                            *self == (CompactHeightfield { areas: self.areas, ..chf0 }),
                            chf0 == *old(self),
                            self.areas@.len() == chf0.areas@.len(),
                            0 <= min_z,
                            min_z <= z <= max_z,
                            max_z < self.height as int,
                            0 <= min_x,
                            min_x <= x <= max_x,
                            max_x < self.width as int,
                            k == x as int + z as int * self.width as int,
                            k < self.grid_len(),
                            self.cell_x(k as int) == x as int,
                            self.cell_z(k as int) == z as int,
                            start == chf0.cell_start(k as int),
                            count == chf0.cell_count(k as int),
                            start + count <= self.spans@.len(),
                            self.areas@.len() == self.spans@.len(),
                            j <= count,
                            volume.contains_cell(x as int, z as int),
                        forall|i: int|
                            0 <= i < chf0.areas@.len() && #[trigger] marked_span(
                                chf0,
                                *volume,
                                chf0.cell_of(i),
                                i,
                            ) ==> min_x as int <= chf0.cell_x(chf0.cell_of(i)) <= max_x as int
                                && min_z as int <= chf0.cell_z(chf0.cell_of(i)) <= max_z as int,
                            forall|i: int|
                                0 <= i < chf0.areas@.len() && !marked_span(
                                    chf0,
                                    *volume,
                                    chf0.cell_of(i),
                                    i,
                                ) ==> self.areas@[i] == chf0.areas@[i],
                            forall|i: int|
                                0 <= i < chf0.areas@.len() && #[trigger] marked_span(
                                    chf0,
                                    *volume,
                                    chf0.cell_of(i),
                                    i,
                                ) ==> self.areas@[i] == (
                                if chf0.cell_z(chf0.cell_of(i)) < z as int || (chf0.cell_z(
                                    chf0.cell_of(i),
                                ) == z as int && chf0.cell_x(chf0.cell_of(i)) < x as int) || (
                                chf0.cell_of(i) == k as int && i < start as int + j as int) {
                                    volume.area
                                } else {
                                    chf0.areas@[i]
                                }),
                        decreases count - j,
                    {
                        let i = start + j;
                        let span = self.spans[i];
                        proof {
                            chf0.lemma_cell_of(k as int, i as int);
                        }
                        if self.areas[i].is_walkable() && span.y as i32 >= volume.min_y && span.y
                            as i32 <= volume.max_y {
                            let a = volume.area;
                            self.areas.set(i, a);
                            proof {
                                assert(marked_span(chf0, *volume, k as int, i as int));
                                chf0.lemma_wf_same_grid(*self);
                            }
                        } else {
                            proof {
                                assert(!marked_span(chf0, *volume, k as int, i as int));
                            }
                        }
                        j += 1;
                    }
                }
                proof {
                    assert forall|i: int|
                        0 <= i < chf0.areas@.len() && #[trigger] marked_span(
                            chf0,
                            *volume,
                            chf0.cell_of(i),
                            i,
                        ) implies self.areas@[i] == (
                        if chf0.cell_z(chf0.cell_of(i)) < z as int || (chf0.cell_z(chf0.cell_of(i))
                            == z as int && chf0.cell_x(chf0.cell_of(i)) < x as int + 1) {
                            volume.area
                        } else {
                            chf0.areas@[i]
                        }) by {
                        chf0.lemma_span_has_cell(i);
                        let ki = chf0.cell_of(i);
                        chf0.lemma_cell_decompose(ki);
                    }
                }
                x += 1;
            }
            z += 1;
        }
        proof {
            assert forall|i: int|
                0 <= i < chf0.areas@.len() implies self.areas@[i] == (
                if marked_span(chf0, *volume, chf0.cell_of(i), i) {
                    volume.area
                } else {
                    chf0.areas@[i]
                }) by {
                chf0.lemma_span_has_cell(i);
                let ki = chf0.cell_of(i);
                chf0.lemma_cell_decompose(ki);
            }
        }
    }
}

} // verus!
