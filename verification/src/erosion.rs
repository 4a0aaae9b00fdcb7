use vstd::prelude::*;

use crate::area::AreaType;
use crate::compact::CompactHeightfield;
use crate::distance::{pass1_cells, pass2_cells_from};

verus! {

// Erosion shrinks the walkable area by the agent radius: a chamfer
// distance to the nearest unwalkable space is computed with the same two
// passes as the distance field, but seeded from a binary walkable mask,
// and every span closer than twice the radius is relabeled unwalkable.

/// Whether span `i` of cell `k` seeds the erosion distance at zero: it is
/// unwalkable itself, or lacks a walkable connected neighbor in some
/// direction.
pub open spec fn erode_boundary_at(chf: CompactHeightfield, k: int, i: int) -> bool {
    ||| !chf.areas@[i].is_walkable_spec()
    ||| exists|dir: int|
        0 <= dir < 4 && !(#[trigger] chf.span_con(i, dir) is Some && chf.areas@[chf.con_target(
            k,
            i,
            dir,
        )].is_walkable_spec())
}

/// The seed of the erosion transform: zero on the walkable boundary, the
/// unreached marker everywhere else.
pub open spec fn erode_seed(chf: CompactHeightfield) -> Seq<u16> {
    Seq::new(
        chf.spans@.len(),
        |i: int|
            if erode_boundary_at(chf, chf.cell_of(i), i) {
                0u16
            } else {
                0xffff as u16
            },
    )
}

/// The chamfer distance of every span to the nearest unwalkable space.
pub open spec fn erode_field(chf: CompactHeightfield) -> Seq<u16> {
    pass2_cells_from(chf, pass1_cells(chf, erode_seed(chf), chf.grid_len() as nat), 0)
}

impl CompactHeightfield {
    /// Computes the seed of the erosion transform: zero for unwalkable
    /// spans and walkable spans missing a walkable connected neighbor, the
    /// unreached marker for the rest.
    #[verifier::rlimit(60)]
    fn compute_erode_seed(&self) -> (df: Vec<u16>)
        requires
            self.wf(),
        ensures
            df@ == erode_seed(*self),
    {
        let n = self.spans.len();
        let mut df: Vec<u16> = vec![0xffffu16; n];
        proof {
            assert forall|k: int, i: int|
                #![trigger self.cell_start(k), df@[i]]
                0 <= k < self.grid_len() && self.cell_start(k) <= i
                    < self.cell_end(k) implies df@[i] == 0xffff by {
                self.lemma_cell_bounds(k);
            }
        }
        let mut z: u16 = 0;
        while z < self.height
            invariant
                self.wf(),
                z <= self.height,
                df@.len() == n,
                n == self.spans@.len(),
                forall|k: int, i: int|
                    #![trigger self.cell_start(k), erode_seed(*self)[i]]
                    0 <= k < z as int * self.width as int && self.cell_start(k) <= i
                        < self.cell_end(k) ==> df@[i] == erode_seed(*self)[i],
                forall|k: int, i: int|
                    #![trigger self.cell_start(k), df@[i]]
                    z as int * self.width as int <= k < self.grid_len() && self.cell_start(k) <= i
                        < self.cell_end(k) ==> df@[i] == 0xffff,
            decreases self.height - z,
        {
            let mut x: u16 = 0;
            while x < self.width
                invariant
                    self.wf(),
                    z < self.height,
                    x <= self.width,
                    df@.len() == n,
                    n == self.spans@.len(),
                    forall|k: int, i: int|
                        #![trigger self.cell_start(k), erode_seed(*self)[i]]
                        0 <= k < z as int * self.width as int + x as int && self.cell_start(k) <= i
                            < self.cell_end(k) ==> df@[i] == erode_seed(*self)[i],
                    forall|k: int, i: int|
                        #![trigger self.cell_start(k), df@[i]]
                        z as int * self.width as int + x as int <= k < self.grid_len()
                            && self.cell_start(k) <= i < self.cell_end(k) ==> df@[i]
                            == 0xffff,
                decreases self.width - x,
            {
                let k = self.cell_index(x, z);
                let cell = self.cells[k];
                proof {
                    self.lemma_cell_bounds(k as int);
                }
                let start = cell.index as usize;
                let count = cell.count as usize;
                let mut j: usize = 0;
                while j < count
                    invariant
                        self.wf(),
                        self.in_grid(x as int, z as int),
                        k == x as int + z as int * self.width as int,
                        k < self.grid_len(),
                        start == self.cell_start(k as int),
                        count == self.cell_count(k as int),
                        start + count <= n,
                        j <= count,
                        df@.len() == n,
                        n == self.spans@.len(),
                        forall|k2: int, i: int|
                            #![trigger self.cell_start(k2), erode_seed(*self)[i]]
                            0 <= k2 < k as int && self.cell_start(k2) <= i < self.cell_end(k2)
                                ==> df@[i] == erode_seed(*self)[i],
                        forall|i: int|
                            start as int <= i < start as int + j as int ==> df@[i]
                                == #[trigger] erode_seed(*self)[i],
                        forall|k2: int, i: int|
                            #![trigger self.cell_start(k2), df@[i]]
                            k as int <= k2 < self.grid_len() && self.cell_start(k2) <= i
                                < self.cell_end(k2) && i >= start as int + j as int ==> df@[i]
                                == 0xffff,
                    decreases count - j,
                {
                    let ghost df_pre = df@;
                    let i = start + j;
                    let span = self.spans[i];
                    let mut boundary: bool = !self.areas[i].is_walkable();
                    let mut connection_count: usize = 0;
                    let mut dir: usize = 0;
                    while dir < 4
                        invariant
                            self.wf(),
                            self.in_grid(x as int, z as int),
                            k == x as int + z as int * self.width as int,
                            self.cell_start(k as int) <= (i as int) && (i as int) < self.cell_end(
                                k as int,
                            ),
                            i < self.spans@.len(),
                            span == self.spans@[i as int],
                            dir <= 4,
                            connection_count <= dir,
                            boundary == !self.areas@[i as int].is_walkable_spec(),
                            (connection_count == dir) <==> (forall|d: int|
                                0 <= d < dir as int ==> #[trigger] self.span_con(i as int, d)
                                    is Some && self.areas@[self.con_target(
                                    k as int,
                                    i as int,
                                    d,
                                )].is_walkable_spec()),
                        decreases 4 - dir,
                    {
                        if let Some(c) = span.con(dir) {
                            let (t, _ax, _az) = self.con_target_at(x, z, i, dir, c);
                            if self.areas[t].is_walkable() {
                                connection_count += 1;
                            }
                        }
                        dir += 1;
                    }
                    proof {
                        self.lemma_cell_of(k as int, i as int);
                        if boundary || connection_count < 4 {
                            if !boundary {
                                assert(!(forall|d: int|
                                    0 <= d < 4 ==> #[trigger] self.span_con(i as int, d) is Some
                                        && self.areas@[self.con_target(
                                        k as int,
                                        i as int,
                                        d,
                                    )].is_walkable_spec()));
                            }
                            assert(erode_boundary_at(*self, k as int, i as int));
                        } else {
                            assert(!erode_boundary_at(*self, k as int, i as int));
                        }
                    }
                    if boundary || connection_count < 4 {
                        df.set(i, 0);
                    }
                    j += 1;
                    proof {
                        assert forall|k2: int| 0 <= k2 < k as int implies #[trigger] self.cell_end(
                            k2,
                        ) <= start as int by {
                            self.lemma_cells_ordered(k2, k as int);
                        }
                        assert forall|k2: int|
                            (k as int) < k2 < self.grid_len() implies #[trigger] self.cell_start(k2)
                            >= start as int + count as int by {
                            self.lemma_cells_ordered(k as int, k2);
                        }
                        assert forall|k2: int, i2: int|
                            #![trigger self.cell_start(k2), df@[i2]]
                            k as int <= k2 < self.grid_len() && self.cell_start(k2) <= i2
                                < self.cell_end(k2) && i2 >= start as int + j as int
                            implies df@[i2] == 0xffff by {
                            self.lemma_cell_bounds(k2);
                            assert(i2 > i as int);
                            assert(df@[i2] == df_pre[i2]);
                            assert(df_pre[i2] == 0xffff);
                        }
                    }
                }
                proof {
                    assert forall|k2: int, i: int|
                        #![trigger self.cell_start(k2), df@[i]]
                        k as int + 1 <= k2 < self.grid_len() && self.cell_start(k2) <= i
                            < self.cell_end(k2) implies df@[i] == 0xffff by {
                        self.lemma_cells_ordered(k as int, k2);
                    }
                    assert forall|k2: int, i: int|
                        #![trigger self.cell_start(k2), erode_seed(*self)[i]]
                        0 <= k2 < k as int + 1 && self.cell_start(k2) <= i
                            < self.cell_end(k2) implies df@[i] == erode_seed(*self)[i] by {
                    }
                }
                x += 1;
            }
            z += 1;
            proof {
                let wi = self.width as int;
                let zi = z as int;
                assert((zi - 1) * wi + wi == zi * wi) by (nonlinear_arith);
            }
        }
        proof {
            let wi = self.width as int;
            let hi = self.height as int;
            assert(hi * wi == wi * hi) by (nonlinear_arith);
            assert forall|i: int| 0 <= i < n as int implies df@[i] == erode_seed(*self)[i] by {
                self.lemma_span_has_cell(i);
            }
            assert(df@ =~= erode_seed(*self));
        }
        df
    }

    /// Shrinks the walkable area by the agent radius: every walkable span
    /// whose chamfer distance to unwalkable space is below twice the
    /// radius is relabeled unwalkable; all other state is untouched. Every
    /// span left walkable keeps a distance of at least `2 * radius` from
    /// the nearest unwalkable space.
    pub fn erode_walkable_area(&mut self, radius: u16)
        requires
            old(self).wf(),
        ensures
            final(self).wf(),
            final(self).width == old(self).width,
            final(self).height == old(self).height,
            final(self).walkable_height == old(self).walkable_height,
            final(self).walkable_climb == old(self).walkable_climb,
            final(self).cells == old(self).cells,
            final(self).spans == old(self).spans,
            final(self).dist == old(self).dist,
            final(self).max_distance == old(self).max_distance,
            final(self).areas@.len() == old(self).areas@.len(),
            forall|i: int|
                0 <= i < old(self).areas@.len() ==> final(self).areas@[i] == (
                if (erode_field(*old(self))[i] as int) < 2 * radius as int {
                    AreaType::null_area()
                } else {
                    old(self).areas@[i]
                }),
            forall|i: int|
                0 <= i < old(self).areas@.len() && final(self).areas@[i].is_walkable_spec()
                    ==> erode_field(*old(self))[i] as int >= 2 * radius as int,
    {
        let mut df = self.compute_erode_seed();
        self.chamfer_pass_fwd(&mut df);
        self.chamfer_pass_bwd(&mut df);
        let thr: u32 = radius as u32 * 2;
        let n = self.areas.len();
        let mut i: usize = 0;
        while i < n
            invariant
                n == old(self).areas@.len(),
                i <= n,
                df@ == erode_field(*old(self)),
                df@.len() == n,
                thr == 2 * radius as int,
                *self == (CompactHeightfield { areas: self.areas, ..*old(self) }),
                self.areas@.len() == n,
                forall|i2: int|
                    0 <= i2 < i as int ==> self.areas@[i2] == (
                    if (erode_field(*old(self))[i2] as int) < 2 * radius as int {
                        AreaType::null_area()
                    } else {
                        old(self).areas@[i2]
                    }),
                forall|i2: int| i as int <= i2 < n ==> self.areas@[i2] == old(self).areas@[i2],
            decreases n - i,
        {
            if (df[i] as u32) < thr {
                self.areas.set(i, AreaType::null());
            }
            i += 1;
        }
        proof {
            old(self).lemma_wf_same_grid(*self);
        }
    }
}

} // verus!
