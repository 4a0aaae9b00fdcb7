use vstd::prelude::*;

use crate::compact::CompactHeightfield;
use crate::math::{dir_offset_x, dir_offset_z, dir_offset_x_spec, dir_offset_z_spec};

verus! {

// Watershed preparation: the two-pass chamfer distance transform over the
// walkable surface, and the box blur that smooths it.
//
// The transform walks the spans in row-major cell order (increasing z, then
// x, then span index within the cell), which under `cells_contiguous` is
// exactly increasing flat span index; the backward pass walks cells in the
// reverse order. Each pass relaxes a span against taps whose values are
// already final for that pass, so the passes below are defined as folds in
// that same order.

/// Addition on distance values that sticks at the largest `u16`, the
/// "unreached" marker.
pub open spec fn sat_plus(a: u16, c: u16) -> u16 {
    if a as int + c as int > 0xffff {
        0xffff as u16
    } else {
        (a + c) as u16
    }
}

/// One relaxation: lower `v` to `n + cost` if that is smaller.
pub open spec fn relax(v: u16, n: u16, cost: u16) -> u16 {
    if sat_plus(n, cost) < v {
        sat_plus(n, cost)
    } else {
        v
    }
}

/// Relax span `i` of cell `k` against its axis neighbor in direction `d1`
/// (cost 2) and, through it, the diagonal neighbor in direction `d2`
/// (cost 3), reading distances from `df`.
pub open spec fn axis_diag_value(
    chf: CompactHeightfield,
    df: Seq<u16>,
    v: u16,
    k: int,
    i: int,
    d1: int,
    d2: int,
) -> u16 {
    if chf.span_con(i, d1) is Some {
        let ka = chf.nbr_cell(k, d1);
        let a = chf.con_target(k, i, d1);
        let v1 = relax(v, df[a], 2);
        if chf.span_con(a, d2) is Some {
            relax(v1, df[chf.con_target(ka, a, d2)], 3)
        } else {
            v1
        }
    } else {
        v
    }
}

/// Value of span `i` of cell `k` after the forward pass visits it:
/// relaxed against (-1,0), (-1,-1), (0,-1) and (+1,-1).
pub open spec fn pass1_value(chf: CompactHeightfield, df: Seq<u16>, k: int, i: int) -> u16 {
    axis_diag_value(chf, df, axis_diag_value(chf, df, df[i], k, i, 0, 3), k, i, 3, 2)
}

/// Value of span `i` of cell `k` after the backward pass visits it:
/// relaxed against (+1,0), (+1,+1), (0,+1) and (-1,+1).
pub open spec fn pass2_value(chf: CompactHeightfield, df: Seq<u16>, k: int, i: int) -> u16 {
    axis_diag_value(chf, df, axis_diag_value(chf, df, df[i], k, i, 2, 1), k, i, 1, 0)
}

/// The distance field after a pass has visited the first `j` spans of
/// cell `k`, starting from `df`.
pub open spec fn pass_cell(
    chf: CompactHeightfield,
    df: Seq<u16>,
    k: int,
    j: nat,
    fwd: bool,
) -> Seq<u16>
    decreases j,
{
    if j == 0 {
        df
    } else {
        let prev = pass_cell(chf, df, k, (j - 1) as nat, fwd);
        let i = chf.cell_start(k) + j - 1;
        prev.update(
            i,
            if fwd {
                pass1_value(chf, prev, k, i)
            } else {
                pass2_value(chf, prev, k, i)
            },
        )
    }
}

/// The distance field after the forward pass has visited the first `k`
/// cells completely.
pub open spec fn pass1_cells(chf: CompactHeightfield, df: Seq<u16>, k: nat) -> Seq<u16>
    decreases k,
{
    if k == 0 {
        df
    } else {
        pass_cell(
            chf,
            pass1_cells(chf, df, (k - 1) as nat),
            k - 1,
            chf.cell_count(k - 1) as nat,
            true,
        )
    }
}

/// The distance field after the backward pass has visited the cells
/// `grid_len - 1` down to `k` completely.
pub open spec fn pass2_cells_from(chf: CompactHeightfield, df: Seq<u16>, k: int) -> Seq<u16>
    decreases chf.grid_len() - k,
{
    if k < 0 || k >= chf.grid_len() {
        df
    } else {
        pass_cell(chf, pass2_cells_from(chf, df, k + 1), k, chf.cell_count(k) as nat, false)
    }
}

/// Whether span `i` of cell `k` sits on the walkable boundary: it lacks a
/// same-area connected neighbor in some direction.
pub open spec fn dist_boundary_at(chf: CompactHeightfield, k: int, i: int) -> bool {
    exists|dir: int|
        0 <= dir < 4 && !(#[trigger] chf.span_con(i, dir) is Some && chf.areas@[chf.con_target(
            k,
            i,
            dir,
        )] == chf.areas@[i])
}

/// The seed field of the distance transform: zero on boundary spans, the
/// unreached marker everywhere else.
pub open spec fn dist_seed(chf: CompactHeightfield) -> Seq<u16> {
    Seq::new(
        chf.spans@.len(),
        |i: int|
            if dist_boundary_at(chf, chf.cell_of(i), i) {
                0u16
            } else {
                0xffff as u16
            },
    )
}

/// The full two-pass chamfer distance field of the walkable surface.
pub open spec fn chamfer_field(chf: CompactHeightfield) -> Seq<u16> {
    pass2_cells_from(chf, pass1_cells(chf, dist_seed(chf), chf.grid_len() as nat), 0)
}

/// One tap pair of the box blur at span `i` of cell `k` in direction
/// `dir`: the axis neighbor plus the following diagonal, with the span's
/// own value standing in for an absent diagonal and twice for an absent
/// axis neighbor.
pub open spec fn blur_tap(
    chf: CompactHeightfield,
    df: Seq<u16>,
    k: int,
    i: int,
    dir: int,
) -> int {
    let cd = df[i] as int;
    if chf.span_con(i, dir) is Some {
        let ka = chf.nbr_cell(k, dir);
        let a = chf.con_target(k, i, dir);
        let d2 = if dir == 3 {
            0
        } else {
            dir + 1
        };
        df[a] as int + if chf.span_con(a, d2) is Some {
            df[chf.con_target(ka, a, d2)] as int
        } else {
            cd
        }
    } else {
        2 * cd
    }
}

/// Value of span `i` of cell `k` after the box blur: the rounded mean of
/// the span and its eight-neighbor taps, except that values at or below
/// the threshold pass through unchanged.
pub open spec fn blur_value(
    chf: CompactHeightfield,
    df: Seq<u16>,
    k: int,
    i: int,
    thr: u16,
) -> u16 {
    let cd = df[i];
    if cd <= thr {
        cd
    } else {
        let total = cd as int + blur_tap(chf, df, k, i, 0) + blur_tap(chf, df, k, i, 1)
            + blur_tap(chf, df, k, i, 2) + blur_tap(chf, df, k, i, 3);
        ((total + 5) / 9) as u16
    }
}

/// The blurred distance field.
pub open spec fn blur_field(chf: CompactHeightfield, df: Seq<u16>, thr: u16) -> Seq<u16> {
    Seq::new(df.len(), |i: int| blur_value(chf, df, chf.cell_of(i), i, thr))
}

/// The largest value of a distance field.
pub open spec fn seq_max_u16(s: Seq<u16>) -> u16
    decreases s.len(),
{
    if s.len() == 0 {
        0u16
    } else {
        let m = seq_max_u16(s.drop_last());
        if s.last() > m {
            s.last()
        } else {
            m
        }
    }
}

/// Saturating distance addition, matching `sat_plus`.
fn sat_add(a: u16, c: u16) -> (r: u16)
    ensures
        r == sat_plus(a, c),
{
    if a as u32 + c as u32 > 0xffff {
        0xffff
    } else {
        a + c
    }
}

/// One executable relaxation step, matching `relax`.
fn relax_to(v: u16, n: u16, cost: u16) -> (r: u16)
    ensures
        r == relax(v, n, cost),
{
    let t = sat_add(n, cost);
    if t < v {
        t
    } else {
        v
    }
}

impl CompactHeightfield {
    /// Every span of a well-formed heightfield belongs to a cell.
    pub proof fn lemma_span_has_cell_from(self, i: int, k: int)
        requires
            self.cells_contiguous(),
            0 <= i,
            0 <= k < self.cells@.len(),
            i < self.cell_end(k),
        ensures
            0 <= self.cell_of(i) < self.cells@.len(),
            self.cell_start(self.cell_of(i)) <= i < self.cell_end(self.cell_of(i)),
        decreases k,
    {
        if self.cell_start(k) <= i {
            self.lemma_cell_of(k, i);
        } else {
            assert(k > 0) by {
                if k == 0 {
                    assert(self.cell_start(0) == 0);
                }
            }
            assert(self.cell_start(k) == self.cell_end(k - 1));
            self.lemma_span_has_cell_from(i, k - 1);
        }
    }

    /// Every span of a well-formed heightfield belongs to a cell.
    pub proof fn lemma_span_has_cell(self, i: int)
        requires
            self.cells_contiguous(),
            0 <= i < self.spans@.len(),
        ensures
            0 <= self.cell_of(i) < self.cells@.len(),
            self.cell_start(self.cell_of(i)) <= i < self.cell_end(self.cell_of(i)),
    {
        self.lemma_span_has_cell_from(i, self.cells@.len() - 1);
    }

    /// Flat index of the cell of column `(x, z)`.
    pub(crate) fn cell_index(&self, x: u16, z: u16) -> (k: usize)
        requires
            self.in_grid(x as int, z as int),
        ensures
            k == x as int + z as int * self.width as int,
            0 <= k < self.grid_len(),
            self.cell_x(k as int) == x as int,
            self.cell_z(k as int) == z as int,
    {
        proof {
            self.lemma_cell_coords(x as int, z as int);
            let xi = x as int;
            let zi = z as int;
            let wi = self.width as int;
            assert(xi + zi * wi <= 0xffff_ffff) by (nonlinear_arith)
                requires
                    0 <= xi < 0x1_0000,
                    0 <= zi < 0x1_0000,
                    0 <= wi < 0x1_0000,
            ;
        }
        x as usize + z as usize * self.width as usize
    }

    /// Coordinates of the neighbor column of `(x, z)` in direction `dir`.
    pub(crate) fn nbr_coords(&self, x: u16, z: u16, dir: usize) -> (r: (u16, u16))
        requires
            dir < 4,
            self.in_grid(x as int, z as int),
            self.in_grid(
                x as int + dir_offset_x_spec(dir as int),
                z as int + dir_offset_z_spec(dir as int),
            ),
        ensures
            r.0 as int == x as int + dir_offset_x_spec(dir as int),
            r.1 as int == z as int + dir_offset_z_spec(dir as int),
    {
        let ax = x as i32 + dir_offset_x(dir);
        let az = z as i32 + dir_offset_z(dir);
        (ax as u16, az as u16)
    }

    /// Flat index of the span that span `i` of column `(x, z)` connects to
    /// in direction `dir`, together with the neighbor column's coordinates.
    pub(crate) fn con_target_at(&self, x: u16, z: u16, i: usize, dir: usize, c: u8) -> (r: (
        usize,
        u16,
        u16,
    ))
        requires
            self.wf(),
            dir < 4,
            self.in_grid(x as int, z as int),
            ({
                let k = x as int + z as int * self.width as int;
                self.cell_start(k) <= (i as int) && (i as int) < self.cell_end(k)
            }),
            self.span_con(i as int, dir as int) == Some(c),
        ensures
            ({
                let k = x as int + z as int * self.width as int;
                let ka = self.nbr_cell(k, dir as int);
                &&& r.0 as int == self.con_target(k, i as int, dir as int)
                &&& r.0 < self.spans@.len()
                &&& self.cell_start(ka) <= (r.0 as int) && (r.0 as int) < self.cell_end(ka)
                &&& ka == r.1 as int + r.2 as int * self.width as int
                &&& self.in_grid(r.1 as int, r.2 as int)
                &&& r.1 as int == x as int + dir_offset_x_spec(dir as int)
                &&& r.2 as int == z as int + dir_offset_z_spec(dir as int)
            }),
    {
        let ghost k = x as int + z as int * self.width as int;
        proof {
            self.lemma_cell_coords(x as int, z as int);
            self.lemma_con_target_bounds(k, i as int, dir as int);
            assert(self.in_grid(
                x as int + dir_offset_x_spec(dir as int),
                z as int + dir_offset_z_spec(dir as int),
            ));
        }
        let (ax, az) = self.nbr_coords(x, z, dir);
        let ka = self.cell_index(ax, az);
        let cell = self.cells[ka];
        proof {
            self.lemma_cell_bounds(ka as int);
        }
        (cell.index as usize + c as usize, ax, az)
    }

    /// Computes the seed of the distance transform: zero for spans with
    /// fewer than four same-area connected neighbors, the unreached marker
    /// for the rest.
    #[verifier::rlimit(60)]
    pub(crate) fn compute_dist_seed(&self) -> (df: Vec<u16>)
        requires
            self.wf(),
        ensures
            df@ == dist_seed(*self),
    {
        let n = self.spans.len();
        let mut df: Vec<u16> = vec![0xffffu16; n];
        proof {
            assert forall|k: int, i: int|
                #![trigger self.cell_start(k), df@[i]]
                0 <= k < self.grid_len() && self.cell_start(k) <= i
                    < self.cell_end(k) implies df@[i] == 0xffff by {
                self.lemma_cell_bounds(k);
            }
        }
        let mut z: u16 = 0;
        while z < self.height
            invariant
                self.wf(),
                z <= self.height,
                df@.len() == n,
                n == self.spans@.len(),
                forall|k: int, i: int|
                    #![trigger self.cell_start(k), dist_seed(*self)[i]]
                    0 <= k < z as int * self.width as int && self.cell_start(k) <= i
                        < self.cell_end(k) ==> df@[i] == dist_seed(*self)[i],
                forall|k: int, i: int|
                    #![trigger self.cell_start(k), df@[i]]
                    z as int * self.width as int <= k < self.grid_len() && self.cell_start(k) <= i
                        < self.cell_end(k) ==> df@[i] == 0xffff,
            decreases self.height - z,
        {
            let mut x: u16 = 0;
            while x < self.width
                invariant
                    self.wf(),
                    z < self.height,
                    x <= self.width,
                    df@.len() == n,
                    n == self.spans@.len(),
                    forall|k: int, i: int|
                        #![trigger self.cell_start(k), dist_seed(*self)[i]]
                        0 <= k < z as int * self.width as int + x as int && self.cell_start(k) <= i
                            < self.cell_end(k) ==> df@[i] == dist_seed(*self)[i],
                    forall|k: int, i: int|
                        #![trigger self.cell_start(k), df@[i]]
                        z as int * self.width as int + x as int <= k < self.grid_len()
                            && self.cell_start(k) <= i < self.cell_end(k) ==> df@[i]
                            == 0xffff,
                decreases self.width - x,
            {
                let k = self.cell_index(x, z);
                let cell = self.cells[k];
                proof {
                    self.lemma_cell_bounds(k as int);
                }
                let start = cell.index as usize;
                let count = cell.count as usize;
                let mut j: usize = 0;
                while j < count
                    invariant
                        self.wf(),
                        self.in_grid(x as int, z as int),
                        k == x as int + z as int * self.width as int,
                        k < self.grid_len(),
                        start == self.cell_start(k as int),
                        count == self.cell_count(k as int),
                        start + count <= n,
                        j <= count,
                        df@.len() == n,
                        n == self.spans@.len(),
                        forall|k2: int, i: int|
                            #![trigger self.cell_start(k2), dist_seed(*self)[i]]
                            0 <= k2 < k as int && self.cell_start(k2) <= i < self.cell_end(k2)
                                ==> df@[i] == dist_seed(*self)[i],
                        forall|i: int|
                            start as int <= i < start as int + j as int ==> df@[i]
                                == #[trigger] dist_seed(*self)[i],
                        forall|k2: int, i: int|
                            #![trigger self.cell_start(k2), df@[i]]
                            k as int <= k2 < self.grid_len() && self.cell_start(k2) <= i
                                < self.cell_end(k2) && i >= start as int + j as int ==> df@[i]
                                == 0xffff,
                    decreases count - j,
                {
                    let ghost df_pre = df@;
                    let i = start + j;
                    let span = self.spans[i];
                    let mut connection_count: usize = 0;
                    let mut dir: usize = 0;
                    while dir < 4
                        invariant
                            self.wf(),
                            self.in_grid(x as int, z as int),
                            k == x as int + z as int * self.width as int,
                            self.cell_start(k as int) <= (i as int) && (i as int) < self.cell_end(k as int),
                            i < self.spans@.len(),
                            span == self.spans@[i as int],
                            dir <= 4,
                            connection_count <= dir,
                            (connection_count == dir) <==> (forall|d: int|
                                0 <= d < dir as int ==> #[trigger] self.span_con(i as int, d)
                                    is Some && self.areas@[self.con_target(k as int, i as int, d)]
                                    == self.areas@[i as int]),
                        decreases 4 - dir,
                    {
                        if let Some(c) = span.con(dir) {
                            let (t, _ax, _az) = self.con_target_at(x, z, i, dir, c);
                            if self.areas[t] == self.areas[i] {
                                connection_count += 1;
                            }
                        }
                        dir += 1;
                    }
                    proof {
                        self.lemma_cell_of(k as int, i as int);
                        if connection_count < 4 {
                            assert(!(forall|d: int|
                                0 <= d < 4 ==> #[trigger] self.span_con(i as int, d) is Some
                                    && self.areas@[self.con_target(k as int, i as int, d)]
                                    == self.areas@[i as int]));
                            assert(dist_boundary_at(*self, k as int, i as int));
                        } else {
                            assert(!dist_boundary_at(*self, k as int, i as int));
                        }
                    }
                    if connection_count < 4 {
                        df.set(i, 0);
                    }
                    j += 1;
                    proof {
                        assert forall|k2: int| 0 <= k2 < k as int implies #[trigger] self.cell_end(
                            k2,
                        ) <= start as int by {
                            self.lemma_cells_ordered(k2, k as int);
                        }
                        assert forall|k2: int|
                            (k as int) < k2 < self.grid_len() implies #[trigger] self.cell_start(k2)
                            >= start as int + count as int by {
                            self.lemma_cells_ordered(k as int, k2);
                        }
                        assert forall|k2: int, i2: int|
                            #![trigger self.cell_start(k2), df@[i2]]
                            k as int <= k2 < self.grid_len() && self.cell_start(k2) <= i2
                                < self.cell_end(k2) && i2 >= start as int + j as int
                            implies df@[i2] == 0xffff by {
                            self.lemma_cell_bounds(k2);
                            assert(i2 > i as int);
                            assert(df@[i2] == df_pre[i2]);
                            assert(df_pre[i2] == 0xffff);
                        }
                    }
                }
                proof {
                    assert forall|k2: int, i: int|
                        #![trigger self.cell_start(k2), df@[i]]
                        k as int + 1 <= k2 < self.grid_len() && self.cell_start(k2) <= i
                            < self.cell_end(k2) implies df@[i] == 0xffff by {
                        self.lemma_cells_ordered(k as int, k2);
                    }
                    assert forall|k2: int, i: int|
                        #![trigger self.cell_start(k2), dist_seed(*self)[i]]
                        0 <= k2 < k as int + 1 && self.cell_start(k2) <= i
                            < self.cell_end(k2) implies df@[i] == dist_seed(*self)[i] by {
                    }
                }
                x += 1;
            }
            z += 1;
            proof {
                let wi = self.width as int;
                let zi = z as int;
                assert((zi - 1) * wi + wi == zi * wi) by (nonlinear_arith);
            }
        }
        proof {
            let wi = self.width as int;
            let hi = self.height as int;
            assert(hi * wi == wi * hi) by (nonlinear_arith);
            assert forall|i: int| 0 <= i < n as int implies df@[i] == dist_seed(*self)[i] by {
                self.lemma_span_has_cell(i);
            }
            assert(df@ =~= dist_seed(*self));
        }
        df
    }

    /// Runs one pass of the chamfer transform over the spans of column
    /// `(x, z)`, relaxing each against the taps of that pass.
    pub(crate) fn chamfer_cell(&self, df: &mut Vec<u16>, x: u16, z: u16, fwd: bool)
        requires
            self.wf(),
            self.in_grid(x as int, z as int),
            old(df)@.len() == self.spans@.len(),
        ensures
            final(df)@ == pass_cell(
                *self,
                old(df)@,
                x as int + z as int * self.width as int,
                self.cell_count(x as int + z as int * self.width as int) as nat,
                fwd,
            ),
            final(df)@.len() == old(df)@.len(),
    {
        let ghost dk = df@;
        let k = self.cell_index(x, z);
        let cell = self.cells[k];
        proof {
            self.lemma_cell_bounds(k as int);
        }
        let start = cell.index as usize;
        let count = cell.count as usize;
        let d1a: usize = if fwd {
            0
        } else {
            2
        };
        let d2a: usize = if fwd {
            3
        } else {
            1
        };
        let d1b: usize = if fwd {
            3
        } else {
            1
        };
        let d2b: usize = if fwd {
            2
        } else {
            0
        };
        let mut j: usize = 0;
        while j < count
            invariant
                self.wf(),
                self.in_grid(x as int, z as int),
                k == x as int + z as int * self.width as int,
                k < self.grid_len(),
                start == self.cell_start(k as int),
                count == self.cell_count(k as int),
                start + count <= self.spans@.len(),
                j <= count,
                df@.len() == self.spans@.len(),
                d1a as int == (if fwd {
                    0int
                } else {
                    2int
                }),
                d2a as int == (if fwd {
                    3int
                } else {
                    1int
                }),
                d1b as int == (if fwd {
                    3int
                } else {
                    1int
                }),
                d2b as int == (if fwd {
                    2int
                } else {
                    0int
                }),
                df@ == pass_cell(*self, dk, k as int, j as nat, fwd),
            decreases count - j,
        {
            let i = start + j;
            let ghost prev = df@;
            let span = self.spans[i];
            let mut v = df[i];
            if let Some(c) = span.con(d1a) {
                let (a, ax, az) = self.con_target_at(x, z, i, d1a, c);
                v = relax_to(v, df[a], 2);
                let aspan = self.spans[a];
                if let Some(c2) = aspan.con(d2a) {
                    let (b, _bx, _bz) = self.con_target_at(ax, az, a, d2a, c2);
                    v = relax_to(v, df[b], 3);
                }
            }
            proof {
                assert(v == axis_diag_value(
                    *self,
                    prev,
                    prev[i as int],
                    k as int,
                    i as int,
                    d1a as int,
                    d2a as int,
                ));
            }
            if let Some(c) = span.con(d1b) {
                let (a, ax, az) = self.con_target_at(x, z, i, d1b, c);
                v = relax_to(v, df[a], 2);
                let aspan = self.spans[a];
                if let Some(c2) = aspan.con(d2b) {
                    let (b, _bx, _bz) = self.con_target_at(ax, az, a, d2b, c2);
                    v = relax_to(v, df[b], 3);
                }
            }
            proof {
                if fwd {
                    assert(v == pass1_value(*self, prev, k as int, i as int));
                } else {
                    assert(v == pass2_value(*self, prev, k as int, i as int));
                }
            }
            df.set(i, v);
            j += 1;
            proof {
                assert(df@ == pass_cell(*self, dk, k as int, j as nat, fwd));
            }
        }
    }

    /// The forward pass of the chamfer transform: cells in increasing
    /// row-major order.
    pub(crate) fn chamfer_pass_fwd(&self, df: &mut Vec<u16>)
        requires
            self.wf(),
            old(df)@.len() == self.spans@.len(),
        ensures
            final(df)@ == pass1_cells(*self, old(df)@, self.grid_len() as nat),
            final(df)@.len() == old(df)@.len(),
    {
        let ghost df0 = df@;
        let mut z: u16 = 0;
        while z < self.height
            invariant
                self.wf(),
                z <= self.height,
                df@.len() == self.spans@.len(),
                df@ == pass1_cells(*self, df0, (z as int * self.width as int) as nat),
            decreases self.height - z,
        {
            let mut x: u16 = 0;
            while x < self.width
                invariant
                    self.wf(),
                    z < self.height,
                    x <= self.width,
                    df@.len() == self.spans@.len(),
                    df@ == pass1_cells(
                        *self,
                        df0,
                        (z as int * self.width as int + x as int) as nat,
                    ),
                decreases self.width - x,
            {
                self.chamfer_cell(df, x, z, true);
                x += 1;
            }
            z += 1;
            proof {
                let wi = self.width as int;
                let zi = z as int;
                assert((zi - 1) * wi + wi == zi * wi) by (nonlinear_arith);
            }
        }
        proof {
            let wi = self.width as int;
            let hi = self.height as int;
            assert(hi * wi == wi * hi) by (nonlinear_arith);
        }
    }

    /// The backward pass of the chamfer transform: cells in decreasing
    /// row-major order.
    pub(crate) fn chamfer_pass_bwd(&self, df: &mut Vec<u16>)
        requires
            self.wf(),
            old(df)@.len() == self.spans@.len(),
        ensures
            final(df)@ == pass2_cells_from(*self, old(df)@, 0),
            final(df)@.len() == old(df)@.len(),
    {
        let ghost df0 = df@;
        proof {
            let wi = self.width as int;
            let hi = self.height as int;
            assert(hi * wi == wi * hi) by (nonlinear_arith);
        }
        let mut z: u16 = self.height;
        while z > 0
            invariant
                self.wf(),
                z <= self.height,
                df@.len() == self.spans@.len(),
                df@ == pass2_cells_from(*self, df0, z as int * self.width as int),
            decreases z,
        {
            z -= 1;
            let mut x: u16 = self.width;
            proof {
                let wi = self.width as int;
                let zi = z as int;
                assert(zi * wi + wi == (zi + 1) * wi) by (nonlinear_arith);
            }
            while x > 0
                invariant
                    self.wf(),
                    z < self.height,
                    x <= self.width,
                    df@.len() == self.spans@.len(),
                    df@ == pass2_cells_from(*self, df0, z as int * self.width as int + x as int),
                decreases x,
            {
                x -= 1;
                self.chamfer_cell(df, x, z, false);
                proof {
                    self.lemma_cell_coords(x as int, z as int);
                    assert(df@ == pass2_cells_from(
                        *self,
                        df0,
                        z as int * self.width as int + x as int,
                    ));
                }
            }
        }
    }
    /// One executable blur tap pair, matching `blur_tap`.
    fn blur_tap_at(&self, df: &Vec<u16>, x: u16, z: u16, i: usize, dir: usize, cd: u16) -> (t:
        u32)
        requires
            self.wf(),
            dir < 4,
            self.in_grid(x as int, z as int),
            df@.len() == self.spans@.len(),
            ({
                let k = x as int + z as int * self.width as int;
                self.cell_start(k) <= (i as int) && (i as int) < self.cell_end(k)
            }),
            cd == df@[i as int],
        ensures
            t as int == blur_tap(*self, df@, x as int + z as int * self.width as int, i as int, dir as int),
            t <= 2 * 0xffff,
    {
        proof {
            self.lemma_cell_coords(x as int, z as int);
            self.lemma_cell_bounds(x as int + z as int * self.width as int);
        }
        let span = self.spans[i];
        if let Some(c) = span.con(dir) {
            let (a, ax, az) = self.con_target_at(x, z, i, dir, c);
            let mut t: u32 = df[a] as u32;
            let aspan = self.spans[a];
            let d2: usize = if dir == 3 {
                0
            } else {
                dir + 1
            };
            if let Some(c2) = aspan.con(d2) {
                let (b, _bx, _bz) = self.con_target_at(ax, az, a, d2, c2);
                t += df[b] as u32;
            } else {
                t += cd as u32;
            }
            t
        } else {
            2 * (cd as u32)
        }
    }

    /// Smooths a distance field with one box-blur pass: each span above the
    /// (doubled) threshold becomes the rounded mean of itself and its eight
    /// neighbor taps; values at or below the threshold pass through.
    #[verifier::rlimit(60)]
    pub fn box_blur(&self, threshold: u16, df: &Vec<u16>) -> (r: Vec<u16>)
        requires
            self.wf(),
            df@.len() == self.spans@.len(),
        ensures
            r@ == blur_field(*self, df@, sat_plus(threshold, threshold)),
    {
        let thr = sat_add(threshold, threshold);
        let n = df.len();
        let mut result: Vec<u16> = vec![0u16; n];
        let mut z: u16 = 0;
        while z < self.height
            invariant
                self.wf(),
                z <= self.height,
                thr == sat_plus(threshold, threshold),
                result@.len() == n,
                n == self.spans@.len(),
                df@.len() == n,
                forall|k: int, i: int|
                    #![trigger self.cell_start(k), blur_field(*self, df@, thr)[i]]
                    0 <= k < z as int * self.width as int && self.cell_start(k) <= i
                        < self.cell_end(k) ==> result@[i] == blur_field(*self, df@, thr)[i],
            decreases self.height - z,
        {
            let mut x: u16 = 0;
            while x < self.width
                invariant
                    self.wf(),
                    z < self.height,
                    x <= self.width,
                    thr == sat_plus(threshold, threshold),
                    result@.len() == n,
                    n == self.spans@.len(),
                    df@.len() == n,
                    forall|k: int, i: int|
                        #![trigger self.cell_start(k), blur_field(*self, df@, thr)[i]]
                        0 <= k < z as int * self.width as int + x as int && self.cell_start(k) <= i
                            < self.cell_end(k) ==> result@[i] == blur_field(*self, df@, thr)[i],
                decreases self.width - x,
            {
                let k = self.cell_index(x, z);
                let cell = self.cells[k];
                proof {
                    self.lemma_cell_bounds(k as int);
                }
                let start = cell.index as usize;
                let count = cell.count as usize;
                let mut j: usize = 0;
                while j < count
                    invariant
                        self.wf(),
                        self.in_grid(x as int, z as int),
                        k == x as int + z as int * self.width as int,
                        k < self.grid_len(),
                        start == self.cell_start(k as int),
                        count == self.cell_count(k as int),
                        start + count <= n,
                        j <= count,
                        thr == sat_plus(threshold, threshold),
                        result@.len() == n,
                        n == self.spans@.len(),
                        df@.len() == n,
                        forall|k2: int, i: int|
                            #![trigger self.cell_start(k2), blur_field(*self, df@, thr)[i]]
                            0 <= k2 < k as int && self.cell_start(k2) <= i < self.cell_end(k2)
                                ==> result@[i] == blur_field(*self, df@, thr)[i],
                        forall|i: int|
                            start as int <= i < start as int + j as int ==> result@[i]
                                == #[trigger] blur_field(*self, df@, thr)[i],
                    decreases count - j,
                {
                    let i = start + j;
                    let cd = df[i];
                    let v: u16;
                    if cd <= thr {
                        v = cd;
                    } else {
                        let mut d: u32 = cd as u32;
                        let t0 = self.blur_tap_at(df, x, z, i, 0, cd);
                        d += t0;
                        let t1 = self.blur_tap_at(df, x, z, i, 1, cd);
                        d += t1;
                        let t2 = self.blur_tap_at(df, x, z, i, 2, cd);
                        d += t2;
                        let t3 = self.blur_tap_at(df, x, z, i, 3, cd);
                        d += t3;
                        v = ((d + 5) / 9) as u16;
                        proof {
                            assert(d as int <= 9 * 0xffff);
                            assert((d as int + 5) / 9 <= 0xffff);
                        }
                    }
                    proof {
                        self.lemma_cell_of(k as int, i as int);
                        assert(v == blur_value(*self, df@, k as int, i as int, thr));
                    }
                    result.set(i, v);
                    j += 1;
                    proof {
                        assert forall|k2: int| 0 <= k2 < k as int implies #[trigger] self.cell_end(
                            k2,
                        ) <= start as int by {
                            self.lemma_cells_ordered(k2, k as int);
                        }
                    }
                }
                x += 1;
            }
            z += 1;
            proof {
                let wi = self.width as int;
                let zi = z as int;
                assert((zi - 1) * wi + wi == zi * wi) by (nonlinear_arith);
            }
        }
        proof {
            let wi = self.width as int;
            let hi = self.height as int;
            assert(hi * wi == wi * hi) by (nonlinear_arith);
            assert forall|i: int| 0 <= i < n as int implies result@[i] == blur_field(
                *self,
                df@,
                thr,
            )[i] by {
                self.lemma_span_has_cell(i);
            }
            assert(result@ =~= blur_field(*self, df@, thr));
        }
        result
    }

    /// Computes the raw two-pass chamfer distance field of the walkable
    /// surface: zero on boundary spans, growing by 2 per axis step and 3
    /// per diagonal step away from them.
    pub fn calculate_distance_field(&self) -> (df: Vec<u16>)
        requires
            self.wf(),
        ensures
            df@ == chamfer_field(*self),
            df@.len() == self.spans@.len(),
    {
        let mut df = self.compute_dist_seed();
        self.chamfer_pass_fwd(&mut df);
        self.chamfer_pass_bwd(&mut df);
        df
    }

    /// Prepares for region partitioning by computing the distance field
    /// along the walkable surface: the raw chamfer field's maximum becomes
    /// `max_distance`, and its box-blurred form becomes `dist`.
    pub fn build_distance_field(&mut self)
        requires
            old(self).wf(),
        ensures
            final(self).wf(),
            final(self).width == old(self).width,
            final(self).height == old(self).height,
            final(self).walkable_height == old(self).walkable_height,
            final(self).walkable_climb == old(self).walkable_climb,
            final(self).cells == old(self).cells,
            final(self).spans == old(self).spans,
            final(self).areas == old(self).areas,
            final(self).max_distance == seq_max_u16(chamfer_field(*old(self))),
            final(self).dist@ == blur_field(*old(self), chamfer_field(*old(self)), 2),
    {
        let df = self.calculate_distance_field();
        let blurred = self.box_blur(1, &df);
        let md = max_of_u16(&df);
        self.max_distance = md;
        self.dist = blurred;
        proof {
            old(self).lemma_wf_same_grid(*self);
        }
    }
}

/// The largest value of a distance field, zero when it is empty.
pub fn max_of_u16(s: &Vec<u16>) -> (m: u16)
    ensures
        m == seq_max_u16(s@),
{
    let mut m: u16 = 0;
    let mut i: usize = 0;
    while i < s.len()
        invariant
            i <= s@.len(),
            m == seq_max_u16(s@.take(i as int)),
        decreases s@.len() - i,
    {
        proof {
            assert(s@.take(i as int + 1).drop_last() =~= s@.take(i as int));
            assert(s@.take(i as int + 1).last() == s@[i as int]);
        }
        if s[i] > m {
            m = s[i];
        }
        i += 1;
    }
    proof {
        assert(s@.take(s@.len() as int) =~= s@);
    }
    m
}

} // verus!
