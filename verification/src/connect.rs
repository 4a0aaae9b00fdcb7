use vstd::prelude::*;

use crate::compact::{CompactHeightfield, CompactSpan};
use crate::heightfield::{
    col_areas, col_spans, compact_overflow, lemma_col_spans_h, total_spans, CompactBuildError,
    Heightfield,
};

verus! {

// Neighbor linking for the compact heightfield. Two spans of adjacent
// columns are connectable when an agent can step between them: their
// floors differ by at most `walkable_climb` and the shared open interval
// above the higher floor is at least `walkable_height` tall. A link is
// recorded only where it is two-way: each span is the single connectable
// span of the other's column and both relative indices fit the link
// field, so every connection has a reverse connection.

/// Whether spans `i` and `i2` of adjacent columns are connectable. The
/// condition is symmetric in `i` and `i2`.
pub open spec fn spans_connectable(chf: CompactHeightfield, i: int, i2: int) -> bool {
    let y1 = chf.spans@[i].y as int;
    let h1 = chf.spans@[i].h as int;
    let y2 = chf.spans@[i2].y as int;
    let h2 = chf.spans@[i2].h as int;
    let m = if y1 > y2 {
        y1
    } else {
        y2
    };
    &&& y2 - y1 <= chf.walkable_climb as int
    &&& y1 - y2 <= chf.walkable_climb as int
    &&& m + chf.walkable_height as int <= y1 + h1
    &&& m + chf.walkable_height as int <= y2 + h2
}

/// Whether `i2` is the span that span `i` of cell `k` links to in
/// direction `dir`: they are connectable, each is the only connectable
/// span of the other's column, and both relative indices fit a link.
pub open spec fn conn_pair(
    chf: CompactHeightfield,
    k: int,
    i: int,
    dir: int,
    i2: int,
) -> bool {
    let ka = chf.nbr_cell(k, dir);
    &&& chf.has_nbr(k, dir)
    &&& chf.cell_start(ka) <= i2 < chf.cell_end(ka)
    &&& spans_connectable(chf, i, i2)
    &&& (forall|j: int|
        chf.cell_start(ka) <= j < chf.cell_end(ka) && #[trigger] spans_connectable(chf, i, j)
            ==> j == i2)
    &&& (forall|j: int|
        chf.cell_start(k) <= j < chf.cell_end(k) && #[trigger] spans_connectable(chf, i2, j)
            ==> j == i)
    &&& i2 - chf.cell_start(ka) < 256
    &&& i - chf.cell_start(k) < 256
}

/// Whether span `i` of cell `k` links to some span in direction `dir`.
pub open spec fn conn_ok(chf: CompactHeightfield, k: int, i: int, dir: int) -> bool {
    exists|i2: int| #[trigger] conn_pair(chf, k, i, dir, i2)
}

/// Whether the stored connection of span `i` of cell `k` in direction
/// `dir` is exactly what the linking rule asks for.
pub open spec fn con_characterized(chf: CompactHeightfield, k: int, i: int, dir: int) -> bool {
    if conn_ok(chf, k, i, dir) {
        &&& chf.span_con(i, dir) is Some
        &&& conn_pair(chf, k, i, dir, chf.con_target(k, i, dir))
    } else {
        chf.span_con(i, dir) is None
    }
}

/// Whether every connection of the heightfield is exactly what the
/// linking rule asks for.
pub open spec fn connections_built(chf: CompactHeightfield) -> bool {
    forall|k: int, i: int, dir: int|
        0 <= k < chf.grid_len() && chf.cell_start(k) <= i < chf.cell_end(k) && 0 <= dir < 4
            ==> #[trigger] con_characterized(chf, k, i, dir)
}

impl CompactHeightfield {
    /// Whether spans `i` and `i2` are connectable.
    fn connectable_at(&self, i: usize, i2: usize) -> (r: bool)
        requires
            self.wf(),
            i < self.spans@.len(),
            i2 < self.spans@.len(),
        ensures
            r == spans_connectable(*self, i as int, i2 as int),
    {
        let s1 = self.spans[i];
        let s2 = self.spans[i2];
        let y1 = s1.y as u32;
        let h1 = s1.h as u32;
        let y2 = s2.y as u32;
        let h2 = s2.h as u32;
        let m = if y1 > y2 {
            y1
        } else {
            y2
        };
        let climb = self.walkable_climb as u32;
        let wh = self.walkable_height as u32;
        (if y1 > y2 {
            y1 - y2 <= climb
        } else {
            y2 - y1 <= climb
        }) && m + wh <= y1 + h1 && m + wh <= y2 + h2
    }

    /// Looks for the single span of column `(cx, cz)` connectable to span
    /// `i`, if exactly one exists.
    fn unique_match_in(&self, i: usize, cx: u16, cz: u16) -> (r: Option<usize>)
        requires
            self.wf(),
            i < self.spans@.len(),
            self.in_grid(cx as int, cz as int),
        ensures
            ({
                let kc = cx as int + cz as int * self.width as int;
                match r {
                    Some(t) => {
                        &&& t < self.spans@.len()
                        &&& self.cell_start(kc) <= (t as int) && (t as int) < self.cell_end(kc)
                        &&& spans_connectable(*self, i as int, t as int)
                        &&& (forall|j: int|
                            self.cell_start(kc) <= j < self.cell_end(kc)
                                && #[trigger] spans_connectable(*self, i as int, j) ==> j
                                == t as int)
                    },
                    None => !(exists|i2: int|
                        {
                            &&& self.cell_start(kc) <= i2 < self.cell_end(kc)
                            &&& #[trigger] spans_connectable(*self, i as int, i2)
                            &&& (forall|j: int|
                                self.cell_start(kc) <= j < self.cell_end(kc)
                                    && #[trigger] spans_connectable(*self, i as int, j) ==> j
                                    == i2)
                        }),
                }
            }),
    {
        let kc = self.cell_index(cx, cz);
        let cell = self.cells[kc];
        proof {
            self.lemma_cell_bounds(kc as int);
        }
        let start = cell.index as usize;
        let count = cell.count as usize;
        let mut cnt: usize = 0;
        let mut first: usize = 0;
        let mut second: usize = 0;
        let mut j: usize = 0;
        while j < count
            invariant
                self.wf(),
                i < self.spans@.len(),
                kc == cx as int + cz as int * self.width as int,
                kc < self.grid_len(),
                start == self.cell_start(kc as int),
                count == self.cell_count(kc as int),
                start + count <= self.spans@.len(),
                j <= count,
                cnt == 0 ==> (forall|j2: int|
                    start as int <= j2 < start as int + j as int
                        ==> !#[trigger] spans_connectable(*self, i as int, j2)),
                cnt == 1 ==> {
                    &&& start as int <= (first as int) && (first as int) < start as int + j as int
                    &&& spans_connectable(*self, i as int, first as int)
                    &&& (forall|j2: int|
                        start as int <= j2 < start as int + j as int
                            && #[trigger] spans_connectable(*self, i as int, j2) ==> j2
                            == first as int)
                },
                cnt >= 2 ==> {
                    &&& start as int <= (first as int) && (first as int) < start as int + j as int
                    &&& start as int <= (second as int) && (second as int) < start as int + j as int
                    &&& first != second
                    &&& spans_connectable(*self, i as int, first as int)
                    &&& spans_connectable(*self, i as int, second as int)
                },
            decreases count - j,
        {
            let cand = start + j;
            if self.connectable_at(i, cand) {
                if cnt == 0 {
                    first = cand;
                } else if cnt == 1 {
                    second = cand;
                }
                if cnt < 2 {
                    cnt += 1;
                }
            }
            j += 1;
        }
        if cnt == 1 {
            Some(first)
        } else {
            None
        }
    }

    /// Computes the link of span `i` of column `(x, z)` in direction
    /// `dir`: the single two-way unique match, if the linking rule finds
    /// one.
    fn link_entry(&self, x: u16, z: u16, i: usize, dir: usize) -> (entry: Option<u8>)
        requires
            self.wf(),
            dir < 4,
            self.in_grid(x as int, z as int),
            self.cell_x(x as int + z as int * self.width as int) == x as int,
            self.cell_z(x as int + z as int * self.width as int) == z as int,
            ({
                let k = x as int + z as int * self.width as int;
                self.cell_start(k) <= (i as int) && (i as int) < self.cell_end(k)
            }),
            i < self.spans@.len(),
        ensures
            con_entry_ok(*self, x as int + z as int * self.width as int, i as int, dir as int, entry),
    {
        let ghost k = x as int + z as int * self.width as int;
        let ghost ka = self.nbr_cell(k, dir as int);
        let cell = self.cell_at(x, z);
        let start = cell.index as usize;
        proof {
            if conn_ok(*self, k, i as int, dir as int) {
                let w2 = choose|i2: int| conn_pair(*self, k, i as int, dir as int, i2);
                assert(conn_pair(*self, k, i as int, dir as int, w2));
            }
        }
        let nbr = self.nbr_coords_checked(x, z, dir);
        if nbr.is_none() {
            proof {
                if conn_ok(*self, k, i as int, dir as int) {
                    let w2 = choose|i2: int| conn_pair(*self, k, i as int, dir as int, i2);
                    assert(conn_pair(*self, k, i as int, dir as int, w2));
                    assert(false);
                }
            }
            return None;
        }
        let (ax, az) = nbr.unwrap();
        proof {
            assert(ka == ax as int + az as int * self.width as int);
        }
        let m = self.unique_match_in(i, ax, az);
        if m.is_none() {
            proof {
                if conn_ok(*self, k, i as int, dir as int) {
                    let w2 = choose|i2: int| conn_pair(*self, k, i as int, dir as int, i2);
                    assert(conn_pair(*self, k, i as int, dir as int, w2));
                    assert(false);
                }
            }
            return None;
        }
        let t = m.unwrap();
        proof {
            if conn_ok(*self, k, i as int, dir as int) {
                let w2 = choose|i2: int| conn_pair(*self, k, i as int, dir as int, i2);
                assert(conn_pair(*self, k, i as int, dir as int, w2));
                assert(spans_connectable(*self, i as int, t as int));
                assert(t as int == w2);
            }
        }
        let cell_a = self.cell_at(ax, az);
        let rel = t - cell_a.index as usize;
        let rel_back = i - start;
        if rel >= 256 || rel_back >= 256 {
            proof {
                if conn_ok(*self, k, i as int, dir as int) {
                    let w2 = choose|i2: int| conn_pair(*self, k, i as int, dir as int, i2);
                    assert(conn_pair(*self, k, i as int, dir as int, w2));
                    assert(t as int == w2);
                    assert(false);
                }
            }
            return None;
        }
        let back = self.unique_match_in(t, x, z);
        proof {
            if conn_ok(*self, k, i as int, dir as int) {
                let w2 = choose|i2: int| conn_pair(*self, k, i as int, dir as int, i2);
                assert(conn_pair(*self, k, i as int, dir as int, w2));
                assert(t as int == w2);
                assert(spans_connectable(*self, t as int, i as int));
                if back.is_none() {
                    assert(false);
                }
            }
        }
        if back.is_none() {
            return None;
        }
        if back.unwrap() == i {
            proof {
                assert forall|j2: int|
                    self.cell_start(ka) <= j2 < self.cell_end(ka) && #[trigger] spans_connectable(
                        *self,
                        i as int,
                        j2,
                    ) implies j2 == t as int by {}
                assert forall|j2: int|
                    self.cell_start(k) <= j2 < self.cell_end(k) && #[trigger] spans_connectable(
                        *self,
                        t as int,
                        j2,
                    ) implies j2 == i as int by {}
                assert(conn_pair(*self, k, i as int, dir as int, t as int));
                assert(self.cell_start(ka) + rel as int == t as int);
            }
            Some(rel as u8)
        } else {
            proof {
                if conn_ok(*self, k, i as int, dir as int) {
                    let w2 = choose|i2: int| conn_pair(*self, k, i as int, dir as int, i2);
                    assert(conn_pair(*self, k, i as int, dir as int, w2));
                    assert(t as int == w2);
                    assert(spans_connectable(*self, t as int, back.unwrap() as int));
                    assert(false);
                }
            }
            None
        }
    }

    /// Computes the connection table of every span: per span, one link
    /// per direction, set exactly where the linking rule finds a two-way
    /// unique match.
    #[verifier::rlimit(100)]
    fn compute_connections(&self) -> (cons: Vec<[Option<u8>; 4]>)
        requires
            self.wf(),
        ensures
            cons@.len() == self.spans@.len(),
            forall|k: int, i: int, dir: int|
                0 <= k < self.grid_len() && self.cell_start(k) <= i < self.cell_end(k) && 0 <= dir
                    < 4 ==> #[trigger] char_with(*self, cons@, k, i, dir),
    {
        let n = self.spans.len();
        let grid = self.cells.len();
        let mut cons: Vec<[Option<u8>; 4]> = Vec::new();
        let mut k: usize = 0;
        while k < grid
            invariant
                self.wf(),
                n == self.spans@.len(),
                grid == self.cells@.len(),
                k <= grid,
                cons@.len() == (if (k as int) < self.grid_len() {
                    self.cell_start(k as int)
                } else {
                    n as int
                }),
                forall|k2: int, i: int, dir: int|
                    0 <= k2 < self.grid_len() && self.cell_start(k2) <= i < self.cell_end(k2) && 0
                        <= dir < 4 && i < cons@.len() ==> #[trigger] char_with(
                        *self,
                        cons@,
                        k2,
                        i,
                        dir,
                    ),
            decreases grid - k,
        {
            proof {
                let wi = self.width as int;
                let hi = self.height as int;
                assert(wi > 0 && hi > 0) by (nonlinear_arith)
                    requires
                        0 <= wi,
                        0 <= hi,
                        (k as int) < wi * hi,
                ;
                self.lemma_cell_decompose(k as int);
            }
            let w = self.width as usize;
            let x = (k % w) as u16;
            let z = (k / w) as u16;
            proof {
                assert(x as int == self.cell_x(k as int));
                assert(z as int == self.cell_z(k as int));
                assert(k as int == x as int + z as int * self.width as int);
            }
            let cell = self.cells[k];
            proof {
                self.lemma_cell_bounds(k as int);
            }
            let start = cell.index as usize;
            let count = cell.count as usize;
            let mut j: usize = 0;
            while j < count
                invariant
                    self.wf(),
                    n == self.spans@.len(),
                    self.in_grid(x as int, z as int),
                    k == x as int + z as int * self.width as int,
                    self.cell_x(k as int) == x as int,
                    self.cell_z(k as int) == z as int,
                    k < self.grid_len(),
                    start == self.cell_start(k as int),
                    count == self.cell_count(k as int),
                    start + count <= n,
                    j <= count,
                    cons@.len() == start + j,
                    forall|k2: int, i: int, dir: int|
                        0 <= k2 < self.grid_len() && self.cell_start(k2) <= i < self.cell_end(k2)
                            && 0 <= dir < 4 && i < cons@.len() ==> #[trigger] char_with(
                            *self,
                            cons@,
                            k2,
                            i,
                            dir,
                        ),
                decreases count - j,
            {
                let ghost cons_pre = cons@;
                let i = start + j;
                let mut con: [Option<u8>; 4] = [None, None, None, None];
                let mut dir: usize = 0;
                while dir < 4
                    invariant
                        self.wf(),
                        n == self.spans@.len(),
                        self.in_grid(x as int, z as int),
                        k == x as int + z as int * self.width as int,
                        self.cell_x(k as int) == x as int,
                        self.cell_z(k as int) == z as int,
                        k < self.grid_len(),
                        start == self.cell_start(k as int),
                        count == self.cell_count(k as int),
                        start + count <= n,
                        j < count,
                        i == start + j,
                        dir <= 4,
                        forall|d: int|
                            0 <= d < dir as int ==> #[trigger] con_entry_ok(
                                *self,
                                k as int,
                                i as int,
                                d,
                                con[d],
                            ),
                    decreases 4 - dir,
                {
                    let entry = self.link_entry(x, z, i, dir);
                    con = set_dir(con, dir, entry);
                    dir += 1;
                }
                cons.push(con);
                j += 1;
                proof {
                    assert forall|k2: int, i2: int, d2: int|
                        0 <= k2 < self.grid_len() && self.cell_start(k2) <= i2 < self.cell_end(
                            k2,
                        ) && 0 <= d2 < 4 && i2 < cons@.len() implies #[trigger] char_with(
                            *self,
                            cons@,
                            k2,
                            i2,
                            d2,
                        ) by {
                        if i2 < cons_pre.len() {
                            assert(char_with(*self, cons_pre, k2, i2, d2));
                            assert(cons@[i2] == cons_pre[i2]);
                        } else {
                            assert(i2 == i as int);
                            self.lemma_cell_of(k as int, i as int);
                            self.lemma_cells_unique(k2, k as int, i2);
                            assert(con_entry_ok(*self, k as int, i as int, d2, con[d2]));
                        }
                    }
                }
            }
            k += 1;
            proof {
                self.lemma_next_cell_start(k as int - 1);
            }
        }
        proof {
            if self.cells@.len() == 0 {
                assert(self.spans@.len() == 0);
            }
            assert forall|k2: int, i: int, dir: int|
                0 <= k2 < self.grid_len() && self.cell_start(k2) <= i < self.cell_end(k2) && 0
                    <= dir < 4 implies #[trigger] char_with(*self, cons@, k2, i, dir) by {
                self.lemma_cell_bounds(k2);
            }
        }
        cons
    }

    /// Coordinates of the neighbor column in direction `dir`, or `None`
    /// at the grid edge.
    fn nbr_coords_checked(&self, x: u16, z: u16, dir: usize) -> (r: Option<(u16, u16)>)
        requires
            dir < 4,
            self.in_grid(x as int, z as int),
        ensures
            ({
                let ax = x as int + crate::math::dir_offset_x_spec(dir as int);
                let az = z as int + crate::math::dir_offset_z_spec(dir as int);
                let k = x as int + z as int * self.width as int;
                match r {
                    Some(p) => p.0 as int == ax && p.1 as int == az && self.in_grid(ax, az)
                        && self.has_nbr(k, dir as int),
                    None => !self.in_grid(ax, az) && !self.has_nbr(k, dir as int),
                }
            }),
    {
        proof {
            self.lemma_cell_coords(x as int, z as int);
        }
        let ax = x as i32 + crate::math::dir_offset_x(dir);
        let az = z as i32 + crate::math::dir_offset_z(dir);
        if ax < 0 || ax >= self.width as i32 || az < 0 || az >= self.height as i32 {
            None
        } else {
            Some((ax as u16, az as u16))
        }
    }

    /// Two cells sharing a span are the same cell.
    pub proof fn lemma_cells_unique(self, k1: int, k2: int, i: int)
        requires
            self.cells_contiguous(),
            0 <= k1 < self.cells@.len(),
            0 <= k2 < self.cells@.len(),
            self.cell_start(k1) <= i < self.cell_end(k1),
            self.cell_start(k2) <= i < self.cell_end(k2),
        ensures
            k1 == k2,
    {
        self.lemma_cell_of(k1, i);
        self.lemma_cell_of(k2, i);
    }

    /// The next cell starts where this one ends.
    pub proof fn lemma_next_cell_start(self, k: int)
        requires
            self.cells_contiguous(),
            0 <= k < self.cells@.len(),
        ensures
            k + 1 < self.cells@.len() ==> self.cell_start(k + 1) == self.cell_end(k),
            k + 1 == self.cells@.len() ==> self.cell_end(k) == self.spans@.len(),
    {
    }
}

/// Whether a computed connection entry is exactly what the linking rule
/// asks for at span `i` of cell `k` in direction `dir`.
pub open spec fn con_entry_ok(
    chf: CompactHeightfield,
    k: int,
    i: int,
    dir: int,
    entry: Option<u8>,
) -> bool {
    if conn_ok(chf, k, i, dir) {
        &&& entry is Some
        &&& conn_pair(chf, k, i, dir, chf.cell_start(chf.nbr_cell(k, dir)) + entry->0 as int)
    } else {
        entry is None
    }
}

/// `con_entry_ok` for the entry stored in a connection table.
pub open spec fn char_with(
    chf: CompactHeightfield,
    cons: Seq<[Option<u8>; 4]>,
    k: int,
    i: int,
    dir: int,
) -> bool {
    con_entry_ok(chf, k, i, dir, cons[i][dir])
}

/// Replaces one direction's entry of a connection array.
fn set_dir(con: [Option<u8>; 4], dir: usize, entry: Option<u8>) -> (r: [Option<u8>; 4])
    requires
        dir < 4,
    ensures
        r[dir as int] == entry,
        forall|d: int| 0 <= d < 4 && d != dir as int ==> r[d] == con[d],
{
    if dir == 0 {
        [entry, con[1], con[2], con[3]]
    } else if dir == 1 {
        [con[0], entry, con[2], con[3]]
    } else if dir == 2 {
        [con[0], con[1], entry, con[3]]
    } else {
        [con[0], con[1], con[2], entry]
    }
}

/// Connectability, pair linking and link existence depend only on the
/// spans' floors and clearances, the cells and the walkable parameters:
/// they carry over to a heightfield that differs only in the stored
/// connections.
pub proof fn lemma_conn_transfer(a: CompactHeightfield, b: CompactHeightfield)
    requires
        a.cells_contiguous(),
        b.cells@ == a.cells@,
        b.width == a.width,
        b.height == a.height,
        b.walkable_height == a.walkable_height,
        b.walkable_climb == a.walkable_climb,
        b.spans@.len() == a.spans@.len(),
        forall|i: int|
            0 <= i < a.spans@.len() ==> (#[trigger] b.spans@[i]).y == a.spans@[i].y
                && b.spans@[i].h == a.spans@[i].h,
    ensures
        forall|i: int, i2: int|
            0 <= i < a.spans@.len() && 0 <= i2 < a.spans@.len() ==> (spans_connectable(a, i, i2)
                <==> #[trigger] spans_connectable(b, i, i2)),
        forall|k: int, i: int, dir: int, i2: int|
            0 <= k < a.grid_len() && a.cell_start(k) <= i < a.cell_end(k) && 0 <= dir < 4 ==> (
            conn_pair(a, k, i, dir, i2) <==> #[trigger] conn_pair(b, k, i, dir, i2)),
        forall|k: int, i: int, dir: int|
            0 <= k < a.grid_len() && a.cell_start(k) <= i < a.cell_end(k) && 0 <= dir < 4 ==> (
            conn_ok(a, k, i, dir) <==> #[trigger] conn_ok(b, k, i, dir)),
{
    assert forall|i: int, i2: int|
        0 <= i < a.spans@.len() && 0 <= i2 < a.spans@.len() implies (spans_connectable(a, i, i2)
        <==> #[trigger] spans_connectable(b, i, i2)) by {
        assert(b.spans@[i].y == a.spans@[i].y);
        assert(b.spans@[i2].y == a.spans@[i2].y);
    }
    assert forall|k: int, i: int, dir: int, i2: int|
        0 <= k < a.grid_len() && a.cell_start(k) <= i < a.cell_end(k) && 0 <= dir < 4 implies (
    conn_pair(a, k, i, dir, i2) <==> #[trigger] conn_pair(b, k, i, dir, i2)) by {
        a.lemma_cell_bounds(k);
        if a.has_nbr(k, dir) {
            let ka = a.nbr_cell(k, dir);
            let x2 = a.cell_x(k) + crate::math::dir_offset_x_spec(dir);
            let z2 = a.cell_z(k) + crate::math::dir_offset_z_spec(dir);
            a.lemma_cell_coords(x2, z2);
            a.lemma_cell_bounds(ka);
            if conn_pair(a, k, i, dir, i2) {
                assert forall|j: int|
                    b.cell_start(ka) <= j < b.cell_end(ka) && #[trigger] spans_connectable(
                        b,
                        i,
                        j,
                    ) implies j == i2 by {
                    assert(spans_connectable(a, i, j));
                }
                assert forall|j: int|
                    b.cell_start(k) <= j < b.cell_end(k) && #[trigger] spans_connectable(
                        b,
                        i2,
                        j,
                    ) implies j == i by {
                    assert(spans_connectable(a, i2, j));
                }
                assert(conn_pair(b, k, i, dir, i2));
            }
            if conn_pair(b, k, i, dir, i2) {
                assert forall|j: int|
                    a.cell_start(ka) <= j < a.cell_end(ka) && #[trigger] spans_connectable(
                        a,
                        i,
                        j,
                    ) implies j == i2 by {
                    assert(spans_connectable(b, i, j));
                }
                assert forall|j: int|
                    a.cell_start(k) <= j < a.cell_end(k) && #[trigger] spans_connectable(
                        a,
                        i2,
                        j,
                    ) implies j == i by {
                    assert(spans_connectable(b, i2, j));
                }
                assert(conn_pair(a, k, i, dir, i2));
            }
        }
    }
    assert forall|k: int, i: int, dir: int|
        0 <= k < a.grid_len() && a.cell_start(k) <= i < a.cell_end(k) && 0 <= dir < 4 implies (
    conn_ok(a, k, i, dir) <==> #[trigger] conn_ok(b, k, i, dir)) by {
        if conn_ok(a, k, i, dir) {
            let w2 = choose|i2: int| conn_pair(a, k, i, dir, i2);
            assert(conn_pair(a, k, i, dir, w2));
            assert(conn_pair(b, k, i, dir, w2));
        }
        if conn_ok(b, k, i, dir) {
            let w2 = choose|i2: int| conn_pair(b, k, i, dir, i2);
            assert(conn_pair(b, k, i, dir, w2));
            assert(conn_pair(a, k, i, dir, w2));
        }
    }
}

/// Every connection points both ways: the span a connection leads to has
/// a connection in the opposite direction that leads back.
pub proof fn lemma_connection_symmetric(chf: CompactHeightfield, k: int, i: int, dir: int)
    requires
        chf.wf(),
        connections_built(chf),
        0 <= k < chf.grid_len(),
        chf.cell_start(k) <= i < chf.cell_end(k),
        0 <= dir < 4,
        chf.span_con(i, dir) is Some,
    ensures
        ({
            let i2 = chf.con_target(k, i, dir);
            let ka = chf.nbr_cell(k, dir);
            let rev = if dir < 2 {
                dir + 2
            } else {
                dir - 2
            };
            &&& chf.cell_start(ka) <= i2 < chf.cell_end(ka)
            &&& chf.span_con(i2, rev) is Some
            &&& chf.con_target(ka, i2, rev) == i
        }),
{
    let i2 = chf.con_target(k, i, dir);
    let ka = chf.nbr_cell(k, dir);
    let rev = if dir < 2 {
        dir + 2
    } else {
        dir - 2
    };
    assert(con_characterized(chf, k, i, dir));
    assert(conn_pair(chf, k, i, dir, i2));
    chf.lemma_cell_decompose(k);
    let x2 = chf.cell_x(k) + crate::math::dir_offset_x_spec(dir);
    let z2 = chf.cell_z(k) + crate::math::dir_offset_z_spec(dir);
    chf.lemma_cell_coords(x2, z2);
    assert(chf.nbr_cell(ka, rev) == k);
    assert(chf.has_nbr(ka, rev));
    assert(spans_connectable(chf, i2, i));
    assert(conn_pair(chf, ka, i2, rev, i));
    assert(conn_ok(chf, ka, i2, rev));
    assert(con_characterized(chf, ka, i2, rev));
    let back = chf.con_target(ka, i2, rev);
    assert(conn_pair(chf, ka, i2, rev, back));
    assert(spans_connectable(chf, i2, back));
    assert(back == i);
}

/// Everything `into_compact` promises of a successfully built compact
/// heightfield: well-formed, every span with full clearance, contents
/// drawn column by column from the heightfield, connections exactly as
/// the linking rule asks, and the distance field zeroed.
pub open spec fn compact_built(
    hf: Heightfield,
    walkable_height: u16,
    walkable_climb: u16,
    c: CompactHeightfield,
) -> bool {
    &&& c.wf()
    &&& connections_built(c)
    &&& c.width == hf.width
    &&& c.height == hf.height
    &&& c.walkable_height == walkable_height
    &&& c.walkable_climb == walkable_climb
    &&& c.max_distance == 0
    &&& c.cells@.len() == hf.grid_len()
    &&& c.spans@.len() == total_spans(hf, walkable_height, hf.grid_len())
    &&& (forall|k: int|
        0 <= k < hf.grid_len() ==> #[trigger] c.cell_count(k) == col_spans(
            hf.columns@[k]@,
            walkable_height,
        ).len())
    &&& (forall|k: int, j: int|
        0 <= k < hf.grid_len() && 0 <= j < c.cell_count(k) ==> {
            let s = #[trigger] c.spans@[c.cell_start(k) + j];
            let t = col_spans(hf.columns@[k]@, walkable_height)[j];
            s.y == t.y && s.h == t.h
        })
    &&& (forall|k: int|
        0 <= k < hf.grid_len() ==> c.areas@.subrange(#[trigger] c.cell_start(k), c.cell_end(k))
            == col_areas(hf.columns@[k]@, walkable_height))
    &&& (forall|i: int| 0 <= i < c.spans@.len() ==> (#[trigger] c.spans@[i]).h >= walkable_height)
    &&& (forall|i: int| 0 <= i < c.dist@.len() ==> #[trigger] c.dist@[i] == 0)
}

impl Heightfield {
    /// Derives the compact heightfield: one compact span per walkable
    /// solid span with at least `walkable_height` of clearance, its area
    /// copied from the solid span, linked to the connectable spans of the
    /// four neighbor columns, with the distance field zeroed. Fails only
    /// when a column or the whole grid has too many spans to index.
    #[verifier::rlimit(100)]
    pub fn into_compact(&self, walkable_height: u16, walkable_climb: u16) -> (r: Result<
        CompactHeightfield,
        CompactBuildError,
    >)
        requires
            self.wf(),
        ensures
            r is Ok <==> !compact_overflow(*self, walkable_height),
            r is Ok ==> compact_built(*self, walkable_height, walkable_climb, r->Ok_0),
    {
        let a = match self.build_compact_cells(walkable_height, walkable_climb) {
            Ok(a) => a,
            Err(e) => {
                return Err(e);
            },
        };
        let cons = a.compute_connections();
        let n = a.spans.len();
        let mut new_spans: Vec<CompactSpan> = Vec::new();
        let mut i: usize = 0;
        while i < n
            invariant
                n == a.spans@.len(),
                n == cons@.len(),
                i <= n,
                new_spans@.len() == i,
                forall|i2: int|
                    0 <= i2 < i as int ==> (#[trigger] new_spans@[i2]).y == a.spans@[i2].y
                        && new_spans@[i2].h == a.spans@[i2].h && new_spans@[i2].con == cons@[i2],
            decreases n - i,
        {
            let s = a.spans[i];
            new_spans.push(CompactSpan { y: s.y, h: s.h, con: cons[i] });
            i += 1;
        }
        let ghost a_snap = a;
        let c = CompactHeightfield {
            width: a.width,
            height: a.height,
            walkable_height: a.walkable_height,
            walkable_climb: a.walkable_climb,
            cells: a.cells,
            spans: new_spans,
            areas: a.areas,
            dist: a.dist,
            max_distance: a.max_distance,
        };
        proof {
            let a = a_snap;
            assert forall|k: int|
                0 <= k < c.cells@.len() - 1 implies c.cell_start(k + 1) == #[trigger] c.cell_end(
                    k,
                ) by {
                assert(a.cell_start(k + 1) == a.cell_end(k));
            }
            assert(c.cells_contiguous());
            lemma_conn_transfer(a, c);
            assert forall|k: int, i2: int, dir: int|
                0 <= k < c.grid_len() && c.cell_start(k) <= i2 < c.cell_end(k) && 0 <= dir
                    < 4 implies #[trigger] con_characterized(c, k, i2, dir) by {
                a.lemma_cell_bounds(k);
                assert(char_with(a, cons@, k, i2, dir));
                assert(c.span_con(i2, dir) == cons@[i2][dir]);
                if conn_ok(a, k, i2, dir) {
                    let t = a.cell_start(a.nbr_cell(k, dir)) + cons@[i2][dir]->0 as int;
                    assert(conn_pair(a, k, i2, dir, t));
                    assert(conn_pair(c, k, i2, dir, t));
                }
            }
            assert(connections_built(c));
            assert forall|k: int, i2: int, dir: int|
                0 <= k < c.grid_len() && c.cell_start(k) <= i2 < c.cell_end(k) && 0 <= dir
                    < 4 implies #[trigger] c.con_valid(k, i2, dir) by {
                assert(con_characterized(c, k, i2, dir));
                if c.span_con(i2, dir) is Some {
                    assert(conn_pair(c, k, i2, dir, c.con_target(k, i2, dir)));
                }
            }
            assert(c.wf());
            assert forall|k: int, j: int|
                0 <= k < self.grid_len() && 0 <= j < c.cell_count(k) implies {
                    let s = #[trigger] c.spans@[c.cell_start(k) + j];
                    let t = col_spans(self.columns@[k]@, walkable_height)[j];
                    s.y == t.y && s.h == t.h
                } by {
                a.lemma_cell_bounds(k);
                assert(a.spans@.subrange(a.cell_start(k), a.cell_end(k)) == col_spans(
                    self.columns@[k]@,
                    walkable_height,
                ));
                assert(a.spans@.subrange(a.cell_start(k), a.cell_end(k))[j] == a.spans@[a.cell_start(
                    k,
                ) + j]);
            }
            assert forall|i2: int| 0 <= i2 < c.spans@.len() implies (#[trigger] c.spans@[i2]).h
                >= walkable_height by {
                a.lemma_span_has_cell(i2);
                let k = a.cell_of(i2);
                a.lemma_cell_bounds(k);
                assert(a.spans@.subrange(a.cell_start(k), a.cell_end(k)) == col_spans(
                    self.columns@[k]@,
                    walkable_height,
                ));
                let j = i2 - a.cell_start(k);
                assert(a.spans@.subrange(a.cell_start(k), a.cell_end(k))[j] == a.spans@[i2]);
                lemma_col_spans_h(self.columns@[k]@, walkable_height, self.columns@[k]@.len() as int);
            }
            assert forall|k: int| 0 <= k < self.grid_len() implies #[trigger] c.cell_count(k)
                == col_spans(self.columns@[k]@, walkable_height).len() by {
                assert(a.cell_count(k) == col_spans(self.columns@[k]@, walkable_height).len());
            }
            assert forall|k: int| 0 <= k < self.grid_len() implies c.areas@.subrange(
                #[trigger] c.cell_start(k),
                c.cell_end(k),
            ) == col_areas(self.columns@[k]@, walkable_height) by {
                assert(a.areas@.subrange(a.cell_start(k), a.cell_end(k)) == col_areas(
                    self.columns@[k]@,
                    walkable_height,
                ));
                assert(c.cell_start(k) == a.cell_start(k));
                assert(c.cell_end(k) == a.cell_end(k));
            }
            assert(compact_built(*self, walkable_height, walkable_climb, c));
        }
        Ok(c)
    }
}

/// A heightfield whose links were built keeps that shape in any value
/// with the same cells and spans, whatever its areas or distances hold.
pub proof fn lemma_connections_built_transfer(a: CompactHeightfield, b: CompactHeightfield)
    requires
        a.wf(),
        connections_built(a),
        b.cells@ == a.cells@,
        b.spans@ == a.spans@,
        b.width == a.width,
        b.height == a.height,
        b.walkable_height == a.walkable_height,
        b.walkable_climb == a.walkable_climb,
    ensures
        connections_built(b),
{
    lemma_conn_transfer(a, b);
    assert forall|k: int, i: int, dir: int|
        0 <= k < b.grid_len() && b.cell_start(k) <= i < b.cell_end(k) && 0 <= dir
            < 4 implies #[trigger] con_characterized(b, k, i, dir) by {
        assert(con_characterized(a, k, i, dir));
        assert(b.span_con(i, dir) == a.span_con(i, dir));
        if conn_ok(a, k, i, dir) {
            assert(conn_pair(a, k, i, dir, a.con_target(k, i, dir)));
            assert(conn_pair(b, k, i, dir, a.con_target(k, i, dir)));
            assert(b.con_target(k, i, dir) == a.con_target(k, i, dir));
        } else {
            if conn_ok(b, k, i, dir) {
                let w2 = choose|i2: int| conn_pair(b, k, i, dir, i2);
                assert(conn_pair(b, k, i, dir, w2));
                assert(conn_pair(a, k, i, dir, w2));
            }
        }
    }
}

} // verus!
