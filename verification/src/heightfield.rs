use vstd::prelude::*;

use crate::area::AreaType;
use crate::compact::{CompactCell, CompactHeightfield, CompactSpan};

verus! {

// The heightfield is the voxelized solid world: per column, an ascending
// list of solid spans. The compact heightfield is derived from it: one
// compact span per walkable solid span with enough open space above its
// top, linked to the matching spans of the four neighbor columns.

/// One solid interval of a voxel column.
#[derive(Debug, Clone, Copy, PartialEq, Eq, Structural)]
pub struct HeightSpan {
    /// Bottom of the solid interval, in voxel units.
    pub y_min: u16,
    /// Top of the solid interval, in voxel units.
    pub y_max: u16,
    /// Area label of the surface at the top of the interval.
    pub area: AreaType,
}

/// The voxelized solid world: a `width x height` grid of columns, each an
/// ascending list of disjoint solid spans.
#[derive(Debug, Clone, PartialEq)]
pub struct Heightfield {
    /// Grid extent along X, in voxel columns.
    pub width: u16,
    /// Grid extent along Z, in voxel columns.
    pub height: u16,
    /// The columns, row-major: column `(x, z)` is `columns[x + z * width]`.
    pub columns: Vec<Vec<HeightSpan>>,
}

/// The open ceiling above solid span `j` of a column: the bottom of the
/// next solid span, or the top of the world for the last one.
pub open spec fn span_ceiling(col: Seq<HeightSpan>, j: int) -> int {
    if j + 1 < col.len() {
        col[j + 1].y_min as int
    } else {
        0xffff
    }
}

/// The clearance above solid span `j`: open voxels between its top and
/// the next span's bottom.
pub open spec fn span_clearance(col: Seq<HeightSpan>, j: int) -> int {
    span_ceiling(col, j) - col[j].y_max as int
}

/// Whether solid span `j` of a column yields a compact span: its surface
/// is walkable and the clearance above it is at least `walkable_height`.
pub open spec fn emits_span(col: Seq<HeightSpan>, walkable_height: u16, j: int) -> bool {
    &&& col[j].area.is_walkable_spec()
    &&& span_clearance(col, j) >= walkable_height as int
}

/// The compact spans of one column, from its first `j` solid spans, in
/// ascending order, not yet linked to their neighbors.
pub open spec fn col_spans_upto(col: Seq<HeightSpan>, walkable_height: u16, j: int) -> Seq<
    CompactSpan,
>
    decreases j,
{
    if j <= 0 {
        Seq::empty()
    } else {
        let rest = col_spans_upto(col, walkable_height, j - 1);
        if emits_span(col, walkable_height, j - 1) {
            rest.push(
                CompactSpan {
                    y: col[j - 1].y_max,
                    h: span_clearance(col, j - 1) as u16,
                    con: [None, None, None, None],
                },
            )
        } else {
            rest
        }
    }
}

/// The compact spans of one column.
pub open spec fn col_spans(col: Seq<HeightSpan>, walkable_height: u16) -> Seq<CompactSpan> {
    col_spans_upto(col, walkable_height, col.len() as int)
}

/// The area labels of one column's compact spans.
pub open spec fn col_areas_upto(col: Seq<HeightSpan>, walkable_height: u16, j: int) -> Seq<
    AreaType,
>
    decreases j,
{
    if j <= 0 {
        Seq::empty()
    } else {
        let rest = col_areas_upto(col, walkable_height, j - 1);
        if emits_span(col, walkable_height, j - 1) {
            rest.push(col[j - 1].area)
        } else {
            rest
        }
    }
}

/// The area labels of one column's compact spans.
pub open spec fn col_areas(col: Seq<HeightSpan>, walkable_height: u16) -> Seq<AreaType> {
    col_areas_upto(col, walkable_height, col.len() as int)
}

/// Emitted spans and their areas stay in step.
pub proof fn lemma_col_lens(col: Seq<HeightSpan>, walkable_height: u16, j: int)
    requires
        0 <= j <= col.len(),
    ensures
        col_spans_upto(col, walkable_height, j).len() == col_areas_upto(
            col,
            walkable_height,
            j,
        ).len() <= j,
    decreases j,
{
    if j > 0 {
        lemma_col_lens(col, walkable_height, j - 1);
    }
}

/// Column spans come out with no connections set.
pub proof fn lemma_col_spans_cons(col: Seq<HeightSpan>, walkable_height: u16, j: int)
    ensures
        forall|j2: int, dir: int|
            #![trigger col_spans_upto(col, walkable_height, j)[j2].con[dir]]
            0 <= j2 < col_spans_upto(col, walkable_height, j).len() && 0 <= dir < 4
                ==> col_spans_upto(col, walkable_height, j)[j2].con[dir] is None,
    decreases j,
{
    if j > 0 {
        lemma_col_spans_cons(col, walkable_height, j - 1);
    }
}

/// Every emitted compact span has at least `walkable_height` clearance.
pub proof fn lemma_col_spans_h(col: Seq<HeightSpan>, walkable_height: u16, j: int)
    ensures
        forall|j2: int|
            0 <= j2 < col_spans_upto(col, walkable_height, j).len() ==> (
            #[trigger] col_spans_upto(col, walkable_height, j)[j2]).h >= walkable_height,
    decreases j,
{
    if j > 0 {
        lemma_col_spans_h(col, walkable_height, j - 1);
        let prev = col_spans_upto(col, walkable_height, j - 1);
        let cur = col_spans_upto(col, walkable_height, j);
        assert forall|j2: int| 0 <= j2 < cur.len() implies (#[trigger] cur[j2]).h
            >= walkable_height by {
            if emits_span(col, walkable_height, j - 1) && j2 == cur.len() - 1 {
                let cl = span_clearance(col, j - 1);
                assert(0 <= cl <= 0xffff);
                assert((cl as u16) as int == cl);
            } else {
                assert(cur[j2] == prev[j2]);
            }
        }
    }
}

/// The number of compact spans of the first `k` columns.
pub open spec fn total_spans(hf: Heightfield, walkable_height: u16, k: int) -> int
    decreases k,
{
    if k <= 0 {
        0
    } else {
        total_spans(hf, walkable_height, k - 1) + col_spans(
            hf.columns@[k - 1]@,
            walkable_height,
        ).len()
    }
}

/// Prefix span totals never shrink.
pub proof fn lemma_total_spans_mono(hf: Heightfield, walkable_height: u16, k1: int, k2: int)
    requires
        0 <= k1 <= k2,
    ensures
        total_spans(hf, walkable_height, k1) <= total_spans(hf, walkable_height, k2),
    decreases k2 - k1,
{
    if k1 < k2 {
        lemma_total_spans_mono(hf, walkable_height, k1, k2 - 1);
    }
}

/// Building the compact heightfield fails only on index overflow: a
/// column with more compact spans than a cell can count, or more spans in
/// all than a cell index can address.
pub open spec fn compact_overflow(hf: Heightfield, walkable_height: u16) -> bool {
    ||| exists|k: int|
        0 <= k < hf.grid_len() && col_spans(#[trigger] hf.columns@[k]@, walkable_height).len()
            > 0xffff
    ||| total_spans(hf, walkable_height, hf.grid_len()) > u32::MAX
}

impl Heightfield {
    /// Number of grid columns.
    pub open spec fn grid_len(self) -> int {
        self.width as int * self.height as int
    }

    /// Well-formedness: one column per grid cell, and each column's solid
    /// spans are ascending and disjoint.
    pub open spec fn wf(self) -> bool {
        &&& self.columns@.len() == self.grid_len()
        &&& (forall|k: int, j: int|
            0 <= k < self.columns@.len() && 0 <= j < self.columns@[k]@.len()
                ==> (#[trigger] self.columns@[k]@[j]).y_min <= self.columns@[k]@[j].y_max)
        &&& (forall|k: int, j: int|
            0 <= k < self.columns@.len() && 0 <= j < self.columns@[k]@.len() - 1
                ==> (#[trigger] self.columns@[k]@[j]).y_max <= self.columns@[k]@[j + 1].y_min)
    }

    /// Checks well-formedness of the column lists.
    #[verifier::rlimit(100)]
    pub fn check_wf(&self) -> (r: bool)
        ensures
            r == self.wf(),
    {
        let w = self.width as usize;
        let h = self.height as usize;
        proof {
            let wi = self.width as int;
            let hi = self.height as int;
            assert(wi * hi <= 0xffff_ffff) by (nonlinear_arith)
                requires
                    0 <= wi < 0x1_0000,
                    0 <= hi < 0x1_0000,
            ;
        }
        if self.columns.len() != w * h {
            return false;
        }
        let mut k: usize = 0;
        while k < self.columns.len()
            invariant
                self.columns@.len() == self.grid_len(),
                k <= self.columns@.len(),
                forall|k2: int, j: int|
                    0 <= k2 < k as int && 0 <= j < self.columns@[k2]@.len()
                        ==> (#[trigger] self.columns@[k2]@[j]).y_min <= self.columns@[k2]@[j].y_max,
                forall|k2: int, j: int|
                    0 <= k2 < k as int && 0 <= j < self.columns@[k2]@.len() - 1
                        ==> (#[trigger] self.columns@[k2]@[j]).y_max <= self.columns@[k2]@[j
                        + 1].y_min,
            decreases self.columns@.len() - k,
        {
            let col = &self.columns[k];
            let mut j: usize = 0;
            while j < col.len()
                invariant
                    col == &self.columns@[k as int],
                    k < self.columns@.len(),
                    j <= col@.len(),
                    forall|j2: int|
                        0 <= j2 < j as int ==> (#[trigger] col@[j2]).y_min <= col@[j2].y_max,
                    forall|j2: int|
                        0 <= j2 < j as int && j2 < col@.len() - 1 ==> (#[trigger] col@[j2]).y_max
                            <= col@[j2 + 1].y_min,
                decreases col@.len() - j,
            {
                if col[j].y_min > col[j].y_max {
                    return false;
                }
                if j + 1 < col.len() && col[j].y_max > col[j + 1].y_min {
                    return false;
                }
                j += 1;
            }
            k += 1;
        }
        true
    }
}

/// Why building a compact heightfield failed.
#[derive(Debug, Clone, Copy, PartialEq, Eq, Structural)]
pub enum CompactBuildError {
    /// A column held more compact spans than a cell can count, or all
    /// columns together more than a cell index can address.
    SpanCountOverflow,
}

impl Heightfield {
    /// Builds the cells, spans and areas of the compact heightfield: one
    /// compact span per walkable solid span with enough clearance, not
    /// yet linked to its neighbors.
    #[verifier::rlimit(100)]
    pub(crate) fn build_compact_cells(&self, walkable_height: u16, walkable_climb: u16) -> (r: Result<
        CompactHeightfield,
        CompactBuildError,
    >)
        requires
            self.wf(),
        ensures
            r is Ok <==> !compact_overflow(*self, walkable_height),
            r is Ok ==> ({
                let c = r->Ok_0;
                &&& c.wf()
                &&& c.width == self.width
                &&& c.height == self.height
                &&& c.walkable_height == walkable_height
                &&& c.walkable_climb == walkable_climb
                &&& c.max_distance == 0
                &&& c.cells@.len() == self.grid_len()
                &&& c.spans@.len() == total_spans(*self, walkable_height, self.grid_len())
                &&& (forall|k: int|
                    0 <= k < self.grid_len() ==> #[trigger] c.cell_count(k) == col_spans(
                        self.columns@[k]@,
                        walkable_height,
                    ).len())
                &&& (forall|k: int|
                    0 <= k < self.grid_len() ==> c.spans@.subrange(
                        #[trigger] c.cell_start(k),
                        c.cell_end(k),
                    ) == col_spans(self.columns@[k]@, walkable_height))
                &&& (forall|k: int|
                    0 <= k < self.grid_len() ==> c.areas@.subrange(
                        #[trigger] c.cell_start(k),
                        c.cell_end(k),
                    ) == col_areas(self.columns@[k]@, walkable_height))
                &&& (forall|i: int, dir: int|
                    0 <= i < c.spans@.len() && 0 <= dir < 4 ==> #[trigger] c.span_con(i, dir)
                        is None)
                &&& (forall|i: int| 0 <= i < c.dist@.len() ==> #[trigger] c.dist@[i] == 0)
            }),
    {
        let grid = self.columns.len();
        let mut cells: Vec<CompactCell> = Vec::new();
        let mut spans: Vec<CompactSpan> = Vec::new();
        let mut areas: Vec<AreaType> = Vec::new();
        let mut k: usize = 0;
        while k < grid
            invariant
                self.wf(),
                grid == self.columns@.len(),
                k <= grid,
                cells@.len() == k,
                spans@.len() == areas@.len(),
                spans@.len() <= u32::MAX,
                spans@.len() == total_spans(*self, walkable_height, k as int),
                k > 0 ==> cells@[0].index == 0,
                forall|k2: int|
                    0 <= k2 < k as int - 1 ==> (#[trigger] cells@[k2 + 1]).index as int
                        == cells@[k2].index as int + cells@[k2].count as int,
                k > 0 ==> cells@[k as int - 1].index as int + cells@[k as int - 1].count as int
                    == spans@.len(),
                k == 0 ==> spans@.len() == 0,
                forall|k2: int|
                    0 <= k2 < k as int ==> (#[trigger] cells@[k2]).count as int == col_spans(
                        self.columns@[k2]@,
                        walkable_height,
                    ).len(),
                forall|k2: int|
                    0 <= k2 < k as int ==> cells@[k2].index as int + cells@[k2].count as int
                        <= spans@.len(),
                forall|k2: int|
                    0 <= k2 < k as int ==> spans@.subrange(
                        (#[trigger] cells@[k2]).index as int,
                        cells@[k2].index as int + cells@[k2].count as int,
                    ) == col_spans(self.columns@[k2]@, walkable_height),
                forall|k2: int|
                    0 <= k2 < k as int ==> areas@.subrange(
                        (#[trigger] cells@[k2]).index as int,
                        cells@[k2].index as int + cells@[k2].count as int,
                    ) == col_areas(self.columns@[k2]@, walkable_height),
                forall|i: int, dir: int|
                    0 <= i < spans@.len() && 0 <= dir < 4 ==> #[trigger] spans@[i].con[dir]
                        is None,
            decreases grid - k,
        {
            let ghost spans_pre = spans@;
            let ghost areas_pre = areas@;
            let ghost cells_pre = cells@;
            let col = &self.columns[k];
            let col_start = spans.len();
            let mut j: usize = 0;
            while j < col.len()
                invariant
                    self.wf(),
                    k < grid,
                    grid == self.columns@.len(),
                    col == &self.columns@[k as int],
                    j <= col@.len(),
                    spans_pre.len() == col_start,
                    col_start <= u32::MAX,
                    spans@ == spans_pre + col_spans_upto(col@, walkable_height, j as int),
                    areas@ == areas_pre + col_areas_upto(col@, walkable_height, j as int),
                decreases col@.len() - j,
            {
                let ceil: u16 = if j + 1 < col.len() {
                    col[j + 1].y_min
                } else {
                    0xffff
                };
                let floor = col[j].y_max;
                let h = ceil - floor;
                if col[j].area.is_walkable() && h >= walkable_height {
                    spans.push(
                        CompactSpan { y: floor, h, con: [None, None, None, None] },
                    );
                    areas.push(col[j].area);
                }
                j += 1;
                proof {
                    assert(spans@ == spans_pre + col_spans_upto(
                        col@,
                        walkable_height,
                        j as int,
                    ));
                    assert(areas@ == areas_pre + col_areas_upto(
                        col@,
                        walkable_height,
                        j as int,
                    ));
                }
            }
            proof {
                lemma_col_lens(col@, walkable_height, col@.len() as int);
                lemma_col_spans_cons(col@, walkable_height, col@.len() as int);
            }
            let count = spans.len() - col_start;
            if count > 0xffff {
                proof {
                    assert(col_spans(self.columns@[k as int]@, walkable_height).len() > 0xffff);
                    assert(compact_overflow(*self, walkable_height));
                }
                return Err(CompactBuildError::SpanCountOverflow);
            }
            cells.push(CompactCell { index: col_start as u32, count: count as u16 });
            if spans.len() > u32::MAX as usize {
                proof {
                    assert(total_spans(*self, walkable_height, k as int + 1) > u32::MAX);
                    lemma_total_spans_mono(
                        *self,
                        walkable_height,
                        k as int + 1,
                        self.grid_len(),
                    );
                    assert(compact_overflow(*self, walkable_height));
                }
                return Err(CompactBuildError::SpanCountOverflow);
            }
            k += 1;
            proof {
                assert(spans@.subrange(col_start as int, col_start as int + count as int)
                    =~= col_spans(self.columns@[k as int - 1]@, walkable_height));
                assert(areas@.subrange(col_start as int, col_start as int + count as int)
                    =~= col_areas(self.columns@[k as int - 1]@, walkable_height));
                assert forall|k2: int|
                    0 <= k2 < k as int implies spans@.subrange(
                        (#[trigger] cells@[k2]).index as int,
                        cells@[k2].index as int + cells@[k2].count as int,
                    ) == col_spans(self.columns@[k2]@, walkable_height) by {
                    if k2 < k as int - 1 {
                        assert(cells@[k2] == cells_pre[k2]);
                        assert(spans@.subrange(
                            cells@[k2].index as int,
                            cells@[k2].index as int + cells@[k2].count as int,
                        ) =~= spans_pre.subrange(
                            cells@[k2].index as int,
                            cells@[k2].index as int + cells@[k2].count as int,
                        ));
                    }
                }
                assert forall|k2: int|
                    0 <= k2 < k as int implies areas@.subrange(
                        (#[trigger] cells@[k2]).index as int,
                        cells@[k2].index as int + cells@[k2].count as int,
                    ) == col_areas(self.columns@[k2]@, walkable_height) by {
                    if k2 < k as int - 1 {
                        assert(cells@[k2] == cells_pre[k2]);
                        assert(areas@.subrange(
                            cells@[k2].index as int,
                            cells@[k2].index as int + cells@[k2].count as int,
                        ) =~= areas_pre.subrange(
                            cells@[k2].index as int,
                            cells@[k2].index as int + cells@[k2].count as int,
                        ));
                    }
                }
            }
        }
        proof {
            assert forall|k2: int| 0 <= k2 < self.grid_len() implies col_spans(
                #[trigger] self.columns@[k2]@,
                walkable_height,
            ).len() <= 0xffff by {
                assert(cells@[k2].count as int == col_spans(
                    self.columns@[k2]@,
                    walkable_height,
                ).len());
            }
            assert(!compact_overflow(*self, walkable_height));
        }
        let n = spans.len();
        let dist: Vec<u16> = vec![0u16; n];
        let chf = CompactHeightfield {
            width: self.width,
            height: self.height,
            walkable_height,
            walkable_climb,
            cells,
            spans,
            areas,
            dist,
            max_distance: 0,
        };
        proof {
            assert forall|k2: int, i: int, dir: int|
                0 <= k2 < chf.grid_len() && chf.cell_start(k2) <= i < chf.cell_end(k2) && 0 <= dir
                    < 4 implies #[trigger] chf.con_valid(k2, i, dir) by {
                assert(chf.span_con(i, dir) is None);
            }
            assert(chf.wf());
        }
        Ok(chf)
    }
}

/// The area that a merge of two solid spans keeps: the larger area when
/// the two tops are within `walkable_climb` of each other, else the area
/// of the span with the higher top. An unwalkable span can never
/// override a walkable area at an equal top.
pub open spec fn merged_area(
    new_area: AreaType,
    new_top: int,
    old_area: AreaType,
    old_top: int,
    walkable_climb: u16,
) -> AreaType {
    if new_top - old_top <= walkable_climb as int && old_top - new_top <= walkable_climb as int {
        if new_area.0 >= old_area.0 {
            new_area
        } else {
            old_area
        }
    } else if old_top > new_top {
        old_area
    } else {
        new_area
    }
}

/// Whether a solid span lies close enough to the interval
/// `[y_min, y_max]` to combine with it: they overlap, touch, or sit
/// within `walkable_climb` of each other.
pub open spec fn spans_combine(
    s: HeightSpan,
    y_min: int,
    y_max: int,
    walkable_climb: u16,
) -> bool {
    s.y_min as int <= y_max + walkable_climb as int && s.y_max as int + walkable_climb as int
        >= y_min
}

/// The column after inserting the interval `[y_min, y_max]` with the
/// given area: spans it overlaps or nearly touches are combined into it,
/// and the result keeps ascending order.
pub open spec fn inserted_span(
    col: Seq<HeightSpan>,
    y_min: int,
    y_max: int,
    area: AreaType,
    walkable_climb: u16,
) -> Seq<HeightSpan>
    decreases col.len(),
{
    if col.len() == 0 {
        seq![HeightSpan { y_min: y_min as u16, y_max: y_max as u16, area }]
    } else if (col[0].y_max as int) + (walkable_climb as int) < y_min {
        seq![col[0]] + inserted_span(col.skip(1), y_min, y_max, area, walkable_climb)
    } else if (col[0].y_min as int) > y_max + (walkable_climb as int) {
        seq![HeightSpan { y_min: y_min as u16, y_max: y_max as u16, area }] + col
    } else {
        let nb = if (col[0].y_min as int) < y_min {
            col[0].y_min as int
        } else {
            y_min
        };
        let nt = if (col[0].y_max as int) > y_max {
            col[0].y_max as int
        } else {
            y_max
        };
        let na = merged_area(area, y_max, col[0].area, col[0].y_max as int, walkable_climb);
        inserted_span(col.skip(1), nb, nt, na, walkable_climb)
    }
}

impl Heightfield {
    /// Inserts one solid span into a column, combining it with the spans
    /// it overlaps or nearly touches, as rasterized triangles deposit
    /// their coverage. Only that column changes.
    pub fn add_span(
        &mut self,
        x: u16,
        z: u16,
        y_min: u16,
        y_max: u16,
        area: AreaType,
        walkable_climb: u16,
    )
        requires
            old(self).columns@.len() == old(self).grid_len(),
            old(self).in_grid_spec(x as int, z as int),
            y_min <= y_max,
        ensures
            final(self).width == old(self).width,
            final(self).height == old(self).height,
            final(self).columns@.len() == old(self).columns@.len(),
            ({
                let k = x as int + z as int * old(self).width as int;
                &&& final(self).columns@[k]@ == inserted_span(
                    old(self).columns@[k]@,
                    y_min as int,
                    y_max as int,
                    area,
                    walkable_climb,
                )
                &&& (forall|k2: int|
                    0 <= k2 < old(self).columns@.len() && k2 != k
                        ==> final(self).columns@[k2] == old(self).columns@[k2])
            }),
    {
        proof {
            let xi = x as int;
            let zi = z as int;
            let wi = self.width as int;
            let hi = self.height as int;
            assert(xi + zi * wi < wi * hi && xi + zi * wi <= 0xffff_ffff) by (nonlinear_arith)
                requires
                    0 <= xi < wi,
                    0 <= zi < hi,
                    wi < 0x1_0000,
                    hi < 0x1_0000,
            ;
        }
        let k = x as usize + z as usize * self.width as usize;
        let ghost col0 = self.columns@[k as int]@;
        let n = self.columns[k].len();
        let mut out: Vec<HeightSpan> = Vec::new();
        let mut bot = y_min;
        let mut top = y_max;
        let mut cur_area = area;
        let mut j: usize = 0;
        let mut placed = false;
        proof {
            assert(col0.skip(0) =~= col0);
            assert(Seq::<HeightSpan>::empty() + inserted_span(
                col0,
                y_min as int,
                y_max as int,
                area,
                walkable_climb,
            ) =~= inserted_span(col0, y_min as int, y_max as int, area, walkable_climb));
        }
        while j < n && !placed
            invariant
                j <= n,
                bot <= top,
                n == col0.len(),
                k < self.columns@.len(),
                self.columns@[k as int]@ == col0,
                !placed ==> inserted_span(col0, y_min as int, y_max as int, area, walkable_climb)
                    == out@ + inserted_span(
                    col0.skip(j as int),
                    bot as int,
                    top as int,
                    cur_area,
                    walkable_climb,
                ),
                placed ==> inserted_span(col0, y_min as int, y_max as int, area, walkable_climb)
                    == out@ + seq![
                    HeightSpan { y_min: bot, y_max: top, area: cur_area },
                ] + col0.skip(j as int),
            decreases n - j, (if placed {
                0int
            } else {
                1int
            }),
        {
            let s = self.columns[k][j];
            if (s.y_max as u32) + (walkable_climb as u32) < bot as u32 {
                out.push(s);
                proof {
                    assert(col0.skip(j as int).skip(1) =~= col0.skip(j as int + 1));
                    assert((out@ + seq![s]) + inserted_span(
                        col0.skip(j as int + 1),
                        bot as int,
                        top as int,
                        cur_area,
                        walkable_climb,
                    ) =~= out@ + (seq![s] + inserted_span(
                        col0.skip(j as int + 1),
                        bot as int,
                        top as int,
                        cur_area,
                        walkable_climb,
                    )));
                }
                j += 1;
            } else if (s.y_min as u32) > (top as u32) + (walkable_climb as u32) {
                placed = true;
            } else {
                let nb = if s.y_min < bot {
                    s.y_min
                } else {
                    bot
                };
                let nt = if s.y_max > top {
                    s.y_max
                } else {
                    top
                };
                let na = if (if s.y_max as u32 > top as u32 {
                    s.y_max as u32 - top as u32
                } else {
                    top as u32 - s.y_max as u32
                }) <= walkable_climb as u32 {
                    if cur_area.0 >= s.area.0 {
                        cur_area
                    } else {
                        s.area
                    }
                } else if s.y_max > top {
                    s.area
                } else {
                    cur_area
                };
                proof {
                    assert(col0.skip(j as int).skip(1) =~= col0.skip(j as int + 1));
                }
                bot = nb;
                top = nt;
                cur_area = na;
                j += 1;
            }
        }
        proof {
            if !placed {
                assert(col0.skip(n as int) =~= Seq::<HeightSpan>::empty());
                assert(inserted_span(
                    col0.skip(j as int),
                    bot as int,
                    top as int,
                    cur_area,
                    walkable_climb,
                ) == seq![HeightSpan { y_min: bot, y_max: top, area: cur_area }]);
            }
        }
        out.push(HeightSpan { y_min: bot, y_max: top, area: cur_area });
        while j < n
            invariant
                j <= n,
                n == col0.len(),
                k < self.columns@.len(),
                self.columns@[k as int]@ == col0,
                inserted_span(col0, y_min as int, y_max as int, area, walkable_climb) == out@
                    + col0.skip(j as int),
            decreases n - j,
        {
            let s = self.columns[k][j];
            out.push(s);
            proof {
                assert(col0.skip(j as int).drop_first() =~= col0.skip(j as int + 1));
                assert((out@ + seq![s]) + col0.skip(j as int + 1) =~= out@ + col0.skip(
                    j as int,
                ));
            }
            j += 1;
        }
        proof {
            assert(col0.skip(n as int) =~= Seq::<HeightSpan>::empty());
            assert(out@ + Seq::<HeightSpan>::empty() =~= out@);
        }
        self.columns.set(k, out);
    }

    /// Whether `(x, z)` lies on the grid.
    pub open spec fn in_grid_spec(self, x: int, z: int) -> bool {
        0 <= x < self.width as int && 0 <= z < self.height as int
    }
}

/// Whether a column's solid spans are ascending and disjoint.
pub open spec fn column_sorted(col: Seq<HeightSpan>) -> bool {
    &&& (forall|j: int| 0 <= j < col.len() ==> (#[trigger] col[j]).y_min <= col[j].y_max)
    &&& (forall|j: int| 0 <= j < col.len() - 1 ==> (#[trigger] col[j]).y_max <= col[j + 1].y_min)
}

/// Inserting a span into a sorted column keeps it sorted: combined spans
/// swallow everything they overlap, and what remains stays in ascending
/// disjoint order.
pub proof fn lemma_inserted_span_sorted(
    col: Seq<HeightSpan>,
    y_min: int,
    y_max: int,
    area: AreaType,
    walkable_climb: u16,
)
    requires
        column_sorted(col),
        0 <= y_min <= y_max <= 0xffff,
    ensures
        column_sorted(inserted_span(col, y_min, y_max, area, walkable_climb)),
        inserted_span(col, y_min, y_max, area, walkable_climb).len() > 0,
        inserted_span(col, y_min, y_max, area, walkable_climb)[0].y_min as int >= (
        if col.len() > 0 && (col[0].y_min as int) < y_min {
            col[0].y_min as int
        } else {
            y_min
        }),
    decreases col.len(),
{
    let res = inserted_span(col, y_min, y_max, area, walkable_climb);
    if col.len() == 0 {
        assert(column_sorted(res));
    } else {
        assert forall|j: int| 0 <= j < col.len() - 2 implies (#[trigger] col.skip(1)[j]).y_max
            <= col.skip(1)[j + 1].y_min by {
            assert(col.skip(1)[j] == col[j + 1]);
            assert(col.skip(1)[j + 1] == col[j + 2]);
            assert(col[j + 1].y_max <= col[(j + 1) + 1].y_min);
        }
        assert(column_sorted(col.skip(1)));
        if (col[0].y_max as int) + (walkable_climb as int) < y_min {
            lemma_inserted_span_sorted(col.skip(1), y_min, y_max, area, walkable_climb);
            let rest = inserted_span(col.skip(1), y_min, y_max, area, walkable_climb);
            assert(res == seq![col[0]] + rest);
            assert(col[0].y_max as int <= rest[0].y_min as int) by {
                if col.skip(1).len() > 0 {
                    assert(col[0].y_max <= col.skip(1)[0].y_min);
                }
            }
            assert forall|j: int| 0 <= j < res.len() implies (#[trigger] res[j]).y_min
                <= res[j].y_max by {
                if j > 0 {
                    assert(res[j] == rest[j - 1]);
                }
            }
            assert forall|j: int| 0 <= j < res.len() - 1 implies (#[trigger] res[j]).y_max
                <= res[j + 1].y_min by {
                if j > 0 {
                    assert(res[j] == rest[j - 1] && res[j + 1] == rest[j]);
                }
            }
        } else if (col[0].y_min as int) > y_max + (walkable_climb as int) {
            let new = HeightSpan { y_min: y_min as u16, y_max: y_max as u16, area };
            assert(res == seq![new] + col);
            assert forall|j: int| 0 <= j < res.len() implies (#[trigger] res[j]).y_min
                <= res[j].y_max by {
                if j > 0 {
                    assert(res[j] == col[j - 1]);
                }
            }
            assert forall|j: int| 0 <= j < res.len() - 1 implies (#[trigger] res[j]).y_max
                <= res[j + 1].y_min by {
                if j > 0 {
                    assert(res[j] == col[j - 1] && res[j + 1] == col[j]);
                }
            }
        } else {
            let nb = if (col[0].y_min as int) < y_min {
                col[0].y_min as int
            } else {
                y_min
            };
            let nt = if (col[0].y_max as int) > y_max {
                col[0].y_max as int
            } else {
                y_max
            };
            let na = merged_area(area, y_max, col[0].area, col[0].y_max as int, walkable_climb);
            lemma_inserted_span_sorted(col.skip(1), nb, nt, na, walkable_climb);
            if col.skip(1).len() > 0 {
                assert(col[0].y_max <= col.skip(1)[0].y_min);
            }
        }
    }
}

impl Heightfield {
    /// Inserting a span into a well-formed heightfield leaves it
    /// well-formed: only one column changes, and it stays sorted.
    pub proof fn lemma_add_span_preserves_wf(
        self,
        other: Heightfield,
        x: int,
        z: int,
        y_min: u16,
        y_max: u16,
        area: AreaType,
        walkable_climb: u16,
    )
        requires
            self.wf(),
            self.in_grid_spec(x, z),
            y_min <= y_max,
            other.width == self.width,
            other.height == self.height,
            other.columns@.len() == self.columns@.len(),
            other.columns@[x + z * self.width as int]@ == inserted_span(
                self.columns@[x + z * self.width as int]@,
                y_min as int,
                y_max as int,
                area,
                walkable_climb,
            ),
            forall|k2: int|
                0 <= k2 < self.columns@.len() && k2 != x + z * self.width as int
                    ==> other.columns@[k2] == self.columns@[k2],
        ensures
            other.wf(),
    {
        let k = x + z * self.width as int;
        assert(0 <= k < self.columns@.len()) by (nonlinear_arith)
            requires
                0 <= x < self.width as int,
                0 <= z < self.height as int,
                self.columns@.len() == self.width as int * self.height as int,
                k == x + z * self.width as int,
        ;
        assert(column_sorted(self.columns@[k]@));
        lemma_inserted_span_sorted(
            self.columns@[k]@,
            y_min as int,
            y_max as int,
            area,
            walkable_climb,
        );
        assert forall|k2: int, j: int|
            0 <= k2 < other.columns@.len() && 0 <= j < other.columns@[k2]@.len() implies (
        #[trigger] other.columns@[k2]@[j]).y_min <= other.columns@[k2]@[j].y_max by {
            if k2 != k {
                assert(self.columns@[k2]@[j].y_min <= self.columns@[k2]@[j].y_max);
            } else {
                assert(column_sorted(other.columns@[k]@));
            }
        }
        assert forall|k2: int, j: int|
            0 <= k2 < other.columns@.len() && 0 <= j < other.columns@[k2]@.len() - 1 implies (
        #[trigger] other.columns@[k2]@[j]).y_max <= other.columns@[k2]@[j + 1].y_min by {
            if k2 != k {
                assert(self.columns@[k2]@[j].y_max <= self.columns@[k2]@[j + 1].y_min);
            } else {
                assert(column_sorted(other.columns@[k]@));
            }
        }
    }
}

} // verus!
