use vstd::prelude::*;

use crate::compact::CompactHeightfield;
use crate::connect::{compact_built, con_characterized, conn_ok, conn_pair, lemma_conn_transfer};
use crate::distance::{
    blur_field, blur_tap, blur_value, chamfer_field, dist_boundary_at, dist_seed, pass1_cells,
    pass1_value, pass2_cells_from, pass2_value, pass_cell,
};
use crate::erosion::{erode_boundary_at, erode_field, erode_seed};
use crate::heightfield::{col_spans, Heightfield};
use crate::mark::{marked_span, ConvexVolume};
use crate::tiles::{
    distance_built, eroded, tile_at_post, tile_post, tiles_post, volume_marked, volumes_marked,
    Config, NavmeshTile, TileCoord, TileInput, TiledNavmeshConfig,
};

verus! {

// The distance, erosion and blur fields are functions of the walkable
// surface alone: the grid, the spans' floors, clearances, connections
// and areas. Two heightfield values that agree on those agree on every
// derived field, whatever their other parts hold. This is the backbone
// of the determinism laws: every pipeline stage's contract pins its
// output from its input through these fields.

/// Whether two compact heightfields carry the same walkable surface:
/// equal grids, cells, span floors, clearances and connections, and
/// equal area labels.
pub open spec fn same_surface(a: CompactHeightfield, b: CompactHeightfield) -> bool {
    &&& a.width == b.width
    &&& a.height == b.height
    &&& a.walkable_height == b.walkable_height
    &&& a.walkable_climb == b.walkable_climb
    &&& a.cells@ == b.cells@
    &&& a.spans@.len() == b.spans@.len()
    &&& (forall|i: int|
        0 <= i < a.spans@.len() ==> (#[trigger] a.spans@[i]).y == b.spans@[i].y && a.spans@[i].h
            == b.spans@[i].h)
    &&& (forall|i: int, d: int|
        #![trigger a.spans@[i].con[d]]
        0 <= i < a.spans@.len() && 0 <= d < 4 ==> a.spans@[i].con[d] == b.spans@[i].con[d])
    &&& a.areas@ == b.areas@
}

/// Whether two compact heightfields are equal in every observable part.
pub open spec fn equal_state(a: CompactHeightfield, b: CompactHeightfield) -> bool {
    &&& same_surface(a, b)
    &&& a.dist@ == b.dist@
    &&& a.max_distance == b.max_distance
}

/// Span cell lookup agrees on heightfields with the same surface.
pub proof fn lemma_cell_of_congruent(a: CompactHeightfield, b: CompactHeightfield, i: int)
    requires
        a.wf(),
        b.wf(),
        same_surface(a, b),
        0 <= i < a.spans@.len(),
    ensures
        a.cell_of(i) == b.cell_of(i),
        0 <= a.cell_of(i) < a.grid_len(),
        a.cell_start(a.cell_of(i)) <= i < a.cell_end(a.cell_of(i)),
{
    a.lemma_span_has_cell(i);
    b.lemma_cell_of(a.cell_of(i), i);
}

/// One chamfer pass step computes the same value on heightfields with
/// the same surface.
pub proof fn lemma_pass_value_congruent(
    a: CompactHeightfield,
    b: CompactHeightfield,
    df: Seq<u16>,
    k: int,
    i: int,
)
    requires
        a.wf(),
        b.wf(),
        same_surface(a, b),
        0 <= k < a.grid_len(),
        a.cell_start(k) <= i < a.cell_end(k),
    ensures
        pass1_value(a, df, k, i) == pass1_value(b, df, k, i),
        pass2_value(a, df, k, i) == pass2_value(b, df, k, i),
        blur_value(a, df, k, i, 2) == blur_value(b, df, k, i, 2),
{
    a.lemma_cell_bounds(k);
    assert forall|d: int| 0 <= d < 4 implies #[trigger] a.span_con(i, d) == b.span_con(i, d) by {
        assert(a.spans@[i].con[d] == b.spans@[i].con[d]);
    }
    assert forall|d: int|
        0 <= d < 4 && a.span_con(i, d) is Some implies #[trigger] a.con_target(k, i, d)
        == b.con_target(k, i, d) && (forall|d2: int|
        0 <= d2 < 4 ==> #[trigger] a.span_con(a.con_target(k, i, d), d2) == b.span_con(
            b.con_target(k, i, d),
            d2,
        ) && a.con_target(a.nbr_cell(k, d), a.con_target(k, i, d), d2) == b.con_target(
            b.nbr_cell(k, d),
            b.con_target(k, i, d),
            d2,
        )) by {
        a.lemma_con_target_bounds(k, i, d);
        let t = a.con_target(k, i, d);
        assert forall|d2: int| 0 <= d2 < 4 implies #[trigger] a.span_con(t, d2) == b.span_con(
            t,
            d2,
        ) by {
            assert(a.spans@[t].con[d2] == b.spans@[t].con[d2]);
        }
    }
}

/// The boundary seeds agree on heightfields with the same surface.
pub proof fn lemma_seeds_congruent(a: CompactHeightfield, b: CompactHeightfield)
    requires
        a.wf(),
        b.wf(),
        same_surface(a, b),
    ensures
        dist_seed(a) == dist_seed(b),
        erode_seed(a) == erode_seed(b),
{
    assert forall|i: int| 0 <= i < a.spans@.len() implies dist_seed(a)[i] == dist_seed(b)[i]
        && erode_seed(a)[i] == erode_seed(b)[i] by {
        lemma_cell_of_congruent(a, b, i);
        let k = a.cell_of(i);
        a.lemma_cell_bounds(k);
        assert forall|d: int| 0 <= d < 4 implies #[trigger] a.span_con(i, d) == b.span_con(
            i,
            d,
        ) by {
            assert(a.spans@[i].con[d] == b.spans@[i].con[d]);
        }
        assert forall|d: int|
            0 <= d < 4 && a.span_con(i, d) is Some implies #[trigger] a.con_target(k, i, d)
            == b.con_target(k, i, d) by {
            a.lemma_con_target_bounds(k, i, d);
        }
        if dist_boundary_at(a, k, i) {
            let d = choose|d: int|
                0 <= d < 4 && !(#[trigger] a.span_con(i, d) is Some && a.areas@[a.con_target(
                    k,
                    i,
                    d,
                )] == a.areas@[i]);
            assert(!(b.span_con(i, d) is Some && b.areas@[b.con_target(k, i, d)] == b.areas@[i]));
        }
        if dist_boundary_at(b, k, i) {
            let d = choose|d: int|
                0 <= d < 4 && !(#[trigger] b.span_con(i, d) is Some && b.areas@[b.con_target(
                    k,
                    i,
                    d,
                )] == b.areas@[i]);
            assert(!(a.span_con(i, d) is Some && a.areas@[a.con_target(k, i, d)] == a.areas@[i]));
        }
        if erode_boundary_at(a, k, i) && !(!a.areas@[i].is_walkable_spec()) {
            let d = choose|d: int|
                0 <= d < 4 && !(#[trigger] a.span_con(i, d) is Some && a.areas@[a.con_target(
                    k,
                    i,
                    d,
                )].is_walkable_spec());
            assert(!(b.span_con(i, d) is Some && b.areas@[b.con_target(
                k,
                i,
                d,
            )].is_walkable_spec()));
        }
        if erode_boundary_at(b, k, i) && !(!b.areas@[i].is_walkable_spec()) {
            let d = choose|d: int|
                0 <= d < 4 && !(#[trigger] b.span_con(i, d) is Some && b.areas@[b.con_target(
                    k,
                    i,
                    d,
                )].is_walkable_spec());
            assert(!(a.span_con(i, d) is Some && a.areas@[a.con_target(
                k,
                i,
                d,
            )].is_walkable_spec()));
        }
        assert(dist_boundary_at(a, k, i) == dist_boundary_at(b, k, i));
        assert(erode_boundary_at(a, k, i) == erode_boundary_at(b, k, i));
    }
    assert(dist_seed(a) =~= dist_seed(b));
    assert(erode_seed(a) =~= erode_seed(b));
}

/// A pass over one cell computes the same field on heightfields with the
/// same surface.
pub proof fn lemma_pass_cell_congruent(
    a: CompactHeightfield,
    b: CompactHeightfield,
    df: Seq<u16>,
    k: int,
    j: nat,
    fwd: bool,
)
    requires
        a.wf(),
        b.wf(),
        same_surface(a, b),
        0 <= k < a.grid_len(),
        j <= a.cell_count(k),
    ensures
        pass_cell(a, df, k, j, fwd) == pass_cell(b, df, k, j, fwd),
    decreases j,
{
    if j > 0 {
        lemma_pass_cell_congruent(a, b, df, k, (j - 1) as nat, fwd);
        let prev = pass_cell(a, df, k, (j - 1) as nat, fwd);
        let i = a.cell_start(k) + j - 1;
        lemma_pass_value_congruent(a, b, prev, k, i);
    }
}

/// The forward pass computes the same field on heightfields with the
/// same surface.
pub proof fn lemma_pass1_congruent(
    a: CompactHeightfield,
    b: CompactHeightfield,
    df: Seq<u16>,
    k: nat,
)
    requires
        a.wf(),
        b.wf(),
        same_surface(a, b),
        k <= a.grid_len(),
    ensures
        pass1_cells(a, df, k) == pass1_cells(b, df, k),
    decreases k,
{
    if k > 0 {
        lemma_pass1_congruent(a, b, df, (k - 1) as nat);
        lemma_pass_cell_congruent(
            a,
            b,
            pass1_cells(a, df, (k - 1) as nat),
            k - 1,
            a.cell_count(k - 1) as nat,
            true,
        );
    }
}

/// The backward pass computes the same field on heightfields with the
/// same surface.
pub proof fn lemma_pass2_congruent(
    a: CompactHeightfield,
    b: CompactHeightfield,
    df: Seq<u16>,
    k: int,
)
    requires
        a.wf(),
        b.wf(),
        same_surface(a, b),
    ensures
        pass2_cells_from(a, df, k) == pass2_cells_from(b, df, k),
    decreases a.grid_len() - k,
{
    if 0 <= k < a.grid_len() {
        lemma_pass2_congruent(a, b, df, k + 1);
        lemma_pass_cell_congruent(
            a,
            b,
            pass2_cells_from(a, df, k + 1),
            k,
            a.cell_count(k) as nat,
            false,
        );
    }
}

/// Every derived field agrees on heightfields with the same surface.
pub proof fn lemma_fields_congruent(a: CompactHeightfield, b: CompactHeightfield)
    requires
        a.wf(),
        b.wf(),
        same_surface(a, b),
    ensures
        chamfer_field(a) == chamfer_field(b),
        erode_field(a) == erode_field(b),
        forall|df: Seq<u16>, thr: u16|
            df.len() == a.spans@.len() ==> #[trigger] blur_field(a, df, thr) == blur_field(
                b,
                df,
                thr,
            ),
{
    lemma_seeds_congruent(a, b);
    lemma_pass1_congruent(a, b, dist_seed(a), a.grid_len() as nat);
    lemma_pass2_congruent(a, b, pass1_cells(a, dist_seed(a), a.grid_len() as nat), 0);
    lemma_pass1_congruent(a, b, erode_seed(a), a.grid_len() as nat);
    lemma_pass2_congruent(a, b, pass1_cells(a, erode_seed(a), a.grid_len() as nat), 0);
    assert forall|df: Seq<u16>, thr: u16|
        df.len() == a.spans@.len() implies #[trigger] blur_field(a, df, thr) == blur_field(
        b,
        df,
        thr,
    ) by {
        assert forall|i: int| 0 <= i < df.len() implies blur_field(a, df, thr)[i] == blur_field(
            b,
            df,
            thr,
        )[i] by {
            lemma_cell_of_congruent(a, b, i);
            let k = a.cell_of(i);
            a.lemma_cell_bounds(k);
            assert forall|d: int| 0 <= d < 4 implies #[trigger] a.span_con(i, d) == b.span_con(
                i,
                d,
            ) by {
                assert(a.spans@[i].con[d] == b.spans@[i].con[d]);
            }
            assert forall|d: int|
                0 <= d < 4 && a.span_con(i, d) is Some implies #[trigger] blur_tap(a, df, k, i, d)
                == blur_tap(b, df, k, i, d) by {
                a.lemma_con_target_bounds(k, i, d);
                let t = a.con_target(k, i, d);
                assert forall|d2: int| 0 <= d2 < 4 implies #[trigger] a.span_con(t, d2)
                    == b.span_con(t, d2) by {
                    assert(a.spans@[t].con[d2] == b.spans@[t].con[d2]);
                }
            }
            assert(blur_value(a, df, k, i, thr) == blur_value(b, df, k, i, thr));
        }
        assert(blur_field(a, df, thr) =~= blur_field(b, df, thr));
    }
}

/// A pass step keeps the field's length.
pub proof fn lemma_pass_cell_len(
    chf: CompactHeightfield,
    df: Seq<u16>,
    k: int,
    j: nat,
    fwd: bool,
)
    requires
        chf.cells_contiguous(),
        0 <= k < chf.cells@.len(),
        j <= chf.cell_count(k),
        df.len() == chf.spans@.len(),
    ensures
        pass_cell(chf, df, k, j, fwd).len() == df.len(),
    decreases j,
{
    if j > 0 {
        lemma_pass_cell_len(chf, df, k, (j - 1) as nat, fwd);
        chf.lemma_cell_bounds(k);
    }
}

/// The passes keep the field's length.
pub proof fn lemma_pass1_len(chf: CompactHeightfield, df: Seq<u16>, k: nat)
    requires
        chf.cells_contiguous(),
        k <= chf.cells@.len(),
        df.len() == chf.spans@.len(),
    ensures
        pass1_cells(chf, df, k).len() == df.len(),
    decreases k,
{
    if k > 0 {
        lemma_pass1_len(chf, df, (k - 1) as nat);
        lemma_pass_cell_len(
            chf,
            pass1_cells(chf, df, (k - 1) as nat),
            k - 1,
            chf.cell_count(k - 1) as nat,
            true,
        );
    }
}

/// The passes keep the field's length.
pub proof fn lemma_pass2_len(chf: CompactHeightfield, df: Seq<u16>, k: int)
    requires
        chf.cells_contiguous(),
        df.len() == chf.spans@.len(),
    ensures
        pass2_cells_from(chf, df, k).len() == df.len(),
    decreases chf.grid_len() - k,
{
    if 0 <= k < chf.grid_len() {
        lemma_pass2_len(chf, df, k + 1);
        lemma_pass_cell_len(
            chf,
            pass2_cells_from(chf, df, k + 1),
            k,
            chf.cell_count(k) as nat,
            false,
        );
    }
}

/// The chamfer field covers every span.
pub proof fn lemma_chamfer_len(chf: CompactHeightfield)
    requires
        chf.cells_contiguous(),
    ensures
        chamfer_field(chf).len() == chf.spans@.len(),
        erode_field(chf).len() == chf.spans@.len(),
{
    lemma_pass1_len(chf, dist_seed(chf), chf.grid_len() as nat);
    lemma_pass2_len(chf, pass1_cells(chf, dist_seed(chf), chf.grid_len() as nat), 0);
    lemma_pass1_len(chf, erode_seed(chf), chf.grid_len() as nat);
    lemma_pass2_len(chf, pass1_cells(chf, erode_seed(chf), chf.grid_len() as nat), 0);
}

/// With equal per-cell span counts, contiguity pins every cell start.
proof fn lemma_cell_start_eq(c1: CompactHeightfield, c2: CompactHeightfield, k: int)
    requires
        c1.cells_contiguous(),
        c2.cells_contiguous(),
        c1.cells@.len() == c2.cells@.len(),
        forall|k2: int|
            0 <= k2 < c1.cells@.len() ==> #[trigger] c1.cell_count(k2) == c2.cell_count(k2),
        0 <= k < c1.cells@.len(),
    ensures
        c1.cell_start(k) == c2.cell_start(k),
    decreases k,
{
    if k > 0 {
        lemma_cell_start_eq(c1, c2, k - 1);
        assert(c1.cell_start(k) == c1.cell_end(k - 1));
        assert(c2.cell_start(k) == c2.cell_end(k - 1));
    }
}

/// Building the compact heightfield is deterministic: two values built
/// from the same heightfield and parameters are equal in every
/// observable part.
pub proof fn lemma_compact_build_deterministic(
    hf: Heightfield,
    walkable_height: u16,
    walkable_climb: u16,
    c1: CompactHeightfield,
    c2: CompactHeightfield,
)
    requires
        compact_built(hf, walkable_height, walkable_climb, c1),
        compact_built(hf, walkable_height, walkable_climb, c2),
    ensures
        equal_state(c1, c2),
{
    assert forall|k: int| 0 <= k < c1.cells@.len() implies #[trigger] c1.cells@[k]
        == c2.cells@[k] by {
        lemma_cell_start_eq(c1, c2, k);
        assert(c1.cells@[k].index as int == c2.cells@[k].index as int);
        assert(c1.cells@[k].count as int == c2.cells@[k].count as int);
    }
    assert(c1.cells@ =~= c2.cells@);
    assert forall|i: int|
        0 <= i < c1.spans@.len() implies (#[trigger] c1.spans@[i]).y == c2.spans@[i].y
        && c1.spans@[i].h == c2.spans@[i].h && c1.areas@[i] == c2.areas@[i] by {
        c1.lemma_span_has_cell(i);
        let k = c1.cell_of(i);
        let j = i - c1.cell_start(k);
        assert(c1.spans@[c1.cell_start(k) + j].y == col_spans(
            hf.columns@[k]@,
            walkable_height,
        )[j].y);
        assert(c2.spans@[c2.cell_start(k) + j].y == col_spans(
            hf.columns@[k]@,
            walkable_height,
        )[j].y);
        c1.lemma_cell_bounds(k);
        assert(c1.areas@.subrange(c1.cell_start(k), c1.cell_end(k))[j] == c1.areas@[i]);
        assert(c2.areas@.subrange(c2.cell_start(k), c2.cell_end(k))[j] == c2.areas@[i]);
    }
    assert forall|i: int| 0 <= i < c1.areas@.len() implies c1.areas@[i] == c2.areas@[i] by {
        assert(c1.spans@[i].y == c2.spans@[i].y);
    }
    assert(c1.areas@ =~= c2.areas@);
    assert forall|i: int, d: int|
        #![trigger c1.spans@[i].con[d]]
        0 <= i < c1.spans@.len() && 0 <= d < 4 implies c1.spans@[i].con[d]
        == c2.spans@[i].con[d] by {
        c1.lemma_span_has_cell(i);
        let k = c1.cell_of(i);
        lemma_conn_transfer(c1, c2);
        assert(con_characterized(c1, k, i, d));
        assert(con_characterized(c2, k, i, d));
        assert(conn_ok(c1, k, i, d) <==> conn_ok(c2, k, i, d));
        if conn_ok(c1, k, i, d) {
            let t1 = c1.con_target(k, i, d);
            let t2 = c2.con_target(k, i, d);
            assert(conn_pair(c1, k, i, d, t1));
            assert(conn_pair(c2, k, i, d, t2));
            assert(conn_pair(c1, k, i, d, t2));
            assert(crate::connect::spans_connectable(c1, i, t2));
            assert(t1 == t2);
        } else {
            assert(c1.span_con(i, d) is None && c2.span_con(i, d) is None);
        }
    }
    assert forall|i: int| 0 <= i < c1.dist@.len() implies #[trigger] c1.dist@[i]
        == c2.dist@[i] by {
        assert(c1.dist@[i] == 0 && c2.dist@[i] == 0);
    }
    assert(c1.dist@ =~= c2.dist@);
}

/// Erosion is deterministic: equal inputs give equal outputs.
pub proof fn lemma_eroded_deterministic(
    a1: CompactHeightfield,
    a2: CompactHeightfield,
    radius: u16,
    b1: CompactHeightfield,
    b2: CompactHeightfield,
)
    requires
        a1.wf(),
        a2.wf(),
        equal_state(a1, a2),
        eroded(a1, radius, b1),
        eroded(a2, radius, b2),
    ensures
        equal_state(b1, b2),
        b1.wf(),
        b2.wf(),
{
    lemma_fields_congruent(a1, a2);
    assert forall|i: int| 0 <= i < b1.areas@.len() implies b1.areas@[i] == b2.areas@[i] by {
        assert(b1.areas@[i] == (if (erode_field(a1)[i] as int) < 2 * radius as int {
            crate::area::AreaType::null_area()
        } else {
            a1.areas@[i]
        }));
        assert(b2.areas@[i] == (if (erode_field(a2)[i] as int) < 2 * radius as int {
            crate::area::AreaType::null_area()
        } else {
            a2.areas@[i]
        }));
    }
    assert(b1.areas@ =~= b2.areas@);
}

/// Marking one volume is deterministic: equal inputs give equal outputs.
pub proof fn lemma_volume_marked_deterministic(
    a1: CompactHeightfield,
    a2: CompactHeightfield,
    vol: ConvexVolume,
    b1: CompactHeightfield,
    b2: CompactHeightfield,
)
    requires
        a1.wf(),
        a2.wf(),
        equal_state(a1, a2),
        volume_marked(a1, vol, b1),
        volume_marked(a2, vol, b2),
    ensures
        equal_state(b1, b2),
        b1.wf(),
        b2.wf(),
{
    if vol.wf() {
        assert forall|i: int| 0 <= i < b1.areas@.len() implies b1.areas@[i] == b2.areas@[i] by {
            lemma_cell_of_congruent(a1, a2, i);
            let k = a1.cell_of(i);
            assert(marked_span(a1, vol, k, i) == marked_span(a2, vol, k, i));
        }
        assert(b1.areas@ =~= b2.areas@);
    }
}

/// Marking a list of volumes is deterministic.
pub proof fn lemma_volumes_marked_deterministic(
    a1: CompactHeightfield,
    a2: CompactHeightfield,
    vols: Seq<ConvexVolume>,
    b1: CompactHeightfield,
    b2: CompactHeightfield,
)
    requires
        a1.wf(),
        a2.wf(),
        equal_state(a1, a2),
        volumes_marked(a1, vols, b1),
        volumes_marked(a2, vols, b2),
    ensures
        equal_state(b1, b2),
        b1.wf(),
        b2.wf(),
    decreases vols.len(),
{
    if vols.len() == 0 {
        assert(b1 == a1 && b2 == a2);
    } else {
        let m1 = choose|m: CompactHeightfield|
            #[trigger] volume_marked(a1, vols[0], m) && volumes_marked(m, vols.skip(1), b1);
        let m2 = choose|m: CompactHeightfield|
            #[trigger] volume_marked(a2, vols[0], m) && volumes_marked(m, vols.skip(1), b2);
        lemma_volume_marked_deterministic(a1, a2, vols[0], m1, m2);
        lemma_volumes_marked_deterministic(m1, m2, vols.skip(1), b1, b2);
    }
}

/// The distance-field pass is deterministic: equal inputs give equal
/// outputs.
pub proof fn lemma_distance_built_deterministic(
    a1: CompactHeightfield,
    a2: CompactHeightfield,
    b1: CompactHeightfield,
    b2: CompactHeightfield,
)
    requires
        a1.wf(),
        a2.wf(),
        equal_state(a1, a2),
        distance_built(a1, b1),
        distance_built(a2, b2),
    ensures
        equal_state(b1, b2),
{
    lemma_fields_congruent(a1, a2);
    lemma_chamfer_len(a1);
    assert(b1.dist@ == blur_field(a1, chamfer_field(a1), 2));
    assert(b2.dist@ == blur_field(a2, chamfer_field(a2), 2));
    assert(blur_field(a1, chamfer_field(a1), 2) == blur_field(a2, chamfer_field(a2), 2));
}

/// One tile's pipeline is deterministic: two successful runs on the same
/// configuration and input agree on the coordinate and on every part of
/// the processed surface.
pub proof fn lemma_tile_deterministic(
    cfg: Config,
    coord: TileCoord,
    input: TileInput,
    t1: NavmeshTile,
    t2: NavmeshTile,
)
    requires
        tile_post(cfg, coord, input, Result::<NavmeshTile, crate::tiles::TiledNavmeshError>::Ok(t1)),
        tile_post(cfg, coord, input, Result::<NavmeshTile, crate::tiles::TiledNavmeshError>::Ok(t2)),
    ensures
        t1.coord == t2.coord,
        equal_state(t1.compact, t2.compact),
{
    let (c11, c21, c31) = choose|c1: CompactHeightfield, c2: CompactHeightfield, c3: CompactHeightfield|
        {
            &&& #[trigger] compact_built(input.heightfield, cfg.walkable_height, cfg.walkable_climb, c1)
            &&& #[trigger] eroded(c1, cfg.walkable_radius, c2)
            &&& #[trigger] volumes_marked(c2, input.volumes@, c3)
            &&& distance_built(c3, t1.compact)
        };
    let (c12, c22, c32) = choose|c1: CompactHeightfield, c2: CompactHeightfield, c3: CompactHeightfield|
        {
            &&& #[trigger] compact_built(input.heightfield, cfg.walkable_height, cfg.walkable_climb, c1)
            &&& #[trigger] eroded(c1, cfg.walkable_radius, c2)
            &&& #[trigger] volumes_marked(c2, input.volumes@, c3)
            &&& distance_built(c3, t2.compact)
        };
    lemma_compact_build_deterministic(
        input.heightfield,
        cfg.walkable_height,
        cfg.walkable_climb,
        c11,
        c12,
    );
    lemma_eroded_deterministic(c11, c12, cfg.walkable_radius, c21, c22);
    lemma_volumes_marked_deterministic(c21, c22, input.volumes@, c31, c32);
    lemma_distance_built_deterministic(c31, c32, t1.compact, t2.compact);
}

/// Generation is deterministic: two successful runs on the same
/// configuration and inputs return the same tiles, part for part. Both
/// the sequential and the parallel runner promise `tiles_post`, so this
/// covers repeated sequential runs as well as a parallel run against a
/// sequential one.
pub proof fn lemma_generation_deterministic(
    cfg: TiledNavmeshConfig,
    inputs: Vec<TileInput>,
    out1: Vec<NavmeshTile>,
    out2: Vec<NavmeshTile>,
)
    requires
        tiles_post(
            cfg,
            inputs,
            Result::<Vec<NavmeshTile>, crate::tiles::TiledNavmeshError>::Ok(out1),
        ),
        tiles_post(
            cfg,
            inputs,
            Result::<Vec<NavmeshTile>, crate::tiles::TiledNavmeshError>::Ok(out2),
        ),
    ensures
        out1@.len() == out2@.len(),
        forall|i: int|
            0 <= i < out1@.len() ==> (#[trigger] out1@[i]).coord == out2@[i].coord && equal_state(
                out1@[i].compact,
                out2@[i].compact,
            ),
{
    assert forall|i: int|
        0 <= i < out1@.len() implies (#[trigger] out1@[i]).coord == out2@[i].coord && equal_state(
        out1@[i].compact,
        out2@[i].compact,
    ) by {
        assert(tile_at_post(
            cfg,
            i,
            inputs@[i],
            Result::<NavmeshTile, crate::tiles::TiledNavmeshError>::Ok(out1@[i]),
        ));
        assert(tile_at_post(
            cfg,
            i,
            inputs@[i],
            Result::<NavmeshTile, crate::tiles::TiledNavmeshError>::Ok(out2@[i]),
        ));
        lemma_tile_deterministic(cfg.config, cfg.coord_at(i), inputs@[i], out1@[i], out2@[i]);
    }
}

} // verus!
