//! What holds of every greedy cover and of every exposure grid.

use vstd::prelude::*;
use crate::exposure::exposed;
use crate::facing::QuadFacing;
use crate::merge::lemma_free_prefix;
use crate::quad::{
    covered, free, greedy_mesh, greedy_quad, in_slice, partitions, row_free, scan_index,
    OutputQuad,
};

verus! {

/// Every cell that a rectangle of a greedy cover takes was free when the
/// rectangle was grown: it lies in the slice, is open, and no earlier
/// rectangle covers it.
pub proof fn lemma_covers_free(open: Seq<bool>, quads: Seq<OutputQuad>, k: int, x: int, y: int)
    requires
        greedy_mesh(open, quads),
        0 <= k < quads.len(),
        quads[k].covers(x, y),
    ensures
        free(open, quads, k, x, y),
{
    let q = quads[k];
    assert(greedy_quad(open, quads, k));
    assert(row_free(open, quads, k, q.x as int, q.w as int, y));
}

/// Partition: the rectangles of a greedy cover lie inside the slice and
/// cover open cells only, every open cell is covered, and no cell is covered
/// by two rectangles.
pub proof fn lemma_partition(open: Seq<bool>, quads: Seq<OutputQuad>)
    requires
        greedy_mesh(open, quads),
    ensures
        partitions(open, quads),
{
    assert forall|k: int, x: int, y: int|
        0 <= k < quads.len() && #[trigger] quads[k].covers(x, y) implies in_slice(x, y)
        && open[scan_index(x, y)] by {
        lemma_covers_free(open, quads, k, x, y);
    }
    assert forall|x: int, y: int| in_slice(x, y) && open[scan_index(x, y)] implies #[trigger] covered(
        quads,
        quads.len() as int,
        x,
        y,
    ) by {
        assert(!free(open, quads, quads.len() as int, x, y));
    }
    assert forall|j: int, k: int, x: int, y: int| 0 <= j < k < quads.len() implies !(
    #[trigger] quads[j].covers(x, y) && #[trigger] quads[k].covers(x, y)) by {
        if quads[j].covers(x, y) && quads[k].covers(x, y) {
            lemma_covers_free(open, quads, k, x, y);
            assert(covered(quads, k, x, y));
        }
    }
}

/// Maximality: when a rectangle of a greedy cover was grown it could not
/// have been one wider, because the cell to the right of its first row was
/// beyond the slice, not open, or taken by an earlier rectangle; and it could
/// not have been one taller, because the row beneath it held such a cell
/// within the rectangle's width.
pub proof fn lemma_maximal(open: Seq<bool>, quads: Seq<OutputQuad>, k: int)
    requires
        greedy_mesh(open, quads),
        0 <= k < quads.len(),
    ensures
        !free(open, quads, k, quads[k].x + quads[k].w, quads[k].y as int),
        exists|x: int|
            quads[k].x <= x < quads[k].x + quads[k].w && !#[trigger] free(
                open,
                quads,
                k,
                x,
                quads[k].y + quads[k].h,
            ),
{
    assert(greedy_quad(open, quads, k));
}

/// The rectangles of a greedy cover come in the scan order of their origins.
pub proof fn lemma_scan_order(open: Seq<bool>, quads: Seq<OutputQuad>, j: int, k: int)
    requires
        greedy_mesh(open, quads),
        0 <= j < k < quads.len(),
    ensures
        scan_index(quads[j].x as int, quads[j].y as int) < scan_index(
            quads[k].x as int,
            quads[k].y as int,
        ),
{
    let a = quads[j];
    let b = quads[k];
    assert(greedy_quad(open, quads, j));
    assert(greedy_quad(open, quads, k));
    assert(b.covers(b.x as int, b.y as int));
    lemma_covers_free(open, quads, k, b.x as int, b.y as int);
    assert(in_slice(b.x as int, b.y as int));
    if !free(open, quads, j, b.x as int, b.y as int) {
        let i = choose|i: int| 0 <= i < j && (#[trigger] quads[i]).covers(b.x as int, b.y as int);
        assert(covered(quads, k, b.x as int, b.y as int));
    }
    if a.x == b.x && a.y == b.y {
        assert(a.covers(b.x as int, b.y as int));
        assert(covered(quads, k, b.x as int, b.y as int));
    }
}

/// Two greedy covers of the same open cells agree on their first `n`
/// rectangles.
pub proof fn lemma_same_prefix(open: Seq<bool>, a: Seq<OutputQuad>, b: Seq<OutputQuad>, n: int)
    requires
        greedy_mesh(open, a),
        greedy_mesh(open, b),
        0 <= n <= a.len(),
        n <= b.len(),
    ensures
        forall|k: int| 0 <= k < n ==> a[k] == b[k],
    decreases n,
{
    if n > 0 {
        let k = n - 1;
        lemma_same_prefix(open, a, b, k);
        lemma_free_prefix(open, a, b, k);
        let p = a[k];
        let q = b[k];
        assert(greedy_quad(open, a, k));
        assert(greedy_quad(open, b, k));
        assert(row_free(open, a, k, p.x as int, p.w as int, p.y as int));
        assert(row_free(open, b, k, q.x as int, q.w as int, q.y as int));
        assert(free(open, a, k, p.x as int, p.y as int));
        assert(free(open, b, k, q.x as int, q.y as int));
        assert(free(open, b, k, p.x as int, p.y as int));
        assert(free(open, a, k, q.x as int, q.y as int));
        assert(p.x == q.x && p.y == q.y);
        if p.w < q.w {
            assert(free(open, b, k, p.x + p.w, p.y as int));
            assert(free(open, a, k, p.x + p.w, p.y as int));
        }
        if q.w < p.w {
            assert(free(open, a, k, q.x + q.w, q.y as int));
            assert(free(open, b, k, q.x + q.w, q.y as int));
        }
        assert(p.w == q.w);
        if p.h < q.h {
            assert(row_free(open, b, k, q.x as int, q.w as int, p.y + p.h));
            assert(row_free(open, a, k, p.x as int, p.w as int, p.y + p.h));
        }
        if q.h < p.h {
            assert(row_free(open, a, k, p.x as int, p.w as int, q.y + q.h));
            assert(row_free(open, b, k, q.x as int, q.w as int, q.y + q.h));
        }
        assert(p.h == q.h);
    }
}

/// Determinism: the open cells of a slice have one greedy cover only, the
/// same rectangles in the same order.
pub proof fn lemma_greedy_mesh_unique(open: Seq<bool>, a: Seq<OutputQuad>, b: Seq<OutputQuad>)
    requires
        greedy_mesh(open, a),
        greedy_mesh(open, b),
    ensures
        a == b,
{
    let n = if a.len() <= b.len() {
        a.len() as int
    } else {
        b.len() as int
    };
    lemma_same_prefix(open, a, b, n);
    lemma_free_prefix(open, a, b, n);
    if a.len() < b.len() {
        let q = b[n];
        assert(greedy_quad(open, b, n));
        assert(row_free(open, b, n, q.x as int, q.w as int, q.y as int));
        assert(free(open, b, n, q.x as int, q.y as int));
        assert(!free(open, a, a.len() as int, q.x as int, q.y as int));
    }
    if b.len() < a.len() {
        let p = a[n];
        assert(greedy_quad(open, a, n));
        assert(row_free(open, a, n, p.x as int, p.w as int, p.y as int));
        assert(free(open, a, n, p.x as int, p.y as int));
        assert(!free(open, b, b.len() as int, p.x as int, p.y as int));
    }
    assert(a =~= b);
}

/// Boundary exposure: in the outermost layer of a facing's direction nothing
/// inside the volume can hide a face, so a cell there shows a face exactly
/// when its voxel is solid.
pub proof fn lemma_boundary_exposed(ids: Seq<u32>, facing: QuadFacing, sx: int, sy: int)
    requires
        ids.len() == 4096,
        in_slice(sx, sy),
    ensures
        exposed(ids, facing, facing.outer_layer(), sx, sy) == (ids[facing.cell_index(
            facing.outer_layer(),
            sx,
            sy,
        )] != 0),
{
}

/// Inside the volume a face is hidden exactly by a solid voxel one step
/// along the facing's axis, which sits one stride away in the linear order.
pub proof fn lemma_interior_exposed(ids: Seq<u32>, facing: QuadFacing, layer: int, sx: int, sy: int)
    requires
        ids.len() == 4096,
        0 <= layer < 16,
        layer != facing.outer_layer(),
        in_slice(sx, sy),
    ensures
        0 <= facing.cell_index(layer, sx, sy) + facing.index_offset() < 4096,
        exposed(ids, facing, layer, sx, sy) == (ids[facing.cell_index(layer, sx, sy)] != 0
            && ids[facing.cell_index(layer, sx, sy) + facing.index_offset()] == 0),
{
}

} // verus!
