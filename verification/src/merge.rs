//! The greedy merger: one row-major pass over a slice's exposure grid that
//! grows each rectangle first to the right, then downwards.

use vstd::prelude::*;
use crate::laws::lemma_partition;
use crate::quad::{
    covered, free, greedy_mesh, greedy_quad, grid_wf, in_slice, open_cells, partitions, row_free,
    scan_index, InputQuad, OutputQuad,
};

verus! {

/// Whether the grid's cell at `(x, y)` exists and is not yet covered.
pub open spec fn takeable(grid: Seq<InputQuad>, x: int, y: int) -> bool {
    grid[scan_index(x, y)].exists && !grid[scan_index(x, y)].done
}

/// `grid` is `start` after the rectangles `quads` and the region `current`
/// were marked as covered: nothing else differs.
pub open spec fn marks(
    start: Seq<InputQuad>,
    grid: Seq<InputQuad>,
    quads: Seq<OutputQuad>,
    current: OutputQuad,
) -> bool {
    &&& grid_wf(grid)
    &&& forall|x: int, y: int|
        in_slice(x, y) ==> (#[trigger] grid[scan_index(x, y)]).exists == start[scan_index(
            x,
            y,
        )].exists && grid[scan_index(x, y)].done == (start[scan_index(x, y)].done || covered(
            quads,
            quads.len() as int,
            x,
            y,
        ) || current.covers(x, y))
}

/// Rectangles before position `n` decide what is covered for the `n`-th:
/// appending one changes nothing for those already there, and adds its own
/// cells for what comes after.
pub proof fn lemma_covered_push(quads: Seq<OutputQuad>, q: OutputQuad, n: int, x: int, y: int)
    requires
        0 <= n <= quads.len(),
    ensures
        covered(quads.push(q), n, x, y) == covered(quads, n, x, y),
        covered(quads.push(q), quads.len() as int + 1, x, y) == (covered(quads, quads.len() as int, x, y)
            || q.covers(x, y)),
{
    let more = quads.push(q);
    if covered(quads, n, x, y) {
        let k = choose|k: int| 0 <= k < n && (#[trigger] quads[k]).covers(x, y);
        assert(more[k].covers(x, y));
    }
    if covered(more, n, x, y) {
        let k = choose|k: int| 0 <= k < n && (#[trigger] more[k]).covers(x, y);
        assert(quads[k].covers(x, y));
    }
    if covered(quads, quads.len() as int, x, y) {
        let k = choose|k: int| 0 <= k < quads.len() && (#[trigger] quads[k]).covers(x, y);
        assert(more[k].covers(x, y));
    }
    if q.covers(x, y) {
        assert(more[quads.len() as int].covers(x, y));
    }
    if covered(more, quads.len() as int + 1, x, y) {
        let k = choose|k: int| 0 <= k < quads.len() + 1 && (#[trigger] more[k]).covers(x, y);
        if k < quads.len() {
            assert(quads[k].covers(x, y));
        }
    }
}

/// Whether a rectangle is the greedy one at position `k` depends only on the
/// rectangles up to and including it.
pub proof fn lemma_greedy_quad_prefix(
    open: Seq<bool>,
    a: Seq<OutputQuad>,
    b: Seq<OutputQuad>,
    k: int,
)
    requires
        0 <= k < a.len(),
        k < b.len(),
        forall|j: int| 0 <= j <= k ==> a[j] == b[j],
    ensures
        greedy_quad(open, a, k) == greedy_quad(open, b, k),
{
    lemma_free_prefix(open, a, b, k);
    assert(a[k] == b[k]);
}

/// What is free for the `n`-th rectangle depends only on the `n` rectangles
/// before it.
pub proof fn lemma_free_prefix(open: Seq<bool>, a: Seq<OutputQuad>, b: Seq<OutputQuad>, n: int)
    requires
        0 <= n <= a.len(),
        n <= b.len(),
        forall|j: int| 0 <= j < n ==> a[j] == b[j],
    ensures
        forall|x: int, y: int|
            #![trigger free(open, a, n, x, y)]
            #![trigger free(open, b, n, x, y)]
            free(open, a, n, x, y) == free(open, b, n, x, y),
        forall|x0: int, w: int, y: int|
            #![trigger row_free(open, a, n, x0, w, y)]
            #![trigger row_free(open, b, n, x0, w, y)]
            row_free(open, a, n, x0, w, y) == row_free(open, b, n, x0, w, y),
{
    assert forall|x: int, y: int|
        #![trigger free(open, a, n, x, y)]
        #![trigger free(open, b, n, x, y)]
        free(open, a, n, x, y) == free(open, b, n, x, y) by {
        if covered(a, n, x, y) {
            let k = choose|k: int| 0 <= k < n && (#[trigger] a[k]).covers(x, y);
            assert(b[k].covers(x, y));
        }
        if covered(b, n, x, y) {
            let k = choose|k: int| 0 <= k < n && (#[trigger] b[k]).covers(x, y);
            assert(a[k].covers(x, y));
        }
    }
}

/// Whether every cell of row `y` in columns `x_min..x_max` exists and is not
/// yet covered.
pub fn row_is_free(grid: &Vec<InputQuad>, x_min: usize, x_max: usize, y: usize) -> (ok: bool)
    requires
        grid_wf(grid@),
        x_min <= x_max <= 16,
        y < 16,
    ensures
        ok == (forall|x: int| x_min <= x < x_max ==> #[trigger] takeable(grid@, x, y as int)),
{
    let mut x: usize = x_min;
    while x < x_max
        invariant
            grid_wf(grid@),
            x_min <= x <= x_max <= 16,
            y < 16,
            forall|v: int| x_min <= v < x ==> #[trigger] takeable(grid@, v, y as int),
        decreases x_max - x,
    {
        let cell = grid[y * 16 + x];
        if !cell.exists || cell.done {
            assert(!takeable(grid@, x as int, y as int));
            return false;
        }
        x += 1;
    }
    true
}

/// Marks every cell of row `y` in columns `x_min..x_max` as covered.
pub fn mark_row(grid: &mut Vec<InputQuad>, x_min: usize, x_max: usize, y: usize)
    requires
        grid_wf(old(grid)@),
        x_min <= x_max <= 16,
        y < 16,
    ensures
        grid_wf(final(grid)@),
        forall|c: int|
            0 <= c < 256 ==> #[trigger] final(grid)@[c] == (if scan_index(x_min as int, y as int)
                <= c < scan_index(x_max as int, y as int) {
                InputQuad { done: true, ..old(grid)@[c] }
            } else {
                old(grid)@[c]
            }),
{
    let mut x: usize = x_min;
    while x < x_max
        invariant
            grid@.len() == 256,
            x_min <= x <= x_max <= 16,
            y < 16,
            forall|c: int|
                0 <= c < 256 ==> #[trigger] grid@[c] == (if scan_index(x_min as int, y as int) <= c
                    < scan_index(x as int, y as int) {
                    InputQuad { done: true, ..old(grid)@[c] }
                } else {
                    old(grid)@[c]
                }),
        decreases x_max - x,
    {
        let cell = grid[y * 16 + x];
        grid.set(y * 16 + x, InputQuad { x: cell.x, y: cell.y, exists: cell.exists, done: true });
        x += 1;
    }
    assert(grid_wf(grid@)) by {
        assert forall|vx: int, vy: int| in_slice(vx, vy) implies (#[trigger] grid@[scan_index(
            vx,
            vy,
        )]).x == vx && grid@[scan_index(vx, vy)].y == vy by {
            assert(old(grid)@[scan_index(vx, vy)].x == vx);
        }
    }
}

/// A rectangle that covers no cell.
pub open spec fn no_quad() -> OutputQuad {
    OutputQuad { x: 0, y: 0, w: 0, h: 0 }
}

/// Covers the grid's open cells with rectangles in one row-major pass. The
/// cursor walks the cells in scan order; at each cell that exists and is not
/// yet covered a rectangle starts, takes cells to its right until the row
/// ends or a cell cannot be taken, then takes whole rows below it until one
/// of them cannot be taken across the full width. The cell that stopped the
/// growth to the right is looked at again as a possible start. On return
/// every cell that exists is marked as covered.
pub fn merge_quads(input_quads: &mut Vec<InputQuad>) -> (output_quads: Vec<OutputQuad>)
    requires
        grid_wf(old(input_quads)@),
    ensures
        greedy_mesh(open_cells(old(input_quads)@), output_quads@),
        partitions(open_cells(old(input_quads)@), output_quads@),
        grid_wf(final(input_quads)@),
        forall|c: int|
            0 <= c < 256 ==> #[trigger] final(input_quads)@[c] == (InputQuad {
                done: old(input_quads)@[c].done || old(input_quads)@[c].exists,
                ..old(input_quads)@[c]
            }),
{
    let ghost start = input_quads@;
    let ghost open = open_cells(start);
    let mut output_quads: Vec<OutputQuad> = Vec::new();
    let mut i: usize = 0;
    while i < 256
        invariant
            i <= 256,
            start == old(input_quads)@,
            grid_wf(start),
            open == open_cells(start),
            marks(start, input_quads@, output_quads@, no_quad()),
            forall|k: int| 0 <= k < output_quads.len() ==> #[trigger] greedy_quad(open, output_quads@, k),
            forall|x: int, y: int|
                in_slice(x, y) && scan_index(x, y) < i ==> !#[trigger] free(
                    open,
                    output_quads@,
                    output_quads.len() as int,
                    x,
                    y,
                ),
        decreases 256 - i,
    {
        let q = input_quads[i];
        let ghost n = output_quads.len() as int;
        let ghost origin = i as int;
        proof {
            assert(in_slice(i as int % 16, i as int / 16));
            assert(scan_index(i as int % 16, i as int / 16) == i);
            assert(input_quads@[scan_index(i as int % 16, i as int / 16)].x == i as int % 16);
        }
        if q.exists && !q.done {
            let mut current = OutputQuad { x: q.x, y: q.y, w: 1, h: 1 };
            input_quads.set(i, InputQuad { x: q.x, y: q.y, exists: q.exists, done: true });
            i += 1;
            proof {
                assert(free(open, output_quads@, n, q.x as int, q.y as int));
            }
            while i < 256 && input_quads[i].x > current.x && input_quads[i].exists
                && !input_quads[i].done
                invariant
                    i <= 256,
                    grid_wf(start),
                    open == open_cells(start),
                    n == output_quads.len(),
                    current.x == q.x,
                    current.y == q.y,
                    current.h == 1,
                    1 <= current.w,
                    current.x + current.w <= 16,
                    current.y < 16,
                    i == scan_index(current.x + current.w, current.y as int),
                    marks(start, input_quads@, output_quads@, current),
                    row_free(open, output_quads@, n, current.x as int, current.w as int, current.y as int),
                decreases 256 - i,
            {
                let cell = input_quads[i];
                proof {
                    assert(in_slice(i as int % 16, i as int / 16));
                    assert(scan_index(i as int % 16, i as int / 16) == i);
                    assert(input_quads@[scan_index(i as int % 16, i as int / 16)].x == i as int
                        % 16);
                    assert(cell.x == current.x + current.w);
                    assert(free(open, output_quads@, n, cell.x as int, current.y as int));
                }
                input_quads.set(
                    i,
                    InputQuad { x: cell.x, y: cell.y, exists: cell.exists, done: true },
                );
                current.w += 1;
                i += 1;
            }
            proof {
                let ex = current.x + current.w;
                if ex < 16 {
                    assert(in_slice(ex, current.y as int));
                    assert(input_quads@[scan_index(ex, current.y as int)].x == ex);
                }
                assert(!free(open, output_quads@, n, ex, current.y as int));
            }
            let mut y: usize = current.y + 1;
            while y < 16 && row_is_free(input_quads, current.x, current.x + current.w, y)
                invariant
                    grid_wf(start),
                    open == open_cells(start),
                    n == output_quads.len(),
                    current.x == q.x,
                    current.y == q.y,
                    1 <= current.h,
                    1 <= current.w,
                    current.x + current.w <= 16,
                    current.y + current.h <= 16,
                    y == current.y + current.h,
                    i == scan_index(current.x + current.w, current.y as int),
                    !free(open, output_quads@, n, current.x + current.w, current.y as int),
                    marks(start, input_quads@, output_quads@, current),
                    forall|v: int|
                        current.y <= v < current.y + current.h ==> #[trigger] row_free(
                            open,
                            output_quads@,
                            n,
                            current.x as int,
                            current.w as int,
                            v,
                        ),
                decreases 16 - y,
            {
                proof {
                    assert forall|x: int| current.x <= x < current.x + current.w implies #[trigger] free(
                        open,
                        output_quads@,
                        n,
                        x,
                        y as int,
                    ) by {
                        assert(takeable(input_quads@, x, y as int));
                        assert(in_slice(x, y as int));
                    }
                }
                mark_row(input_quads, current.x, current.x + current.w, y);
                current.h += 1;
                y += 1;
            }
            proof {
                if y < 16 {
                    if row_free(open, output_quads@, n, current.x as int, current.w as int, y as int) {
                        assert forall|x: int| current.x <= x < current.x + current.w implies #[trigger] takeable(
                            input_quads@,
                            x,
                            y as int,
                        ) by {
                            assert(free(open, output_quads@, n, x, y as int));
                            assert(in_slice(x, y as int));
                        }
                    }
                } else {
                    assert(!free(open, output_quads@, n, current.x as int, y as int));
                }
                assert(!row_free(open, output_quads@, n, current.x as int, current.w as int, y as int));
            }
            let ghost before = output_quads@;
            output_quads.push(current);
            proof {
                let after = output_quads@;
                assert(after == before.push(current));
                lemma_free_prefix(open, before, after, n);
                assert forall|k: int| 0 <= k < after.len() implies #[trigger] greedy_quad(
                    open,
                    after,
                    k,
                ) by {
                    if k < n {
                        lemma_greedy_quad_prefix(open, before, after, k);
                        assert(greedy_quad(open, before, k));
                    } else {
                        assert(after[k] == current);
                        assert forall|x: int, y: int|
                            in_slice(x, y) && scan_index(x, y) < scan_index(
                                current.x as int,
                                current.y as int,
                            ) implies !#[trigger] free(open, after, k, x, y) by {
                            assert(!free(open, before, n, x, y));
                        }
                        assert forall|v: int|
                            current.y <= v < current.y + current.h implies #[trigger] row_free(
                            open,
                            after,
                            k,
                            current.x as int,
                            current.w as int,
                            v,
                        ) by {
                            assert(row_free(open, before, n, current.x as int, current.w as int, v));
                        }
                    }
                }
                assert forall|x: int, y: int| in_slice(x, y) implies (#[trigger] input_quads@[scan_index(
                    x,
                    y,
                )]).done == (start[scan_index(x, y)].done || covered(
                    after,
                    after.len() as int,
                    x,
                    y,
                ) || no_quad().covers(x, y)) by {
                    lemma_covered_push(before, current, n, x, y);
                }
                assert forall|x: int, y: int|
                    in_slice(x, y) && scan_index(x, y) < i implies !#[trigger] free(
                    open,
                    after,
                    after.len() as int,
                    x,
                    y,
                ) by {
                    lemma_covered_push(before, current, n, x, y);
                    if scan_index(x, y) < origin {
                        assert(!free(open, before, n, x, y));
                    } else {
                        assert(current.covers(x, y));
                    }
                }
            }
        } else {
            proof {
                assert(!free(open, output_quads@, n, q.x as int, q.y as int));
            }
            i += 1;
        }
    }
    proof {
        assert forall|c: int| 0 <= c < 256 implies #[trigger] input_quads@[c] == (InputQuad {
            done: start[c].done || start[c].exists,
            ..start[c]
        }) by {
            assert(in_slice(c % 16, c / 16));
            assert(scan_index(c % 16, c / 16) == c);
            assert(!free(open, output_quads@, output_quads.len() as int, c % 16, c / 16));
            assert(input_quads@[scan_index(c % 16, c / 16)].x == c % 16);
            assert(start[scan_index(c % 16, c / 16)].x == c % 16);
            if covered(output_quads@, output_quads.len() as int, c % 16, c / 16) {
                let k = choose|k: int|
                    0 <= k < output_quads.len() && (#[trigger] output_quads@[k]).covers(
                        c % 16,
                        c / 16,
                    );
                let r = output_quads@[k];
                assert(greedy_quad(open, output_quads@, k));
                assert(row_free(open, output_quads@, k, r.x as int, r.w as int, c / 16));
                assert(free(open, output_quads@, k, c % 16, c / 16));
            }
        }
        assert forall|x: int, y: int| in_slice(x, y) implies !#[trigger] free(
            open,
            output_quads@,
            output_quads.len() as int,
            x,
            y,
        ) by {
            assert(scan_index(x, y) < 256);
        }
        assert(output_quads.len() == output_quads@.len());
        lemma_partition(open, output_quads@);
    }
    output_quads
}

} // verus!
