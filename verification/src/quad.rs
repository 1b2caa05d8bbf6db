//! Slice cells and the rectangles that cover them, with the definition of a
//! greedy cover of a slice.

use vstd::prelude::*;

verus! {

/// One cell of a slice's exposure grid. `exists` says that the face is solid
/// and visible; `done` says that an emitted rectangle already covers it.
#[derive(Clone, Copy, Debug, PartialEq, Eq, Structural)]
pub struct InputQuad {
    pub x: usize,
    pub y: usize,
    pub exists: bool,
    pub done: bool,
}

/// A merged rectangle of faces in slice coordinates: origin, width, height.
#[derive(Clone, Copy, Debug, PartialEq, Eq, Structural)]
pub struct OutputQuad {
    pub x: usize,
    pub y: usize,
    pub w: usize,
    pub h: usize,
}

/// Position of slice cell `(x, y)` in the row-major scan of a slice.
pub open spec fn scan_index(x: int, y: int) -> int {
    y * 16 + x
}

/// Whether `(x, y)` names a cell of the slice.
pub open spec fn in_slice(x: int, y: int) -> bool {
    0 <= x < 16 && 0 <= y < 16
}

/// A grid holds one cell per slice position, in scan order, each knowing its
/// own coordinates.
pub open spec fn grid_wf(grid: Seq<InputQuad>) -> bool {
    &&& grid.len() == 256
    &&& forall|x: int, y: int|
        in_slice(x, y) ==> (#[trigger] grid[scan_index(x, y)]).x == x && grid[scan_index(x, y)].y
            == y
}

/// The cells of a grid that a rectangle may still take: those that exist and
/// are not yet covered.
pub open spec fn open_cells(grid: Seq<InputQuad>) -> Seq<bool> {
    Seq::new(256, |c: int| grid[c].exists && !grid[c].done)
}

impl InputQuad {
    /// A fresh cell at `(x, y)` that no rectangle covers yet.
    pub fn new(x: usize, y: usize, exists: bool) -> (cell: InputQuad)
        ensures
            cell == (InputQuad { x, y, exists, done: false }),
    {
        InputQuad { x, y, exists, done: false }
    }
}

impl OutputQuad {
    /// Whether the rectangle covers slice cell `(x, y)`.
    pub open spec fn covers(self, x: int, y: int) -> bool {
        self.x <= x < self.x + self.w && self.y <= y < self.y + self.h
    }

    /// The rectangle is not empty and lies inside the slice.
    pub open spec fn in_bounds(self) -> bool {
        1 <= self.w && 1 <= self.h && self.x + self.w <= 16 && self.y + self.h <= 16
    }
}

/// Whether one of the first `n` rectangles covers `(x, y)`.
pub open spec fn covered(quads: Seq<OutputQuad>, n: int, x: int, y: int) -> bool {
    exists|k: int| 0 <= k < n && (#[trigger] quads[k]).covers(x, y)
}

/// Whether `(x, y)` is a slice cell that is open and that none of the first
/// `n` rectangles covers: what the `n`-th rectangle may still take when it is
/// grown.
pub open spec fn free(open: Seq<bool>, quads: Seq<OutputQuad>, n: int, x: int, y: int) -> bool {
    in_slice(x, y) && open[scan_index(x, y)] && !covered(quads, n, x, y)
}

/// Whether the `w` cells of row `y` that start at column `x0` are all free
/// for the `n`-th rectangle.
pub open spec fn row_free(
    open: Seq<bool>,
    quads: Seq<OutputQuad>,
    n: int,
    x0: int,
    w: int,
    y: int,
) -> bool {
    forall|x: int| x0 <= x < x0 + w ==> #[trigger] free(open, quads, n, x, y)
}

/// The `k`-th rectangle is the one a greedy scan emits after the `k` before
/// it: it starts at the first free cell in scan order, runs right over free
/// cells until the row ends or a cell is not free, and then runs down over
/// rows that are free across its whole width until one is not.
pub open spec fn greedy_quad(open: Seq<bool>, quads: Seq<OutputQuad>, k: int) -> bool {
    let q = quads[k];
    &&& q.in_bounds()
    &&& forall|x: int, y: int|
        in_slice(x, y) && scan_index(x, y) < scan_index(q.x as int, q.y as int) ==> !#[trigger] free(
            open,
            quads,
            k,
            x,
            y,
        )
    &&& forall|y: int|
        q.y <= y < q.y + q.h ==> #[trigger] row_free(open, quads, k, q.x as int, q.w as int, y)
    &&& !free(open, quads, k, q.x + q.w, q.y as int)
    &&& !row_free(open, quads, k, q.x as int, q.w as int, q.y + q.h)
}

/// `quads` is the greedy cover of the open cells: each rectangle is the
/// greedy one after its predecessors, and no open cell is left uncovered.
pub open spec fn greedy_mesh(open: Seq<bool>, quads: Seq<OutputQuad>) -> bool {
    &&& forall|k: int| 0 <= k < quads.len() ==> #[trigger] greedy_quad(open, quads, k)
    &&& forall|x: int, y: int|
        in_slice(x, y) ==> !#[trigger] free(open, quads, quads.len() as int, x, y)
}

/// The rectangles split the open cells among themselves: each lies inside
/// the slice and covers open cells only, every open cell is covered, and no
/// cell is covered by two of them.
pub open spec fn partitions(open: Seq<bool>, quads: Seq<OutputQuad>) -> bool {
    &&& forall|k: int, x: int, y: int|
        0 <= k < quads.len() && #[trigger] quads[k].covers(x, y) ==> in_slice(x, y)
            && open[scan_index(x, y)]
    &&& forall|x: int, y: int|
        in_slice(x, y) && open[scan_index(x, y)] ==> #[trigger] covered(
            quads,
            quads.len() as int,
            x,
            y,
        )
    &&& forall|j: int, k: int, x: int, y: int|
        0 <= j < k < quads.len() ==> !(#[trigger] quads[j].covers(x, y)
            && #[trigger] quads[k].covers(x, y))
}

} // verus!
