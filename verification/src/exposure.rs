//! Face visibility: which cells of a slice show a face.

use vstd::prelude::*;
use crate::chunk::Chunk;
use crate::facing::QuadFacing;
use crate::quad::{grid_wf, in_slice, open_cells, scan_index, InputQuad};

verus! {

/// Whether the voxel at slice cell `(sx, sy)` of layer `layer` shows a face
/// in direction `facing`: it is solid, and the voxel it looks at is empty or
/// lies beyond the volume.
pub open spec fn exposed(ids: Seq<u32>, facing: QuadFacing, layer: int, sx: int, sy: int) -> bool {
    &&& ids[facing.cell_index(layer, sx, sy)] != 0
    &&& !(facing.has_neighbor(layer) && ids[facing.cell_index(layer + facing.sign(), sx, sy)] != 0)
}

/// The exposure of every cell of one slice, in scan order.
pub open spec fn exposure_grid(ids: Seq<u32>, facing: QuadFacing, layer: int) -> Seq<bool> {
    Seq::new(256, |c: int| exposed(ids, facing, layer, c % 16, c / 16))
}

/// Whether the face of slice cell `(sx, sy)` in layer `layer` is visible.
pub fn is_exposed(chunk: &Chunk, facing: QuadFacing, layer: usize, sx: usize, sy: usize) -> (exists:
    bool)
    requires
        layer < 16,
        sx < 16,
        sy < 16,
    ensures
        exists == exposed(chunk.ids@, facing, layer as int, sx as int, sy as int),
{
    let index: usize = facing.slice_index(layer, sx, sy);
    if chunk.ids[index] == 0 {
        return false;
    }
    match facing.neighbor_index(layer, sx, sy) {
        None => true,
        Some(adjacent) => chunk.ids[adjacent] == 0,
    }
}

/// Builds the exposure grid of one slice: one cell per slice position, in
/// scan order, none of them covered yet.
pub fn classify_slice(chunk: &Chunk, facing: QuadFacing, layer: usize) -> (input_quads: Vec<
    InputQuad,
>)
    requires
        layer < 16,
    ensures
        grid_wf(input_quads@),
        forall|x: int, y: int|
            in_slice(x, y) ==> #[trigger] input_quads@[scan_index(x, y)] == (InputQuad {
                x: x as usize,
                y: y as usize,
                exists: exposed(chunk.ids@, facing, layer as int, x, y),
                done: false,
            }),
        open_cells(input_quads@) == exposure_grid(chunk.ids@, facing, layer as int),
{
    let mut input_quads: Vec<InputQuad> = Vec::new();
    let mut y: usize = 0;
    while y < 16
        invariant
            y <= 16,
            layer < 16,
            input_quads@.len() == y * 16,
            forall|vx: int, vy: int|
                in_slice(vx, vy) && vy < y ==> #[trigger] input_quads@[scan_index(vx, vy)] == (
                InputQuad {
                    x: vx as usize,
                    y: vy as usize,
                    exists: exposed(chunk.ids@, facing, layer as int, vx, vy),
                    done: false,
                }),
        decreases 16 - y,
    {
        let mut x: usize = 0;
        while x < 16
            invariant
                x <= 16,
                y < 16,
                layer < 16,
                input_quads@.len() == y * 16 + x,
                forall|vx: int, vy: int|
                    in_slice(vx, vy) && scan_index(vx, vy) < scan_index(x as int, y as int)
                        ==> #[trigger] input_quads@[scan_index(vx, vy)] == (InputQuad {
                        x: vx as usize,
                        y: vy as usize,
                        exists: exposed(chunk.ids@, facing, layer as int, vx, vy),
                        done: false,
                    }),
            decreases 16 - x,
        {
            let exists = is_exposed(chunk, facing, layer, x, y);
            input_quads.push(InputQuad::new(x, y, exists));
            x += 1;
        }
        y += 1;
    }
    proof {
        let grid = input_quads@;
        let target = exposure_grid(chunk.ids@, facing, layer as int);
        assert forall|c: int| 0 <= c < 256 implies open_cells(grid)[c] == target[c] by {
            assert(in_slice(c % 16, c / 16));
            assert(scan_index(c % 16, c / 16) == c);
            assert(grid[scan_index(c % 16, c / 16)].exists == exposed(
                chunk.ids@,
                facing,
                layer as int,
                c % 16,
                c / 16,
            ));
        }
        assert(open_cells(grid) =~= target);
    }
    input_quads
}

} // verus!
