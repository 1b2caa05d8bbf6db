//! Meshing of a whole volume: every layer of every facing, slice by slice.

use vstd::prelude::*;
use crate::chunk::Chunk;
use crate::exposure::{classify_slice, exposure_grid};
use crate::facing::QuadFacing;
use crate::merge::merge_quads;
use crate::quad::{greedy_mesh, partitions, OutputQuad};

verus! {

/// The order in which the facings of one layer are meshed.
pub open spec fn facing_in_order(n: int) -> QuadFacing {
    if n == 0 {
        QuadFacing::Left
    } else if n == 1 {
        QuadFacing::Right
    } else if n == 2 {
        QuadFacing::Bottom
    } else if n == 3 {
        QuadFacing::Top
    } else if n == 4 {
        QuadFacing::Front
    } else {
        QuadFacing::Back
    }
}

/// Whether `entry` is the mesh of layer `layer` of `facing`: it names both,
/// and its rectangles are the greedy cover of that slice's visible faces.
pub open spec fn is_slice_mesh(
    ids: Seq<u32>,
    facing: QuadFacing,
    layer: int,
    entry: (QuadFacing, usize, Vec<OutputQuad>),
) -> bool {
    &&& entry.0 == facing
    &&& entry.1 == layer
    &&& greedy_mesh(exposure_grid(ids, facing, layer), entry.2@)
}

/// Turns voxel volumes into merged rectangular faces.
pub struct MeshSimplifier;

impl MeshSimplifier {
    /// Meshes the whole volume: 96 entries, layer by layer from 0 to 15, and
    /// within a layer the six facings in the order left, right, bottom, top,
    /// front, back. Each entry holds its facing, its layer and the greedy
    /// cover of that slice.
    pub fn generate_mesh(chunk: &Chunk) -> (output: Vec<(QuadFacing, usize, Vec<OutputQuad>)>)
        ensures
            output@.len() == 96,
            forall|i: int|
                0 <= i < 96 ==> is_slice_mesh(
                    chunk.ids@,
                    facing_in_order(i % 6),
                    i / 6,
                    #[trigger] output@[i],
                ),
    {
        let mut output: Vec<(QuadFacing, usize, Vec<OutputQuad>)> = Vec::new();
        let mut layer: usize = 0;
        while layer < 16
            invariant
                layer <= 16,
                output@.len() == layer * 6,
                forall|i: int|
                    0 <= i < layer * 6 ==> is_slice_mesh(
                        chunk.ids@,
                        facing_in_order(i % 6),
                        i / 6,
                        #[trigger] output@[i],
                    ),
            decreases 16 - layer,
        {
            output.push(
                (QuadFacing::Left, layer, MeshSimplifier::generate_slice(chunk, QuadFacing::Left, layer)),
            );
            output.push(
                (QuadFacing::Right, layer, MeshSimplifier::generate_slice(chunk, QuadFacing::Right, layer)),
            );
            output.push(
                (
                    QuadFacing::Bottom,
                    layer,
                    MeshSimplifier::generate_slice(chunk, QuadFacing::Bottom, layer),
                ),
            );
            output.push(
                (QuadFacing::Top, layer, MeshSimplifier::generate_slice(chunk, QuadFacing::Top, layer)),
            );
            output.push(
                (QuadFacing::Front, layer, MeshSimplifier::generate_slice(chunk, QuadFacing::Front, layer)),
            );
            output.push(
                (QuadFacing::Back, layer, MeshSimplifier::generate_slice(chunk, QuadFacing::Back, layer)),
            );
            layer += 1;
        }
        output
    }

    /// Meshes one slice: finds the visible faces of layer `layer` in
    /// direction `facing` and covers them greedily with rectangles, which
    /// come out in the scan order of their origins.
    pub fn generate_slice(chunk: &Chunk, facing: QuadFacing, layer: usize) -> (output_quads: Vec<
        OutputQuad,
    >)
        requires
            layer < 16,
        ensures
            greedy_mesh(exposure_grid(chunk.ids@, facing, layer as int), output_quads@),
            partitions(exposure_grid(chunk.ids@, facing, layer as int), output_quads@),
    {
        let mut input_quads = classify_slice(chunk, facing, layer);
        merge_quads(&mut input_quads)
    }
}

} // verus!
