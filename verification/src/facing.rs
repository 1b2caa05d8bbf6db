//! The six directions a voxel face can point, and how each lays a 16x16 slice
//! over the volume.

use vstd::prelude::*;
use crate::chunk::voxel_index;

verus! {

/// The direction a face points: `Left` and `Right` look down and up the first
/// axis, `Bottom` and `Top` the second, `Front` and `Back` the third.
#[derive(Clone, Copy, Debug, PartialEq, Eq, Structural)]
pub enum QuadFacing {
    Left,
    Right,
    Top,
    Bottom,
    Front,
    Back,
}

/// A voxel coordinate, one component per axis of the volume.
pub struct VoxelPos {
    pub x: int,
    pub y: int,
    pub z: int,
}

impl QuadFacing {
    /// +1 where the facing looks up its axis, -1 where it looks down.
    pub open spec fn sign(self) -> int {
        match self {
            QuadFacing::Left | QuadFacing::Bottom | QuadFacing::Front => -1,
            QuadFacing::Right | QuadFacing::Top | QuadFacing::Back => 1,
        }
    }

    /// Distance in linear-index units between neighbours along the facing's
    /// axis.
    pub open spec fn stride(self) -> int {
        match self {
            QuadFacing::Left | QuadFacing::Right => 256,
            QuadFacing::Bottom | QuadFacing::Top => 16,
            QuadFacing::Front | QuadFacing::Back => 1,
        }
    }

    /// Signed distance in linear-index units from a voxel to the neighbour its
    /// face looks at.
    pub open spec fn index_offset(self) -> int {
        self.sign() * self.stride()
    }

    /// The voxel that slice cell `(sx, sy)` of layer `layer` denotes: the
    /// layer runs along the facing's axis, the slice coordinates fill the two
    /// remaining axes in order.
    pub open spec fn voxel(self, layer: int, sx: int, sy: int) -> VoxelPos {
        match self {
            QuadFacing::Left | QuadFacing::Right => VoxelPos { x: layer, y: sx, z: sy },
            QuadFacing::Bottom | QuadFacing::Top => VoxelPos { x: sx, y: layer, z: sy },
            QuadFacing::Front | QuadFacing::Back => VoxelPos { x: sx, y: sy, z: layer },
        }
    }

    /// Linear index of `voxel(layer, sx, sy)`.
    pub open spec fn cell_index(self, layer: int, sx: int, sy: int) -> int {
        let v = self.voxel(layer, sx, sy);
        voxel_index(v.x, v.y, v.z)
    }

    /// Whether the neighbour of a voxel in layer `layer` is still inside the
    /// volume.
    pub open spec fn has_neighbor(self, layer: int) -> bool {
        0 <= layer + self.sign() < 16
    }

    /// The layer on the volume's outer boundary in the facing's direction.
    pub open spec fn outer_layer(self) -> int {
        if self.sign() < 0 {
            0
        } else {
            15
        }
    }

    /// Signed distance in linear-index units from a voxel to the neighbour its
    /// face looks at.
    pub fn adjacent_index_offset(self) -> (offset: i32)
        ensures
            offset == self.index_offset(),
    {
        match self {
            QuadFacing::Left => -256,
            QuadFacing::Right => 256,
            QuadFacing::Bottom => -16,
            QuadFacing::Top => 16,
            QuadFacing::Front => -1,
            QuadFacing::Back => 1,
        }
    }

    /// Linear index of the voxel that slice cell `(sx, sy)` of layer `layer`
    /// denotes.
    pub fn slice_index(self, layer: usize, sx: usize, sy: usize) -> (index: usize)
        requires
            layer < 16,
            sx < 16,
            sy < 16,
        ensures
            index == self.cell_index(layer as int, sx as int, sy as int),
            index < 4096,
    {
        match self {
            QuadFacing::Left | QuadFacing::Right => layer * 256 + sx * 16 + sy,
            QuadFacing::Bottom | QuadFacing::Top => sx * 256 + layer * 16 + sy,
            QuadFacing::Front | QuadFacing::Back => sx * 256 + sy * 16 + layer,
        }
    }

    /// Linear index of the neighbour that the face of slice cell `(sx, sy)` in
    /// layer `layer` looks at, or `None` where that neighbour lies beyond the
    /// volume. Testing the layer itself, not only the resulting index, keeps a
    /// step off the end of the second or third axis from landing in the next
    /// row of another axis.
    pub fn neighbor_index(self, layer: usize, sx: usize, sy: usize) -> (adjacent: Option<usize>)
        requires
            layer < 16,
            sx < 16,
            sy < 16,
        ensures
            adjacent.is_some() == self.has_neighbor(layer as int),
            adjacent.is_some() ==> adjacent.unwrap() as int == self.cell_index(
                layer as int,
                sx as int,
                sy as int,
            ) + self.index_offset(),
            adjacent.is_some() ==> adjacent.unwrap() as int == self.cell_index(
                layer as int + self.sign(),
                sx as int,
                sy as int,
            ),
            adjacent.is_some() ==> adjacent.unwrap() < 4096,
    {
        let index: usize = self.slice_index(layer, sx, sy);
        let offset: i32 = self.adjacent_index_offset();
        if offset < 0 {
            if layer == 0 {
                None
            } else {
                Some((index as i32 + offset) as usize)
            }
        } else {
            if layer == 15 {
                None
            } else {
                Some((index as i32 + offset) as usize)
            }
        }
    }
}

} // verus!
