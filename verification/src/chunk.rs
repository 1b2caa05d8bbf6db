//! The voxel volume: a cube of side 16 holding one identifier per cell.

use vstd::prelude::*;

verus! {

/// Linear index of the voxel at `(x, y, z)`: the first axis has stride 256,
/// the second stride 16 and the third stride 1.
pub open spec fn voxel_index(x: int, y: int, z: int) -> int {
    x * 256 + y * 16 + z
}

/// Whether `(x, y, z)` names a voxel inside the volume.
pub open spec fn in_volume(x: int, y: int, z: int) -> bool {
    0 <= x < 16 && 0 <= y < 16 && 0 <= z < 16
}

/// A cube of 16x16x16 voxel identifiers. Identifier 0 is empty space, every
/// other value is solid.
pub struct Chunk {
    pub ids: [u32; 4096],
}

impl Chunk {
    /// A volume with every cell empty.
    pub fn new() -> (chunk: Chunk)
        ensures
            forall|i: int| 0 <= i < 4096 ==> chunk.ids@[i] == 0,
    {
        Chunk { ids: [0u32; 4096] }
    }

    /// Linear index of the voxel at `(x, y, z)`.
    pub fn xyz_to_i(x: i32, y: i32, z: i32) -> (i: usize)
        requires
            in_volume(x as int, y as int, z as int),
        ensures
            i == voxel_index(x as int, y as int, z as int),
            i < 4096,
    {
        (x * 256 + y * 16 + z) as usize
    }

    /// Whether the cell at linear index `i` holds a solid voxel.
    pub open spec fn solid_at(self, i: int) -> bool {
        0 <= i < 4096 && self.ids@[i] != 0
    }

    /// Whether the cell at linear index `i` holds a solid voxel.
    pub fn is_solid(&self, i: usize) -> (solid: bool)
        requires
            i < 4096,
        ensures
            solid == self.solid_at(i as int),
    {
        self.ids[i] != 0
    }
}

} // verus!
