//! Greedy meshing of a 16x16x16 voxel volume into merged rectangular faces.
//!
//! A volume is cut into slices, one per facing and layer. The visible faces
//! of a slice form an exposure grid, and a single row-major pass covers that
//! grid with rectangles that are each as wide, and then as tall, as the grid
//! allows at the moment they are grown.

pub mod chunk;
pub mod exposure;
pub mod facing;
pub mod laws;
pub mod merge;
pub mod mesh_simplifier;
pub mod quad;

pub use chunk::Chunk;
pub use facing::QuadFacing;
pub use mesh_simplifier::MeshSimplifier;
pub use quad::{InputQuad, OutputQuad};
