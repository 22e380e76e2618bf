//! Voxel world core: a chunked block grid, the streaming of chunks around
//! observers, chunk generation and surface meshing.

pub mod version;
pub mod voxel;
