use vstd::prelude::*;

verus! {

/// What the streaming keeps of a chunk: whether its entity is shown, and the
/// stamp of the last tick that wanted it.
#[derive(Copy, Clone, Debug, PartialEq, Eq, Structural)]
pub struct Chunk {
    pub loaded: bool,
    pub mark: bool,
}

/// An observer's reach in chunks along each axis. The chunks within it are
/// kept resident and shown.
#[derive(Copy, Clone, Debug, PartialEq, Eq, Structural)]
pub struct ChunkLoader {
    pub x_radius: i32,
    pub y_radius: i32,
    pub z_radius: i32,
}

/// A request to fill the chunk at a chunk coordinate.
#[derive(Copy, Clone, Debug, PartialEq, Eq, Structural)]
pub struct GenerateChunk {
    pub x: i32,
    pub y: i32,
    pub z: i32,
}

impl GenerateChunk {
    /// The request for the chunk at `(x, y, z)`.
    pub fn new(x: i32, y: i32, z: i32) -> (request: GenerateChunk)
        ensures
            request == (GenerateChunk { x, y, z }),
    {
        GenerateChunk { x, y, z }
    }
}

/// A request to build the surface of the chunk at a chunk coordinate.
#[derive(Copy, Clone, Debug, PartialEq, Eq, Structural)]
pub struct ConstructChunkMesh {
    pub x: i32,
    pub y: i32,
    pub z: i32,
}

impl ConstructChunkMesh {
    /// The request for the chunk at `(x, y, z)`.
    pub fn new(x: i32, y: i32, z: i32) -> (request: ConstructChunkMesh)
        ensures
            request == (ConstructChunkMesh { x, y, z }),
    {
        ConstructChunkMesh { x, y, z }
    }
}

} // verus!
