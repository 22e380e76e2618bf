pub mod chunk;
pub mod components;
pub mod coords;
pub mod generation;
pub mod loader;
pub mod mesher;
pub mod scene;
pub mod shell;
pub mod store;
pub mod tables;

use vstd::prelude::*;

verus! {

/// Edge length of a chunk, in blocks.
pub const CHUNK_SIZE: usize = 32;

/// Edge length of a chunk as a signed number.
pub const CHUNK_SIZE_I32: i32 = 32;

/// Blocks in one layer of a chunk.
pub const CHUNK_SIZE_SQ: usize = CHUNK_SIZE * CHUNK_SIZE;

/// Blocks in a chunk.
pub const CHUNK_SIZE_CB: usize = CHUNK_SIZE_SQ * CHUNK_SIZE;

/// Handle of a block type in the registry. Only a registry hands one out.
#[derive(Copy, Clone, Debug, PartialEq, Eq, Hash, Structural)]
pub struct VoxelId(u32);

impl VoxelId {
    /// The number behind the handle: the position of its entry in the registry.
    pub closed spec fn index(self) -> nat {
        self.0 as nat
    }

    /// The handle of air, the block type every new chunk is filled with.
    pub closed spec fn air_spec() -> VoxelId {
        VoxelId(0)
    }

    /// Two handles with one number are one handle.
    pub proof fn lemma_index_decides(self, other: VoxelId)
        ensures
            self.index() == other.index() <==> self == other,
    {
    }

    /// The number behind a handle fits in 32 bits.
    pub proof fn lemma_index_bound(self)
        ensures
            self.index() <= u32::MAX,
    {
    }

    /// Air is the handle with number zero, and the only one.
    pub proof fn lemma_air(id: VoxelId)
        ensures
            VoxelId::air_spec().index() == 0,
            id.index() == 0 <==> id == VoxelId::air_spec(),
    {
    }

    /// The handle of air, the block type every new chunk is filled with.
    pub fn air() -> (id: VoxelId)
        ensures
            id == VoxelId::air_spec(),
            id.index() == 0,
    {
        VoxelId(0)
    }

    /// The number behind the handle.
    pub fn id(self) -> (n: usize)
        ensures
            n == self.index(),
    {
        self.0 as usize
    }

    /// The handle with a given number.
    pub(crate) fn from_index(n: u32) -> (id: VoxelId)
        ensures
            id.index() == n,
    {
        VoxelId(n)
    }
}

/// A display colour, eight bits a channel.
#[derive(Copy, Clone, Debug, PartialEq, Eq, Structural)]
pub struct Color {
    pub red: u8,
    pub green: u8,
    pub blue: u8,
    pub alpha: u8,
}

impl Color {
    /// The colour with the given channels.
    pub fn rgba_u8(red: u8, green: u8, blue: u8, alpha: u8) -> (c: Color)
        ensures
            c == (Color { red, green, blue, alpha }),
    {
        Color { red, green, blue, alpha }
    }

    /// The opaque colour with the given channels.
    pub fn rgb_u8(red: u8, green: u8, blue: u8) -> (c: Color)
        ensures
            c == (Color { red, green, blue, alpha: 255 }),
    {
        Color { red, green, blue, alpha: 255 }
    }
}

/// What the registry knows of one block type.
pub struct VoxelConfigEntry {
    pub debug_name: String,
    pub render: bool,
    pub solid: bool,
    pub color: Color,
}

/// Whether `(x, y, z)` names a block of a chunk.
pub open spec fn in_chunk(x: int, y: int, z: int) -> bool {
    0 <= x < 32 && 0 <= y < 32 && 0 <= z < 32
}

/// Where the block at `(x, y, z)` stands in a chunk's array: `x` counts
/// slowest, `z` fastest.
pub open spec fn block_index(x: int, y: int, z: int) -> int {
    x * 1024 + y * 32 + z
}

/// Writes `voxel` at a place of a chunk's array. Outside the chunk nothing
/// is written.
pub fn set_chunk_voxel(chunk: &mut [VoxelId; CHUNK_SIZE_CB], x: i32, y: i32, z: i32, voxel: VoxelId)
    ensures
        in_chunk(x as int, y as int, z as int) ==> final(chunk)@ == old(chunk)@.update(
            block_index(x as int, y as int, z as int),
            voxel,
        ),
        !in_chunk(x as int, y as int, z as int) ==> final(chunk)@ == old(chunk)@,
{
    if !(0 <= x && x < CHUNK_SIZE_I32 && 0 <= y && y < CHUNK_SIZE_I32 && 0 <= z && z
        < CHUNK_SIZE_I32) {
        return ;
    }
    let x = x as usize;
    let y = y as usize;
    let z = z as usize;
    chunk[x * CHUNK_SIZE_SQ + y * CHUNK_SIZE + z] = voxel;
}

/// Reads a place of a chunk's array; `None` outside the chunk.
pub fn get_chunk_voxel(chunk: &mut [VoxelId; CHUNK_SIZE_CB], x: i32, y: i32, z: i32) -> (voxel:
    Option<VoxelId>)
    ensures
        final(chunk)@ == old(chunk)@,
        voxel == if in_chunk(x as int, y as int, z as int) {
            Some(old(chunk)@[block_index(x as int, y as int, z as int)])
        } else {
            None
        },
{
    if !(0 <= x && x < CHUNK_SIZE_I32 && 0 <= y && y < CHUNK_SIZE_I32 && 0 <= z && z
        < CHUNK_SIZE_I32) {
        None
    } else {
        let x = x as usize;
        let y = y as usize;
        let z = z as usize;
        Some(chunk[x * CHUNK_SIZE_SQ + y * CHUNK_SIZE + z])
    }
}

} // verus!
