use vstd::prelude::*;
use bevy::ecs::entity::Entity;
use crate::voxel::components::Chunk;
use crate::voxel::{VoxelId, CHUNK_SIZE, CHUNK_SIZE_SQ, CHUNK_SIZE_CB, in_chunk, block_index};

verus! {

/// `Entity` of `bevy::ecs`: a handle of the scene graph. The library stores
/// and returns such handles and never looks inside one.
#[verifier::external_type_specification]
#[verifier::external_body]
pub struct ExEntity(Entity);

/// The blocks of one chunk, and the scene entity that shows them.
pub struct ChunkVoxels {
    voxels: Box<[VoxelId; CHUNK_SIZE_CB]>,
    entity: Entity,
    state: Chunk,
}

impl View for ChunkVoxels {
    type V = Seq<VoxelId>;

    /// The blocks, in array order.
    closed spec fn view(&self) -> Seq<VoxelId> {
        self.voxels@
    }
}

/// The array every new chunk starts with: air everywhere.
pub open spec fn all_air() -> Seq<VoxelId> {
    Seq::new(CHUNK_SIZE_CB as nat, |i: int| VoxelId::air_spec())
}

impl ChunkVoxels {
    /// The scene entity of the chunk.
    pub closed spec fn spec_entity(&self) -> Entity {
        self.entity
    }

    /// What the streaming keeps of the chunk.
    pub closed spec fn spec_state(&self) -> Chunk {
        self.state
    }

    /// A chunk always holds one block for each of its places.
    pub proof fn lemma_len(&self)
        ensures
            self@.len() == CHUNK_SIZE_CB,
    {
    }

    /// The block at a place of the chunk; air for a place outside it.
    pub open spec fn block_at(&self, x: int, y: int, z: int) -> VoxelId {
        if in_chunk(x, y, z) {
            self@[block_index(x, y, z)]
        } else {
            VoxelId::air_spec()
        }
    }

    /// A chunk of air with the scene entity `entity`, hidden and unstamped.
    pub fn new(entity: Entity) -> (chunk: ChunkVoxels)
        ensures
            chunk@ == all_air(),
            chunk.spec_entity() == entity,
            chunk.spec_state() == (Chunk { loaded: false, mark: false }),
    {
        let air = VoxelId::air();
        let chunk = ChunkVoxels {
            voxels: Box::new([air;CHUNK_SIZE_CB]),
            entity,
            state: Chunk { loaded: false, mark: false },
        };
        assert(chunk@ =~= all_air());
        chunk
    }

    /// The scene entity of the chunk.
    pub fn entity(&self) -> (entity: Entity)
        ensures
            entity == self.spec_entity(),
    {
        self.entity
    }

    /// What the streaming keeps of the chunk.
    pub fn state(&self) -> (state: Chunk)
        ensures
            state == self.spec_state(),
    {
        self.state
    }

    /// Records what the streaming keeps of the chunk.
    pub(crate) fn set_state(&mut self, state: Chunk)
        ensures
            final(self)@ == old(self)@,
            final(self).spec_entity() == old(self).spec_entity(),
            final(self).spec_state() == state,
    {
        self.state = state;
    }

    /// The blocks, in array order.
    pub fn voxels(&self) -> (voxels: &[VoxelId; CHUNK_SIZE_CB])
        ensures
            voxels@ == self@,
    {
        &*self.voxels
    }

    /// Puts a whole new array in place of the chunk's blocks.
    pub fn replace_voxels(&mut self, voxels: Box<[VoxelId; CHUNK_SIZE_CB]>)
        ensures
            final(self)@ == voxels@,
            final(self).spec_entity() == old(self).spec_entity(),
            final(self).spec_state() == old(self).spec_state(),
    {
        self.voxels = voxels;
    }

    /// Writes one block of the chunk.
    pub fn set_block(&mut self, x: usize, y: usize, z: usize, id: VoxelId)
        requires
            in_chunk(x as int, y as int, z as int),
        ensures
            final(self)@ == old(self)@.update(block_index(x as int, y as int, z as int), id),
            final(self).spec_entity() == old(self).spec_entity(),
            final(self).spec_state() == old(self).spec_state(),
    {
        let i = x * CHUNK_SIZE_SQ + y * CHUNK_SIZE + z;
        self.voxels[i] = id;
    }

    /// Reads one block of the chunk; air for a place outside it.
    pub fn get_block(&self, x: i32, y: i32, z: i32) -> (id: VoxelId)
        ensures
            id == self.block_at(x as int, y as int, z as int),
    {
        if 0 <= x && x < 32 && 0 <= y && y < 32 && 0 <= z && z < 32 {
            let x = x as usize;
            let y = y as usize;
            let z = z as usize;
            self.voxels[x * CHUNK_SIZE_SQ + y * CHUNK_SIZE + z]
        } else {
            VoxelId::air()
        }
    }
}

} // verus!
