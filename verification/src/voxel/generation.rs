use vstd::prelude::*;
use crate::voxel::{VoxelId, CHUNK_SIZE_CB, CHUNK_SIZE_I32, in_chunk, block_index, set_chunk_voxel};
use crate::voxel::chunk::all_air;
use crate::voxel::components::{ConstructChunkMesh, GenerateChunk};
use crate::voxel::store::Voxels;

verus! {

/// Fills the array of one chunk. An implementation reads the world and writes
/// the array; it returns `false` to say that the chunk is to be left as it
/// is. The array it is handed is all air.
pub trait ChunkGenerator: Send + Sync + 'static {
    /// What this generator may make of the chunk at a chunk coordinate, in a
    /// given world: the array `blocks`, said to be complete or not. Each
    /// implementation chooses this relation; one that says nothing allows
    /// every outcome.
    open spec fn may_give(
        &self,
        chunk_x: i32,
        chunk_y: i32,
        chunk_z: i32,
        voxels: &Voxels,
        blocks: Seq<VoxelId>,
        complete: bool,
    ) -> bool {
        true
    }

    fn generate(
        &mut self,
        chunk_x: i32,
        chunk_y: i32,
        chunk_z: i32,
        voxels: &Voxels,
        chunk_voxels: &mut [VoxelId; CHUNK_SIZE_CB],
    ) -> (complete: bool)
        requires
            old(chunk_voxels)@ == all_air(),
        ensures
            old(self).may_give(
                chunk_x,
                chunk_y,
                chunk_z,
                voxels,
                final(chunk_voxels)@,
                complete,
            ),
    ;
}

/// The number of layers, from the bottom of a chunk, that the terrain fills.
pub const TERRAIN_LAYERS: i32 = 5;

/// What the terrain makes of one block of a chunk, given what the sampler
/// said there: in the bottom layers the block is `solid` where the sampler
/// said yes and stays where it said no; above them it stays.
pub open spec fn cell_filled<F: Fn(i32, i32, i32) -> bool>(
    now: Seq<VoxelId>,
    before: Seq<VoxelId>,
    solid: VoxelId,
    sampler: &F,
    x: i32,
    y: i32,
    z: i32,
) -> bool {
    let i = block_index(x as int, y as int, z as int);
    if y < 5 {
        ||| sampler.ensures((x, y, z), true) && now[i] == solid
        ||| sampler.ensures((x, y, z), false) && now[i] == before[i]
    } else {
        now[i] == before[i]
    }
}

/// What the terrain has made of one block when it has visited it, or has
/// not yet.
pub open spec fn cell_state<F: Fn(i32, i32, i32) -> bool>(
    now: Seq<VoxelId>,
    before: Seq<VoxelId>,
    solid: VoxelId,
    sampler: &F,
    x: i32,
    y: i32,
    z: i32,
    visited: bool,
) -> bool {
    if visited {
        cell_filled(now, before, solid, sampler, x, y, z)
    } else {
        now[block_index(x as int, y as int, z as int)] == before[block_index(
            x as int,
            y as int,
            z as int,
        )]
    }
}

/// Whether the place `(x, y, z)` of a chunk comes before `(u, v, w)` in the
/// order the terrain visits the bottom layers: `x` slowest, `z` fastest.
pub open spec fn filled_before(x: i32, y: i32, z: i32, u: int, v: int, w: int) -> bool {
    y >= 5 || x < u || (x == u && (y < v || (y == v && z < w)))
}

/// The terrain of one chunk: in the bottom five layers, each block for which
/// `sampler` says yes becomes `solid`; every other block stays as it is.
pub fn fill_terrain<F: Fn(i32, i32, i32) -> bool>(
    chunk_voxels: &mut [VoxelId; CHUNK_SIZE_CB],
    solid: VoxelId,
    sampler: &F,
)
    requires
        forall|x: i32, y: i32, z: i32|
            in_chunk(x as int, y as int, z as int) && y < 5 ==> #[trigger] sampler.requires(
                (x, y, z),
            ),
    ensures
        forall|x: i32, y: i32, z: i32|
            in_chunk(x as int, y as int, z as int) ==> #[trigger] cell_filled(
                final(chunk_voxels)@,
                old(chunk_voxels)@,
                solid,
                sampler,
                x,
                y,
                z,
            ),
{
    let mut x: i32 = 0;
    while x < CHUNK_SIZE_I32
        invariant
            0 <= x <= 32,
            forall|x: i32, y: i32, z: i32|
                in_chunk(x as int, y as int, z as int) && y < 5 ==> #[trigger] sampler.requires(
                    (x, y, z),
                ),
            forall|u: i32, v: i32, w: i32|
                in_chunk(u as int, v as int, w as int) ==> #[trigger] cell_state(
                    chunk_voxels@,
                    old(chunk_voxels)@,
                    solid,
                    sampler,
                    u,
                    v,
                    w,
                    filled_before(u, v, w, x as int, 0, 0),
                ),
        decreases 32 - x,
    {
        let mut y: i32 = 0;
        while y < TERRAIN_LAYERS
            invariant
                0 <= x < 32,
                0 <= y <= 5,
                forall|x: i32, y: i32, z: i32|
                    in_chunk(x as int, y as int, z as int) && y < 5 ==> #[trigger] sampler.requires(
                        (x, y, z),
                    ),
                forall|u: i32, v: i32, w: i32|
                    in_chunk(u as int, v as int, w as int) ==> #[trigger] cell_state(
                        chunk_voxels@,
                        old(chunk_voxels)@,
                        solid,
                        sampler,
                        u,
                        v,
                        w,
                        filled_before(u, v, w, x as int, y as int, 0),
                    ),
            decreases 5 - y,
        {
            let mut z: i32 = 0;
            while z < CHUNK_SIZE_I32
                invariant
                    0 <= x < 32,
                    0 <= y < 5,
                    0 <= z <= 32,
                    forall|x: i32, y: i32, z: i32|
                        in_chunk(x as int, y as int, z as int) && y < 5
                            ==> #[trigger] sampler.requires((x, y, z)),
                    forall|u: i32, v: i32, w: i32|
                        in_chunk(u as int, v as int, w as int) ==> #[trigger] cell_state(
                            chunk_voxels@,
                            old(chunk_voxels)@,
                            solid,
                            sampler,
                            u,
                            v,
                            w,
                            filled_before(u, v, w, x as int, y as int, z as int),
                        ),
                decreases 32 - z,
            {
                let ghost seen = chunk_voxels@;
                assert(sampler.requires((x, y, z)));
                if sampler(x, y, z) {
                    set_chunk_voxel(chunk_voxels, x, y, z, solid);
                }
                assert forall|u: i32, v: i32, w: i32|
                    in_chunk(u as int, v as int, w as int) implies #[trigger] cell_state(
                    chunk_voxels@,
                    old(chunk_voxels)@,
                    solid,
                    sampler,
                    u,
                    v,
                    w,
                    filled_before(u, v, w, x as int, y as int, z + 1),
                ) by {
                    assert(cell_state(
                        seen,
                        old(chunk_voxels)@,
                        solid,
                        sampler,
                        u,
                        v,
                        w,
                        filled_before(u, v, w, x as int, y as int, z as int),
                    ));
                    if (u, v, w) != (x, y, z) {
                        assert(block_index(u as int, v as int, w as int) != block_index(
                            x as int,
                            y as int,
                            z as int,
                        ));
                    }
                }
                z = z + 1;
            }
            assert forall|u: i32, v: i32, w: i32|
                in_chunk(u as int, v as int, w as int) implies #[trigger] cell_state(
                chunk_voxels@,
                old(chunk_voxels)@,
                solid,
                sampler,
                u,
                v,
                w,
                filled_before(u, v, w, x as int, y + 1, 0),
            ) by {
                assert(cell_state(
                    chunk_voxels@,
                    old(chunk_voxels)@,
                    solid,
                    sampler,
                    u,
                    v,
                    w,
                    filled_before(u, v, w, x as int, y as int, 32),
                ));
            }
            y = y + 1;
        }
        assert forall|u: i32, v: i32, w: i32|
            in_chunk(u as int, v as int, w as int) implies #[trigger] cell_state(
            chunk_voxels@,
            old(chunk_voxels)@,
            solid,
            sampler,
            u,
            v,
            w,
            filled_before(u, v, w, x + 1, 0, 0),
        ) by {
            assert(cell_state(
                chunk_voxels@,
                old(chunk_voxels)@,
                solid,
                sampler,
                u,
                v,
                w,
                filled_before(u, v, w, x as int, 5, 0),
            ));
        }
        x = x + 1;
    }
    assert forall|x: i32, y: i32, z: i32|
        in_chunk(x as int, y as int, z as int) implies #[trigger] cell_filled(
        chunk_voxels@,
        old(chunk_voxels)@,
        solid,
        sampler,
        x,
        y,
        z,
    ) by {
        assert(cell_state(
            chunk_voxels@,
            old(chunk_voxels)@,
            solid,
            sampler,
            x,
            y,
            z,
            filled_before(x, y, z, 32, 0, 0),
        ));
    }
}

} // verus!

verus! {

/// What committing the array `blocks` to the chunk at `key` makes of the
/// world `before`: the chunk holds `blocks`, keeps its entity and its state,
/// and nothing else changes.
pub open spec fn after_commit(
    now: &Voxels,
    before: &Voxels,
    key: (i32, i32, i32),
    blocks: Seq<VoxelId>,
) -> bool {
    &&& now.same_registry(before)
    &&& now.same_chunks_but(before, key)
    &&& now.chunks().dom().contains(key)
    &&& now.chunks()[key]@ == blocks
    &&& now.chunks()[key].spec_entity() == before.chunks()[key].spec_entity()
    &&& now.chunks()[key].spec_state() == before.chunks()[key].spec_state()
}

/// What becomes of the array a generator wrote to, given what the generator
/// said of it: a complete array is kept, to be committed; any other is
/// dropped, and the chunk is left as it is.
pub fn keep_if_complete(complete: bool, chunk_voxels: Box<[VoxelId; CHUNK_SIZE_CB]>) -> (generated:
    Option<Box<[VoxelId; CHUNK_SIZE_CB]>>)
    ensures
        generated == if complete {
            Some(chunk_voxels)
        } else {
            None
        },
{
    if !complete {
        return None;
    }
    Some(chunk_voxels)
}

/// Runs the generator on one request: the generator is asked for the chunk
/// at the request's coordinate, in the world as it is, with an array of air
/// to write to. Returns the array where the generator said that it is
/// complete, and `None` where it said to leave the chunk as it is. What the
/// generator says and what it writes is its own choice.
pub fn run_generator<G: ChunkGenerator>(
    generator: &mut G,
    voxels: &Voxels,
    request: &GenerateChunk,
) -> (generated: Option<Box<[VoxelId; CHUNK_SIZE_CB]>>)
    ensures
        match generated {
            Some(blocks) => old(generator).may_give(
                request.x,
                request.y,
                request.z,
                voxels,
                blocks@,
                true,
            ),
            None => exists|blocks: Seq<VoxelId>| #[trigger]
                old(generator).may_give(request.x, request.y, request.z, voxels, blocks, false),
        },
{
    let air = VoxelId::air();
    let mut chunk = Box::new([air;CHUNK_SIZE_CB]);
    assert(chunk@ =~= all_air());
    let complete = generator.generate(request.x, request.y, request.z, voxels, &mut *chunk);
    keep_if_complete(complete, chunk)
}

/// Ends one generation request. A complete array takes the place of the
/// chunk's blocks, and the request to build the chunk's surface is returned.
/// Without an array the request is dropped: nothing changes, and nothing is
/// returned.
pub fn commit_generated(
    voxels: &mut Voxels,
    request: &GenerateChunk,
    generated: Option<Box<[VoxelId; CHUNK_SIZE_CB]>>,
) -> (next: Option<ConstructChunkMesh>)
    requires
        generated.is_some() ==> old(voxels).resident(request.x, request.y, request.z),
    ensures
        match generated {
            Some(blocks) => next == Some(
                ConstructChunkMesh { x: request.x, y: request.y, z: request.z },
            ) && after_commit(
                final(voxels),
                old(voxels),
                (request.x, request.y, request.z),
                blocks@,
            ),
            None => next.is_none() && final(voxels).same_world(old(voxels)),
        },
        old(voxels).wf() ==> final(voxels).wf(),
        old(voxels).stamps_fresh() ==> final(voxels).stamps_fresh(),
{
    match generated {
        None => None,
        Some(blocks) => {
            match voxels.get_chunk_mut(request.x, request.y, request.z) {
                Some(chunk) => {
                    chunk.replace_voxels(blocks);
                },
                None => {},
            }
            Some(ConstructChunkMesh::new(request.x, request.y, request.z))
        },
    }
}

} // verus!
