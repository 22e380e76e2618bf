use vstd::prelude::*;
use bevy::utils::HashMap;
use crate::voxel::VoxelId;
use crate::voxel::chunk::ChunkVoxels;

verus! {

/// The resident chunks by chunk coordinate, in a `HashMap` of `bevy::utils`.
/// What it holds is seen through `chunk_map_entries` alone.
#[verifier::external_body]
pub struct ChunkMap {
    map: HashMap<(i32, i32, i32), ChunkVoxels>,
}

/// What a chunk map holds: the chunk stored under each coordinate.
pub uninterp spec fn chunk_map_entries(map: ChunkMap) -> Map<(i32, i32, i32), ChunkVoxels>;

/// The map with no chunk.
pub open spec fn no_chunks() -> Map<(i32, i32, i32), ChunkVoxels> {
    Map::empty()
}

/// `HashMap::new` of `bevy::utils`: the new map holds nothing.
#[verifier::external_body]
pub(crate) fn chunk_map_new() -> (map: ChunkMap)
    ensures
        chunk_map_entries(map) == no_chunks(),
{
    ChunkMap { map: HashMap::new() }
}

/// `HashMap::contains_key`: whether a chunk is stored under `key`.
#[verifier::external_body]
pub(crate) fn chunk_map_contains(map: &ChunkMap, key: (i32, i32, i32)) -> (found: bool)
    ensures
        found == chunk_map_entries(*map).dom().contains(key),
{
    map.map.contains_key(&key)
}

/// `HashMap::get`: the chunk stored under `key`, if there is one.
#[verifier::external_body]
pub(crate) fn chunk_map_get(map: &ChunkMap, key: (i32, i32, i32)) -> (chunk: Option<&ChunkVoxels>)
    ensures
        chunk.is_some() == chunk_map_entries(*map).dom().contains(key),
        chunk.is_some() ==> *chunk.unwrap() == chunk_map_entries(*map)[key],
{
    map.map.get(&key)
}

/// `HashMap::get_mut`: the chunk stored under `key`, if there is one, to be
/// changed in place. What is written through the reference is what the map
/// then holds under `key`; nothing else in the map changes.
#[verifier::external_body]
pub(crate) fn chunk_map_get_mut(map: &mut ChunkMap, key: (i32, i32, i32)) -> (chunk: Option<
    &mut ChunkVoxels,
>)
    ensures
        chunk.is_some() == chunk_map_entries(*old(map)).dom().contains(key),
        match chunk {
            Some(c) => *c == chunk_map_entries(*old(map))[key] && chunk_map_entries(*final(map))
                == chunk_map_entries(*old(map)).insert(key, *final(c)),
            None => chunk_map_entries(*final(map)) == chunk_map_entries(*old(map)),
        },
{
    map.map.get_mut(&key)
}

/// `HashMap::insert`: `value` is stored under `key`, in place of what was
/// there; nothing else in the map changes.
#[verifier::external_body]
pub(crate) fn chunk_map_insert(map: &mut ChunkMap, key: (i32, i32, i32), value: ChunkVoxels)
    ensures
        chunk_map_entries(*final(map)) == chunk_map_entries(*old(map)).insert(key, value),
{
    map.map.insert(key, value);
}

/// `HashMap::keys`, copied into a vector: the coordinates under which a chunk
/// is stored, each of them, in the order the map walks them, which is not
/// stated.
#[verifier::external_body]
pub(crate) fn chunk_map_keys(map: &ChunkMap) -> (keys: Vec<(i32, i32, i32)>)
    ensures
        forall|key: (i32, i32, i32)|
            keys@.contains(key) <==> chunk_map_entries(*map).dom().contains(key),
{
    map.map.keys().copied().collect()
}

/// The block types by name, in a `HashMap` of `bevy::utils`. What it holds is
/// seen through `name_map_entries` alone.
#[verifier::external_body]
pub struct NameMap {
    map: HashMap<String, VoxelId>,
}

/// What a name map holds: the handle stored under each name.
pub uninterp spec fn name_map_entries(map: NameMap) -> Map<Seq<char>, VoxelId>;

/// The map with no name.
pub open spec fn no_names() -> Map<Seq<char>, VoxelId> {
    Map::empty()
}

/// `HashMap::new` of `bevy::utils`: the new map holds nothing.
#[verifier::external_body]
pub(crate) fn name_map_new() -> (map: NameMap)
    ensures
        name_map_entries(map) == no_names(),
{
    NameMap { map: HashMap::new() }
}

/// `HashMap::get`, with a copy of what it finds: the handle stored under
/// `name`, if there is one.
#[verifier::external_body]
pub(crate) fn name_map_get(map: &NameMap, name: &str) -> (id: Option<VoxelId>)
    ensures
        id == if name_map_entries(*map).dom().contains(name@) {
            Some(name_map_entries(*map)[name@])
        } else {
            None
        },
{
    map.map.get(name).cloned()
}

/// `HashMap::insert`: `id` is stored under `name`, in place of what was
/// there; nothing else in the map changes.
#[verifier::external_body]
pub(crate) fn name_map_insert(map: &mut NameMap, name: String, id: VoxelId)
    ensures
        name_map_entries(*final(map)) == name_map_entries(*old(map)).insert(name@, id),
{
    map.map.insert(name, id);
}

} // verus!
