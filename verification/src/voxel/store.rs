use vstd::prelude::*;
use bevy::ecs::system::Commands;
use crate::voxel::{Color, VoxelConfigEntry, VoxelId, block_index};
use crate::voxel::chunk::{ChunkVoxels, all_air};
use crate::voxel::components::Chunk;
use crate::voxel::coords::{chunk_coord, local_coord, chunk_of, local_of};
use crate::voxel::scene::spawn_empty;
use crate::voxel::tables::{
    ChunkMap, NameMap, chunk_map_entries, name_map_entries, no_chunks, no_names, chunk_map_new,
    chunk_map_contains, chunk_map_get, chunk_map_get_mut, chunk_map_insert, name_map_new,
    name_map_get, name_map_insert, chunk_map_keys,
};

verus! {

/// Every name leads to a handle below `count`.
pub open spec fn names_lead_into(names: Map<Seq<char>, VoxelId>, count: nat) -> bool {
    forall|name: Seq<char>| #[trigger] names.dom().contains(name) ==> names[name].index() < count
}

/// The world: the resident chunks by chunk coordinate, and the registry of
/// block types.
pub struct Voxels {
    chunks: ChunkMap,
    configs: Vec<VoxelConfigEntry>,
    voxel_names: NameMap,
    next_id: VoxelId,
    loaded_chunk_mark: bool,
}

impl Voxels {
    /// The resident chunks, by chunk coordinate.
    pub closed spec fn chunks(&self) -> Map<(i32, i32, i32), ChunkVoxels> {
        chunk_map_entries(self.chunks)
    }

    /// The registry: the entry of each block type, at the position that is
    /// the type's handle.
    pub closed spec fn configs(&self) -> Seq<VoxelConfigEntry> {
        self.configs@
    }

    /// The handle last registered under each name.
    pub closed spec fn names(&self) -> Map<Seq<char>, VoxelId> {
        name_map_entries(self.voxel_names)
    }

    /// The stamp that the next streaming tick gives the chunks it wants.
    pub closed spec fn mark(&self) -> bool {
        self.loaded_chunk_mark
    }

    /// The registry is sound: it holds air, the next handle is the number of
    /// its entries, and every name leads to one of them.
    pub closed spec fn wf(&self) -> bool {
        &&& self.configs@.len() >= 1
        &&& self.next_id.index() == self.configs@.len()
        &&& names_lead_into(self.names(), self.configs@.len())
    }

    /// In a sound registry there is room for air, and no more entries than
    /// handles.
    pub proof fn lemma_wf_bounds(&self)
        requires
            self.wf(),
        ensures
            1 <= self.configs().len() <= u32::MAX,
    {
        self.next_id.lemma_index_bound();
    }

    /// Whether a chunk is resident at a chunk coordinate.
    pub open spec fn resident(&self, x: i32, y: i32, z: i32) -> bool {
        self.chunks().dom().contains((x, y, z))
    }

    /// The block at a world coordinate: that of the owning chunk where it is
    /// resident, air elsewhere.
    pub open spec fn block(&self, x: int, y: int, z: int) -> VoxelId {
        let key = Voxels::key_of(x, y, z);
        if self.chunks().dom().contains(key) {
            self.chunks()[key]@[Voxels::slot_of(x, y, z)]
        } else {
            VoxelId::air_spec()
        }
    }

    /// Whether a handle has an entry in the registry.
    pub open spec fn registered(&self, id: VoxelId) -> bool {
        id.index() < self.configs().len()
    }

    /// The two worlds have the same registry and the same stamp.
    pub open spec fn same_registry(&self, other: &Voxels) -> bool {
        &&& self.configs() == other.configs()
        &&& self.names() == other.names()
        &&& self.mark() == other.mark()
    }

    /// The two worlds hold the same chunks, registry and stamp.
    pub open spec fn same_world(&self, other: &Voxels) -> bool {
        &&& self.same_registry(other)
        &&& self.chunks() == other.chunks()
    }

    /// The world holds the chunks of `other`, but for the one at `key`, which
    /// it holds whether `other` does or not.
    pub open spec fn same_chunks_but(&self, other: &Voxels, key: (i32, i32, i32)) -> bool {
        self.chunks() == other.chunks().insert(key, self.chunks()[key])
    }

    /// No chunk that is shown carries the stamp of the coming tick: what is
    /// shown was wanted by the tick before.
    pub open spec fn stamps_fresh(&self) -> bool {
        forall|key: (i32, i32, i32)| #[trigger]
            self.chunks().dom().contains(key) && self.chunks()[key].spec_state().loaded
                ==> self.chunks()[key].spec_state().mark != self.mark()
    }

    /// The chunk coordinate of a world coordinate.
    pub open spec fn key_of(x: int, y: int, z: int) -> (i32, i32, i32) {
        (chunk_of(x, 32) as i32, chunk_of(y, 32) as i32, chunk_of(z, 32) as i32)
    }

    /// The array position of a world coordinate inside its chunk.
    pub open spec fn slot_of(x: int, y: int, z: int) -> int {
        block_index(local_of(x, 32), local_of(y, 32), local_of(z, 32))
    }

    /// What `add_chunk` at `(x, y, z)` makes of the world `before`: where the
    /// chunk was resident, nothing changes; elsewhere a hidden chunk of air is
    /// added, and nothing else changes.
    pub open spec fn after_add_chunk(&self, before: &Voxels, x: i32, y: i32, z: i32) -> bool {
        if before.resident(x, y, z) {
            self.same_world(before)
        } else {
            &&& self.same_registry(before)
            &&& self.same_chunks_but(before, (x, y, z))
            &&& self.resident(x, y, z)
            &&& self.chunks()[(x, y, z)]@ == all_air()
            &&& self.chunks()[(x, y, z)].spec_state() == (Chunk { loaded: false, mark: false })
        }
    }

    /// What `set_block` makes of the world `before`: where the owning chunk
    /// is resident, its one slot holds `id` and nothing else changes; elsewhere
    /// nothing changes at all.
    pub open spec fn after_set_block(&self, before: &Voxels, x: i32, y: i32, z: i32, id: VoxelId)
        -> bool {
        let key = Voxels::key_of(x as int, y as int, z as int);
        if before.chunks().dom().contains(key) {
            &&& self.same_registry(before)
            &&& self.same_chunks_but(before, key)
            &&& self.chunks().dom().contains(key)
            &&& self.chunks()[key]@ == before.chunks()[key]@.update(
                Voxels::slot_of(x as int, y as int, z as int),
                id,
            )
            &&& self.chunks()[key].spec_entity() == before.chunks()[key].spec_entity()
            &&& self.chunks()[key].spec_state() == before.chunks()[key].spec_state()
        } else {
            self.same_world(before)
        }
    }

    /// A block that was set is the block that is read: after `set_block` at a
    /// world coordinate whose chunk is resident, `block` there is the handle
    /// that was set; where the chunk is not resident, `block` is air before and
    /// after.
    pub proof fn lemma_set_then_get(&self, before: &Voxels, x: i32, y: i32, z: i32, id: VoxelId)
        requires
            self.after_set_block(before, x, y, z, id),
        ensures
            before.chunks().dom().contains(Voxels::key_of(x as int, y as int, z as int))
                ==> self.block(x as int, y as int, z as int) == id,
            !before.chunks().dom().contains(Voxels::key_of(x as int, y as int, z as int))
                ==> self.block(x as int, y as int, z as int) == VoxelId::air_spec()
                && before.block(x as int, y as int, z as int) == VoxelId::air_spec(),
    {
        let key = Voxels::key_of(x as int, y as int, z as int);
        if before.chunks().dom().contains(key) {
            before.chunks()[key].lemma_len();
        }
    }

    /// `set_block` leaves every other block as it was.
    pub proof fn lemma_set_keeps_others(
        &self,
        before: &Voxels,
        x: i32,
        y: i32,
        z: i32,
        id: VoxelId,
        u: i32,
        v: i32,
        w: i32,
    )
        requires
            self.after_set_block(before, x, y, z, id),
            (u, v, w) != (x, y, z),
        ensures
            self.block(u as int, v as int, w as int) == before.block(u as int, v as int, w as int),
    {
        let key = Voxels::key_of(x as int, y as int, z as int);
        let other = Voxels::key_of(u as int, v as int, w as int);
        if before.chunks().dom().contains(key) {
            before.chunks()[key].lemma_len();
            assert(self.chunks().dom().insert(key).contains(other) == before.chunks().dom().insert(
                key,
            ).contains(other));
            if other == key {
                crate::voxel::coords::lemma_split_rebuilds(x as int, 32);
                crate::voxel::coords::lemma_split_rebuilds(y as int, 32);
                crate::voxel::coords::lemma_split_rebuilds(z as int, 32);
                crate::voxel::coords::lemma_split_rebuilds(u as int, 32);
                crate::voxel::coords::lemma_split_rebuilds(v as int, 32);
                crate::voxel::coords::lemma_split_rebuilds(w as int, 32);
            }
        }
    }
}

} // verus!

verus! {

/// The registry entry of air: shown by nothing, solid for nothing.
pub open spec fn is_air_entry(entry: VoxelConfigEntry) -> bool {
    &&& entry.debug_name@ == "air"@
    &&& !entry.render
    &&& !entry.solid
    &&& entry.color == (Color { red: 0, green: 0, blue: 0, alpha: 0 })
}

impl Default for Voxels {
    /// The world without chunks, whose registry knows air alone.
    fn default() -> (world: Voxels)
        ensures
            world.wf(),
            world.chunks() == no_chunks(),
            world.configs().len() == 1,
            is_air_entry(world.configs()[0]),
            world.names() == no_names().insert("air"@, VoxelId::air_spec()),
            !world.mark(),
    {
        let air = VoxelId::air();
        let mut configs: Vec<VoxelConfigEntry> = Vec::new();
        configs.push(
            VoxelConfigEntry {
                debug_name: "air".to_owned(),
                render: false,
                solid: false,
                color: Color::rgba_u8(0, 0, 0, 0),
            },
        );
        let mut voxel_names = name_map_new();
        name_map_insert(&mut voxel_names, "air".to_owned(), air);
        Voxels {
            chunks: chunk_map_new(),
            configs,
            voxel_names,
            next_id: VoxelId::from_index(1),
            loaded_chunk_mark: false,
        }
    }
}

impl Voxels {
    /// Makes the chunk at `(x, y, z)` resident if it is not: a chunk of air
    /// with a new, empty scene entity, hidden. Returns whether it did; where
    /// the chunk was resident nothing happens, and nothing is asked of the
    /// scene graph.
    pub fn add_chunk(&mut self, commands: &mut Commands, x: i32, y: i32, z: i32) -> (inserted: bool)
        ensures
            inserted == !old(self).resident(x, y, z),
            final(self).after_add_chunk(old(self), x, y, z),
            final(self).resident(x, y, z),
            !inserted ==> *final(commands) == *old(commands),
            old(self).wf() ==> final(self).wf(),
            old(self).stamps_fresh() ==> final(self).stamps_fresh(),
    {
        if chunk_map_contains(&self.chunks, (x, y, z)) {
            return false;
        }
        let entity = spawn_empty(commands);
        let chunk = ChunkVoxels::new(entity);
        chunk_map_insert(&mut self.chunks, (x, y, z), chunk);
        true
    }

    /// Whether the chunk at `(x, y, z)` is resident.
    pub fn has_chunk(&self, x: i32, y: i32, z: i32) -> (found: bool)
        ensures
            found == self.resident(x, y, z),
    {
        chunk_map_contains(&self.chunks, (x, y, z))
    }

    /// The chunk at `(x, y, z)`, if it is resident.
    pub fn get_chunk(&self, x: i32, y: i32, z: i32) -> (chunk: Option<&ChunkVoxels>)
        ensures
            chunk.is_some() == self.resident(x, y, z),
            chunk.is_some() ==> *chunk.unwrap() == self.chunks()[(x, y, z)],
    {
        chunk_map_get(&self.chunks, (x, y, z))
    }

    /// The chunk at `(x, y, z)`, if it is resident, to be changed in place.
    /// The world afterwards holds what was written, and nothing else changes.
    pub fn get_chunk_mut(&mut self, x: i32, y: i32, z: i32) -> (chunk: Option<&mut ChunkVoxels>)
        ensures
            chunk.is_some() == old(self).resident(x, y, z),
            final(self).same_registry(old(self)),
            old(self).wf() ==> final(self).wf(),
            match chunk {
                Some(c) => *c == old(self).chunks()[(x, y, z)] && final(self).chunks() == old(
                    self,
                ).chunks().insert((x, y, z), *final(c)),
                None => final(self).chunks() == old(self).chunks(),
            },
    {
        chunk_map_get_mut(&mut self.chunks, (x, y, z))
    }

    /// Sets the block at a world coordinate. Where the owning chunk is not
    /// resident nothing happens.
    pub fn set_block(&mut self, x: i32, y: i32, z: i32, id: VoxelId)
        ensures
            final(self).after_set_block(old(self), x, y, z, id),
            old(self).wf() ==> final(self).wf(),
            old(self).stamps_fresh() ==> final(self).stamps_fresh(),
    {
        let (i, j, k) = (chunk_coord(x), chunk_coord(y), chunk_coord(z));
        match chunk_map_get_mut(&mut self.chunks, (i, j, k)) {
            Some(chunk) => {
                let (i, j, k) = (
                    local_coord(x) as usize,
                    local_coord(y) as usize,
                    local_coord(z) as usize,
                );
                chunk.set_block(i, j, k, id);
            },
            None => {},
        }
        proof {
            if old(self).stamps_fresh() {
                assert forall|key: (i32, i32, i32)| #[trigger]
                    self.chunks().dom().contains(key) && self.chunks()[key].spec_state().loaded
                        implies self.chunks()[key].spec_state().mark != self.mark() by {
                    assert(old(self).chunks().dom().contains(key));
                }
            }
        }
    }

    /// The block at a world coordinate: air where the owning chunk is not
    /// resident.
    pub fn get_block(&self, x: i32, y: i32, z: i32) -> (id: VoxelId)
        ensures
            id == self.block(x as int, y as int, z as int),
    {
        let (i, j, k) = (chunk_coord(x), chunk_coord(y), chunk_coord(z));
        match chunk_map_get(&self.chunks, (i, j, k)) {
            Some(chunk) => {
                let (i, j, k) = (local_coord(x), local_coord(y), local_coord(z));
                chunk.get_block(i, j, k)
            },
            None => VoxelId::air(),
        }
    }

    /// The registry entry of a block type; `None` for a handle that this
    /// registry did not hand out.
    pub fn get_voxel_config(&self, id: VoxelId) -> (entry: Option<&VoxelConfigEntry>)
        ensures
            entry.is_some() == self.registered(id),
            entry.is_some() ==> *entry.unwrap() == self.configs()[id.index() as int],
    {
        let i = id.id();
        if i < self.configs.len() {
            Some(&self.configs[i])
        } else {
            None
        }
    }

    /// The registry entry of a block type, to be edited in place; `None` for
    /// a handle that this registry did not hand out. The registry afterwards
    /// holds what was written at that handle, and nothing else changes.
    pub fn get_voxel_config_mut(&mut self, id: VoxelId) -> (entry: Option<&mut VoxelConfigEntry>)
        ensures
            entry.is_some() == old(self).registered(id),
            final(self).chunks() == old(self).chunks(),
            final(self).names() == old(self).names(),
            final(self).mark() == old(self).mark(),
            match entry {
                Some(e) => *e == old(self).configs()[id.index() as int] && final(self).configs()
                    == old(self).configs().update(id.index() as int, *final(e)),
                None => final(self).configs() == old(self).configs(),
            },
            final(self).configs().len() == old(self).configs().len(),
            old(self).wf() ==> final(self).wf(),
    {
        let i = id.id();
        if i < self.configs.len() {
            Some(&mut self.configs[i])
        } else {
            None
        }
    }

    /// The handle last registered under `name`, if there was one.
    pub fn id_from_name(&self, name: &str) -> (id: Option<VoxelId>)
        ensures
            id == if self.names().dom().contains(name@) {
                Some(self.names()[name@])
            } else {
                None
            },
            self.wf() && id.is_some() ==> self.registered(id.unwrap()),
    {
        name_map_get(&self.voxel_names, name)
    }

    /// The number of block types in the registry.
    pub fn voxel_count(&self) -> (n: usize)
        ensures
            n == self.configs().len(),
    {
        self.configs.len()
    }

    /// Registers a block type under `name` and returns its handle, the next
    /// in sequence. A name that was taken leads to the new handle from now
    /// on; the entry of the old one stays.
    pub fn add_voxel(&mut self, name: &str, data: VoxelConfigEntry) -> (id: VoxelId)
        requires
            old(self).wf(),
            old(self).configs().len() < u32::MAX,
        ensures
            final(self).wf(),
            id.index() == old(self).configs().len(),
            final(self).configs() == old(self).configs().push(data),
            final(self).names() == old(self).names().insert(name@, id),
            final(self).chunks() == old(self).chunks(),
            final(self).mark() == old(self).mark(),
    {
        let id = self.next_id;
        let next = self.configs.len() + 1;
        self.next_id = VoxelId::from_index(next as u32);
        self.configs.push(data);
        name_map_insert(&mut self.voxel_names, name.to_owned(), id);
        id
    }
}

} // verus!

verus! {

impl VoxelId {
    /// The registry entry of this block type.
    pub fn config(self, voxels: &Voxels) -> (entry: &VoxelConfigEntry)
        requires
            voxels.registered(self),
        ensures
            *entry == voxels.configs()[self.index() as int],
    {
        &voxels.configs[self.id()]
    }
}

impl Voxels {
    /// Every block of the chunk at `key` has an entry in the registry; true
    /// of a chunk that is not resident.
    pub open spec fn chunk_registered(&self, key: (i32, i32, i32)) -> bool {
        self.chunks().dom().contains(key) ==> forall|i: int|
            0 <= i < 32768 ==> self.registered(#[trigger] self.chunks()[key]@[i])
    }

    /// Adding the same chunk twice adds it once: the second call finds it
    /// resident and leaves the world as the first call left it.
    pub proof fn lemma_add_chunk_twice(
        &self,
        first: &Voxels,
        second: &Voxels,
        x: i32,
        y: i32,
        z: i32,
    )
        requires
            first.after_add_chunk(self, x, y, z),
            second.after_add_chunk(first, x, y, z),
        ensures
            first.resident(x, y, z),
            second.same_world(first),
    {
    }

    /// Whether every block of the chunk at `(x, y, z)` has an entry in the
    /// registry; true of a chunk that is not resident.
    pub fn blocks_registered(&self, x: i32, y: i32, z: i32) -> (ok: bool)
        ensures
            ok == self.chunk_registered((x, y, z)),
    {
        match chunk_map_get(&self.chunks, (x, y, z)) {
            None => true,
            Some(chunk) => {
                let voxels = chunk.voxels();
                let count = self.configs.len();
                let mut i: usize = 0;
                while i < 32768
                    invariant
                        0 <= i <= 32768,
                        count == self.configs().len(),
                        self.chunks().dom().contains((x, y, z)),
                        voxels@ == self.chunks()[(x, y, z)]@,
                        voxels@.len() == 32768,
                        forall|j: int| 0 <= j < i ==> self.registered(#[trigger] voxels@[j]),
                    decreases 32768 - i,
                {
                    if voxels[i].id() >= count {
                        assert(!self.registered(self.chunks()[(x, y, z)]@[i as int]));
                        return false;
                    }
                    i = i + 1;
                }
                true
            },
        }
    }
}

} // verus!

verus! {

impl Voxels {
    /// The stamp that the next streaming tick gives the chunks it wants.
    pub fn loaded_mark(&self) -> (mark: bool)
        ensures
            mark == self.mark(),
    {
        self.loaded_chunk_mark
    }

    /// Turns the stamp over, at the end of a streaming tick.
    pub(crate) fn flip_mark(&mut self)
        ensures
            final(self).mark() == !old(self).mark(),
            final(self).chunks() == old(self).chunks(),
            final(self).configs() == old(self).configs(),
            final(self).names() == old(self).names(),
            old(self).wf() ==> final(self).wf(),
    {
        self.loaded_chunk_mark = !self.loaded_chunk_mark;
    }

    /// The coordinates of the resident chunks, each of them, in no stated
    /// order.
    pub fn chunk_keys(&self) -> (keys: Vec<(i32, i32, i32)>)
        ensures
            forall|key: (i32, i32, i32)| keys@.contains(key) <==> self.chunks().dom().contains(key),
    {
        chunk_map_keys(&self.chunks)
    }
}

} // verus!
