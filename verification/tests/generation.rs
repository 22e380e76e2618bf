use bevy::ecs::system::{CommandQueue, Commands};
use bevy::ecs::world::World;
use magic_game::voxel::components::{ConstructChunkMesh, GenerateChunk};
use magic_game::voxel::generation::{
    commit_generated, fill_terrain, keep_if_complete, run_generator, ChunkGenerator,
    TERRAIN_LAYERS,
};
use magic_game::voxel::loader::{load_chunks, Observer};
use magic_game::voxel::components::ChunkLoader;
use magic_game::voxel::store::Voxels;
use magic_game::voxel::{set_chunk_voxel, Color, VoxelConfigEntry, VoxelId, CHUNK_SIZE_CB};
use std::sync::{Arc, RwLock};

fn solid_entry() -> VoxelConfigEntry {
    VoxelConfigEntry {
        debug_name: "solid".to_owned(),
        render: true,
        solid: true,
        color: Color::rgb_u8(255, 255, 0),
    }
}

struct Floor {
    calls: usize,
}

impl ChunkGenerator for Floor {
    fn generate(
        &mut self,
        _chunk_x: i32,
        chunk_y: i32,
        _chunk_z: i32,
        voxels: &Voxels,
        chunk_voxels: &mut [VoxelId; CHUNK_SIZE_CB],
    ) -> bool {
        self.calls += 1;
        assert!(chunk_voxels.iter().all(|v| *v == VoxelId::air()));
        if chunk_y != 0 {
            return false;
        }
        let solid = voxels.id_from_name("solid").unwrap();
        for x in 0..32 {
            for z in 0..32 {
                set_chunk_voxel(chunk_voxels, x, 0, z, solid);
            }
        }
        true
    }
}

#[test]
fn terrain_fills_the_bottom_layers_where_the_sampler_says_so() {
    let mut voxels = Voxels::default();
    let solid = voxels.add_voxel("solid", solid_entry());
    let mut chunk = Box::new([VoxelId::air(); CHUNK_SIZE_CB]);
    fill_terrain(&mut chunk, solid, &|x: i32, y: i32, z: i32| (x + y + z) % 2 == 0);
    assert_eq!(TERRAIN_LAYERS, 5);
    for x in 0..32usize {
        for y in 0..32usize {
            for z in 0..32usize {
                let want = if y < 5 && (x + y + z) % 2 == 0 { solid } else { VoxelId::air() };
                assert_eq!(chunk[x * 1024 + y * 32 + z], want);
            }
        }
    }
}

#[test]
fn terrain_asks_the_sampler_once_for_each_block_of_the_layers() {
    let mut voxels = Voxels::default();
    let solid = voxels.add_voxel("solid", solid_entry());
    let mut chunk = Box::new([VoxelId::air(); CHUNK_SIZE_CB]);
    chunk[6 * 32] = solid;
    let asked = std::cell::RefCell::new(Vec::new());
    fill_terrain(&mut chunk, solid, &|x: i32, y: i32, z: i32| {
        asked.borrow_mut().push((x, y, z));
        false
    });
    let asked = asked.into_inner();
    assert_eq!(asked.len(), 32 * 5 * 32);
    assert_eq!(asked[0], (0, 0, 0));
    assert_eq!(asked[1], (0, 0, 1));
    assert_eq!(asked[32], (0, 1, 0));
    assert_eq!(asked[160], (1, 0, 0));
    assert!(asked.iter().all(|&(x, y, z)| 0 <= x && x < 32 && 0 <= y && y < 5 && 0 <= z && z < 32));
    assert_eq!(chunk.iter().filter(|v| **v == solid).count(), 1);
    assert_eq!(chunk[6 * 32], solid);
}

#[test]
fn a_generated_array_takes_the_place_of_the_chunk() {
    let world = World::new();
    let mut queue = CommandQueue::default();
    let mut commands = Commands::new(&mut queue, &world);
    let mut voxels = Voxels::default();
    let solid = voxels.add_voxel("solid", solid_entry());
    voxels.add_chunk(&mut commands, 3, 0, -2);
    voxels.add_chunk(&mut commands, 0, 0, 0);
    voxels.set_block(96 + 1, 20, -64 + 1, solid);
    let entity = voxels.get_chunk(3, 0, -2).unwrap().entity();
    let mut generator = Floor { calls: 0 };
    let request = GenerateChunk::new(3, 0, -2);
    let generated = run_generator(&mut generator, &voxels, &request);
    assert!(generated.is_some());
    assert_eq!(generator.calls, 1);
    let next = commit_generated(&mut voxels, &request, generated);
    assert_eq!(next, Some(ConstructChunkMesh::new(3, 0, -2)));
    assert_eq!(voxels.get_block(96, 0, -64), solid);
    assert_eq!(voxels.get_block(96 + 31, 0, -64 + 31), solid);
    assert_eq!(voxels.get_block(96, 1, -64), VoxelId::air());
    assert_eq!(voxels.get_block(96 + 1, 20, -64 + 1), VoxelId::air());
    assert_eq!(voxels.get_block(0, 0, 0), VoxelId::air());
    assert_eq!(voxels.get_chunk(3, 0, -2).unwrap().entity(), entity);
    assert!(!voxels.get_chunk(3, 0, -2).unwrap().state().loaded);
}

#[test]
fn a_generator_that_defers_drops_the_request() {
    let world = World::new();
    let mut queue = CommandQueue::default();
    let mut commands = Commands::new(&mut queue, &world);
    let mut voxels = Voxels::default();
    let solid = voxels.add_voxel("solid", solid_entry());
    voxels.add_chunk(&mut commands, 0, 1, 0);
    voxels.set_block(0, 32, 0, solid);
    let mut generator = Floor { calls: 0 };
    let request = GenerateChunk::new(0, 1, 0);
    let generated = run_generator(&mut generator, &voxels, &request);
    assert!(generated.is_none());
    assert_eq!(commit_generated(&mut voxels, &request, generated), None);
    assert_eq!(voxels.get_block(0, 32, 0), solid);
    let absent = GenerateChunk::new(9, 9, 9);
    assert_eq!(commit_generated(&mut voxels, &absent, None), None);
    assert!(!voxels.has_chunk(9, 9, 9));
}

fn floor_blocks(voxels: &Voxels, cx: i32) -> usize {
    voxels.get_chunk(cx, 0, 0).unwrap().voxels().iter().filter(|v| **v != VoxelId::air()).count()
}

fn two_observed_chunks() -> (Voxels, VoxelId, Vec<GenerateChunk>) {
    let world = World::new();
    let mut queue = CommandQueue::default();
    let mut commands = Commands::new(&mut queue, &world);
    let mut voxels = Voxels::default();
    let solid = voxels.add_voxel("solid", solid_entry());
    let observers = vec![
        Observer {
            loader: ChunkLoader { x_radius: 0, y_radius: 0, z_radius: 0 },
            chunk_x: 0,
            chunk_y: 0,
            chunk_z: 0,
        },
        Observer {
            loader: ChunkLoader { x_radius: 0, y_radius: 0, z_radius: 0 },
            chunk_x: 1,
            chunk_y: 0,
            chunk_z: 0,
        },
    ];
    let requests = load_chunks(&mut voxels, &mut commands, &observers);
    (voxels, solid, requests)
}

#[test]
fn two_requests_through_the_queues_populate_both_chunks() {
    let (voxels, solid, requests) = two_observed_chunks();
    assert_eq!(requests, vec![GenerateChunk::new(0, 0, 0), GenerateChunk::new(1, 0, 0)]);

    let shared = Arc::new(RwLock::new(voxels));
    let (request_tx, request_rx) = crossbeam_channel::unbounded::<GenerateChunk>();
    let (done_tx, done_rx) = crossbeam_channel::unbounded::<ConstructChunkMesh>();
    for request in requests {
        request_tx.send(request).unwrap();
    }

    let mut generator = Floor { calls: 0 };
    let mut steps = 0;
    while let Ok(request) = request_rx.try_recv() {
        let generated = {
            let world = shared.read().unwrap();
            for cx in 0..2 {
                let floor = floor_blocks(&world, cx);
                assert!(floor == 0 || floor == 32 * 32);
            }
            run_generator(&mut generator, &world, &request)
        };
        let next = {
            let mut world = shared.write().unwrap();
            commit_generated(&mut world, &request, generated)
        };
        done_tx.send(next.unwrap()).unwrap();
        steps += 1;
        let world = shared.read().unwrap();
        let populated = (0..2).filter(|cx| floor_blocks(&world, *cx) == 32 * 32).count();
        assert_eq!(populated, steps);
    }
    assert_eq!(generator.calls, 2);

    let done: Vec<ConstructChunkMesh> = done_rx.try_iter().collect();
    assert_eq!(done, vec![ConstructChunkMesh::new(0, 0, 0), ConstructChunkMesh::new(1, 0, 0)]);
    let world = shared.read().unwrap();
    for cx in 0..2 {
        assert_eq!(world.get_block(cx * 32 + 5, 0, 7), solid);
        assert_eq!(world.get_block(cx * 32 + 5, 1, 7), VoxelId::air());
        assert_eq!(floor_blocks(&world, cx), 32 * 32);
    }
}

#[test]
fn requests_may_complete_in_either_order() {
    let (mut voxels, solid, requests) = two_observed_chunks();
    let mut generator = Floor { calls: 0 };
    let first = run_generator(&mut generator, &voxels, &requests[0]);
    let second = run_generator(&mut generator, &voxels, &requests[1]);
    assert_eq!(
        commit_generated(&mut voxels, &requests[1], second),
        Some(ConstructChunkMesh::new(1, 0, 0))
    );
    assert_eq!(floor_blocks(&voxels, 0), 0);
    assert_eq!(floor_blocks(&voxels, 1), 32 * 32);
    assert_eq!(
        commit_generated(&mut voxels, &requests[0], first),
        Some(ConstructChunkMesh::new(0, 0, 0))
    );
    assert_eq!(floor_blocks(&voxels, 0), 32 * 32);
    assert_eq!(floor_blocks(&voxels, 1), 32 * 32);
    assert_eq!(voxels.get_block(0, 0, 0), solid);
    assert_eq!(voxels.get_block(63, 0, 31), solid);
}

#[test]
fn only_a_complete_array_is_kept() {
    let mut voxels = Voxels::default();
    let solid = voxels.add_voxel("solid", solid_entry());
    let mut chunk = Box::new([VoxelId::air(); CHUNK_SIZE_CB]);
    chunk[77] = solid;
    assert!(keep_if_complete(false, chunk.clone()).is_none());
    let kept = keep_if_complete(true, chunk).unwrap();
    assert_eq!(kept[77], solid);
    assert_eq!(kept.iter().filter(|v| **v == solid).count(), 1);
}

struct Recorder {
    seen: Vec<(i32, i32, i32, usize)>,
}

impl ChunkGenerator for Recorder {
    fn generate(
        &mut self,
        chunk_x: i32,
        chunk_y: i32,
        chunk_z: i32,
        voxels: &Voxels,
        chunk_voxels: &mut [VoxelId; CHUNK_SIZE_CB],
    ) -> bool {
        let air = chunk_voxels.iter().filter(|v| **v == VoxelId::air()).count();
        self.seen.push((chunk_x, chunk_y, chunk_z, air));
        chunk_voxels[0] = voxels.id_from_name("solid").unwrap();
        true
    }
}

#[test]
fn the_generator_is_asked_for_the_requested_chunk() {
    let mut voxels = Voxels::default();
    let solid = voxels.add_voxel("solid", solid_entry());
    let mut generator = Recorder { seen: Vec::new() };
    let first = run_generator(&mut generator, &voxels, &GenerateChunk::new(1, -2, 3)).unwrap();
    let second = run_generator(&mut generator, &voxels, &GenerateChunk::new(-7, 8, 9)).unwrap();
    assert_eq!(generator.seen, vec![(1, -2, 3, CHUNK_SIZE_CB), (-7, 8, 9, CHUNK_SIZE_CB)]);
    assert_eq!(first[0], solid);
    assert_eq!(second[0], solid);
    assert_eq!(first.iter().filter(|v| **v == solid).count(), 1);
}
