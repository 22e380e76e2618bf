use bevy::ecs::system::{CommandQueue, Commands};
use bevy::ecs::world::World;
use magic_game::voxel::components::{ChunkLoader, GenerateChunk};
use magic_game::voxel::loader::{load_chunks, Observer};
use magic_game::voxel::store::Voxels;
use magic_game::voxel::{Color, VoxelConfigEntry};

fn observer(x: i32, y: i32, z: i32, rx: i32, ry: i32, rz: i32) -> Observer {
    Observer {
        loader: ChunkLoader { x_radius: rx, y_radius: ry, z_radius: rz },
        chunk_x: x,
        chunk_y: y,
        chunk_z: z,
    }
}

fn shown(voxels: &Voxels, x: i32, y: i32, z: i32) -> bool {
    voxels.get_chunk(x, y, z).unwrap().state().loaded
}

#[test]
fn a_tick_makes_the_box_resident_and_shown() {
    let mut world = World::new();
    let mut queue = CommandQueue::default();
    let mut voxels = Voxels::default();
    {
        let mut commands = Commands::new(&mut queue, &world);
        let requests = load_chunks(&mut voxels, &mut commands, &vec![observer(0, 0, 0, 1, 0, 2)]);
        assert_eq!(requests.len(), 3 * 1 * 5);
        assert_eq!(requests[0], GenerateChunk::new(-1, 0, -2));
        assert_eq!(requests[1], GenerateChunk::new(-1, 0, -1));
        assert_eq!(requests[5], GenerateChunk::new(0, 0, -2));
        assert_eq!(requests[14], GenerateChunk::new(1, 0, 2));
        for x in -1..=1 {
            for z in -2..=2 {
                assert!(voxels.has_chunk(x, 0, z));
                assert!(shown(&voxels, x, 0, z));
                assert!(!voxels.get_chunk(x, 0, z).unwrap().state().mark);
            }
        }
        assert!(!voxels.has_chunk(2, 0, 0));
        assert!(!voxels.has_chunk(0, 1, 0));
        assert!(!voxels.has_chunk(0, 0, 3));
        assert_eq!(voxels.chunk_keys().len(), 15);
        assert!(voxels.loaded_mark());
    }
    queue.apply(&mut world);
    assert_eq!(world.entities().len(), 15);
}

#[test]
fn chunks_left_behind_are_hidden_and_keep_their_blocks() {
    let world = World::new();
    let mut queue = CommandQueue::default();
    let mut commands = Commands::new(&mut queue, &world);
    let mut voxels = Voxels::default();
    let solid = voxels.add_voxel(
        "solid",
        VoxelConfigEntry {
            debug_name: "solid".to_owned(),
            render: true,
            solid: true,
            color: Color::rgb_u8(255, 255, 0),
        },
    );
    let first = load_chunks(&mut voxels, &mut commands, &vec![observer(0, 0, 0, 1, 0, 0)]);
    assert_eq!(first.len(), 3);
    voxels.set_block(-32 + 7, 8, 9, solid);
    let entity = voxels.get_chunk(-1, 0, 0).unwrap().entity();

    let second = load_chunks(&mut voxels, &mut commands, &vec![observer(1, 0, 0, 1, 0, 0)]);
    assert_eq!(second, vec![GenerateChunk::new(2, 0, 0)]);
    assert!(voxels.has_chunk(-1, 0, 0));
    assert!(!shown(&voxels, -1, 0, 0));
    assert!(shown(&voxels, 0, 0, 0));
    assert!(shown(&voxels, 1, 0, 0));
    assert!(shown(&voxels, 2, 0, 0));
    assert_eq!(voxels.get_block(-32 + 7, 8, 9), solid);
    assert_eq!(voxels.get_chunk(-1, 0, 0).unwrap().entity(), entity);

    let third = load_chunks(&mut voxels, &mut commands, &vec![observer(1, 0, 0, 1, 0, 0)]);
    assert!(third.is_empty());
    assert!(!shown(&voxels, -1, 0, 0));
    assert!(shown(&voxels, 0, 0, 0) && shown(&voxels, 1, 0, 0) && shown(&voxels, 2, 0, 0));

    let fourth = load_chunks(&mut voxels, &mut commands, &vec![observer(-1, 0, 0, 0, 0, 0)]);
    assert!(fourth.is_empty());
    assert!(shown(&voxels, -1, 0, 0));
    assert!(!shown(&voxels, 0, 0, 0) && !shown(&voxels, 1, 0, 0) && !shown(&voxels, 2, 0, 0));
    assert_eq!(voxels.get_block(-32 + 7, 8, 9), solid);
    assert_eq!(voxels.chunk_keys().len(), 4);
}

#[test]
fn a_tick_without_observers_hides_everything() {
    let world = World::new();
    let mut queue = CommandQueue::default();
    let mut commands = Commands::new(&mut queue, &world);
    let mut voxels = Voxels::default();
    load_chunks(&mut voxels, &mut commands, &vec![observer(5, 5, 5, 0, 0, 0)]);
    assert!(shown(&voxels, 5, 5, 5));
    let requests = load_chunks(&mut voxels, &mut commands, &Vec::new());
    assert!(requests.is_empty());
    assert!(voxels.has_chunk(5, 5, 5));
    assert!(!shown(&voxels, 5, 5, 5));
    assert!(!voxels.loaded_mark());
}

#[test]
fn overlapping_observers_ask_once_for_each_chunk() {
    let world = World::new();
    let mut queue = CommandQueue::default();
    let mut commands = Commands::new(&mut queue, &world);
    let mut voxels = Voxels::default();
    let observers = vec![observer(0, 0, 0, 1, 0, 0), observer(1, 0, 0, 1, 0, 0), observer(9, 9, 9, 0, 0, 0)];
    let requests = load_chunks(&mut voxels, &mut commands, &observers);
    assert_eq!(
        requests,
        vec![
            GenerateChunk::new(-1, 0, 0),
            GenerateChunk::new(0, 0, 0),
            GenerateChunk::new(1, 0, 0),
            GenerateChunk::new(2, 0, 0),
            GenerateChunk::new(9, 9, 9),
        ]
    );
    for (x, y, z) in [(-1, 0, 0), (0, 0, 0), (1, 0, 0), (2, 0, 0), (9, 9, 9)] {
        assert!(shown(&voxels, x, y, z));
    }
}

#[test]
fn a_negative_radius_wants_nothing() {
    let world = World::new();
    let mut queue = CommandQueue::default();
    let mut commands = Commands::new(&mut queue, &world);
    let mut voxels = Voxels::default();
    let requests = load_chunks(&mut voxels, &mut commands, &vec![observer(0, 0, 0, 3, -1, 3)]);
    assert!(requests.is_empty());
    assert!(voxels.chunk_keys().is_empty());
    assert!(voxels.loaded_mark());
}

#[test]
fn a_chunk_added_by_hand_is_shown_once_it_is_wanted() {
    let world = World::new();
    let mut queue = CommandQueue::default();
    let mut commands = Commands::new(&mut queue, &world);
    let mut voxels = Voxels::default();
    assert!(voxels.add_chunk(&mut commands, 0, 0, 0));
    assert!(!shown(&voxels, 0, 0, 0));
    let requests = load_chunks(&mut voxels, &mut commands, &vec![observer(0, 0, 0, 0, 0, 0)]);
    assert!(requests.is_empty());
    assert!(shown(&voxels, 0, 0, 0));
}

#[test]
fn a_tick_that_adds_nothing_spawns_nothing() {
    let mut world = World::new();
    let mut queue = CommandQueue::default();
    let mut voxels = Voxels::default();
    {
        let mut commands = Commands::new(&mut queue, &world);
        let first = load_chunks(&mut voxels, &mut commands, &vec![observer(0, 0, 0, 1, 1, 0)]);
        assert_eq!(first.len(), 9);
    }
    queue.apply(&mut world);
    assert_eq!(world.entities().len(), 9);
    {
        let mut commands = Commands::new(&mut queue, &world);
        let again = load_chunks(&mut voxels, &mut commands, &vec![observer(0, 0, 0, 1, 1, 0)]);
        assert!(again.is_empty());
        let inside = load_chunks(&mut voxels, &mut commands, &vec![observer(0, 1, 0, 0, 0, 0)]);
        assert!(inside.is_empty());
    }
    queue.apply(&mut world);
    assert_eq!(world.entities().len(), 9);
    assert_eq!(voxels.chunk_keys().len(), 9);
}
