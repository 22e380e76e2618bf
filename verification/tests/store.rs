use bevy::ecs::system::{CommandQueue, Commands};
use bevy::ecs::world::World;
use magic_game::voxel::coords::{chunk_coord, local_coord};
use magic_game::voxel::store::Voxels;
use magic_game::voxel::{
    get_chunk_voxel, set_chunk_voxel, Color, VoxelConfigEntry, VoxelId, CHUNK_SIZE, CHUNK_SIZE_CB,
    CHUNK_SIZE_I32, CHUNK_SIZE_SQ,
};

fn solid_entry() -> VoxelConfigEntry {
    VoxelConfigEntry {
        debug_name: "solid".to_owned(),
        render: true,
        solid: true,
        color: Color::rgb_u8(255, 255, 0),
    }
}

#[test]
fn chunk_constants_agree() {
    assert_eq!(CHUNK_SIZE, 32);
    assert_eq!(CHUNK_SIZE_I32, 32);
    assert_eq!(CHUNK_SIZE_SQ, 1024);
    assert_eq!(CHUNK_SIZE_CB, 32768);
}

#[test]
fn split_of_positive_coordinates() {
    assert_eq!(chunk_coord(0), 0);
    assert_eq!(local_coord(0), 0);
    assert_eq!(chunk_coord(31), 0);
    assert_eq!(local_coord(31), 31);
    assert_eq!(chunk_coord(32), 1);
    assert_eq!(local_coord(32), 0);
    assert_eq!(chunk_coord(100), 3);
    assert_eq!(local_coord(100), 4);
}

#[test]
fn split_of_negative_coordinates_floors() {
    assert_eq!(chunk_coord(-1), -1);
    assert_eq!(local_coord(-1), 31);
    assert_eq!(chunk_coord(-32), -1);
    assert_eq!(local_coord(-32), 0);
    assert_eq!(chunk_coord(-33), -2);
    assert_eq!(local_coord(-33), 31);
}

#[test]
fn split_rebuilds_every_coordinate() {
    let samples = [
        i32::MIN,
        i32::MIN + 1,
        -1_000_000,
        -65,
        -64,
        -33,
        -32,
        -31,
        -1,
        0,
        1,
        31,
        32,
        33,
        1_000_000,
        i32::MAX - 1,
        i32::MAX,
    ];
    for x in samples {
        let c = chunk_coord(x) as i64;
        let l = local_coord(x) as i64;
        assert!(0 <= l && l < 32);
        assert_eq!(c * 32 + l, x as i64);
    }
}

#[test]
fn split_at_the_ends_of_the_range() {
    assert_eq!(chunk_coord(i32::MAX), 67108863);
    assert_eq!(local_coord(i32::MAX), 31);
    assert_eq!(chunk_coord(i32::MIN), -67108864);
    assert_eq!(local_coord(i32::MIN), 0);
}

#[test]
fn air_is_handle_zero() {
    assert_eq!(VoxelId::air().id(), 0);
    assert_eq!(VoxelId::air(), VoxelId::air());
}

#[test]
fn new_world_knows_air_alone() {
    let voxels = Voxels::default();
    assert_eq!(voxels.voxel_count(), 1);
    assert_eq!(voxels.id_from_name("air"), Some(VoxelId::air()));
    assert_eq!(voxels.id_from_name("solid"), None);
    let air = voxels.get_voxel_config(VoxelId::air()).unwrap();
    assert_eq!(air.debug_name, "air");
    assert!(!air.render);
    assert!(!air.solid);
    assert_eq!(air.color, Color::rgba_u8(0, 0, 0, 0));
    assert!(!voxels.loaded_mark());
    assert!(voxels.chunk_keys().is_empty());
}

#[test]
fn add_voxel_hands_out_the_next_handle() {
    let mut voxels = Voxels::default();
    let solid = voxels.add_voxel("solid", solid_entry());
    assert_eq!(solid.id(), 1);
    assert_eq!(voxels.voxel_count(), 2);
    assert_eq!(voxels.id_from_name("solid"), Some(solid));
    assert_eq!(voxels.id_from_name("air"), Some(VoxelId::air()));
    let entry = solid.config(&voxels);
    assert_eq!(entry.debug_name, "solid");
    assert!(entry.render);
    assert!(entry.solid);
    assert_eq!(entry.color, Color { red: 255, green: 255, blue: 0, alpha: 255 });
}

#[test]
fn a_name_taken_twice_leads_to_the_later_handle() {
    let mut voxels = Voxels::default();
    let first = voxels.add_voxel("stone", solid_entry());
    let mut other = solid_entry();
    other.render = false;
    let second = voxels.add_voxel("stone", other);
    assert_eq!(first.id(), 1);
    assert_eq!(second.id(), 2);
    assert_eq!(voxels.id_from_name("stone"), Some(second));
    assert!(voxels.get_voxel_config(first).unwrap().render);
    assert!(!voxels.get_voxel_config(second).unwrap().render);
    assert_eq!(voxels.voxel_count(), 3);
}

#[test]
fn config_of_a_foreign_handle_is_none() {
    let mut big = Voxels::default();
    big.add_voxel("a", solid_entry());
    let b = big.add_voxel("b", solid_entry());
    let small = Voxels::default();
    assert!(small.get_voxel_config(b).is_none());
    let mut small = small;
    assert!(small.get_voxel_config_mut(b).is_none());
}

#[test]
fn config_can_be_edited_in_place() {
    let mut voxels = Voxels::default();
    let solid = voxels.add_voxel("solid", solid_entry());
    voxels.get_voxel_config_mut(solid).unwrap().solid = false;
    assert!(!voxels.get_voxel_config(solid).unwrap().solid);
    assert!(voxels.get_voxel_config(solid).unwrap().render);
    assert!(!voxels.get_voxel_config(VoxelId::air()).unwrap().render);
}

#[test]
fn add_chunk_twice_inserts_and_spawns_once() {
    let mut world = World::new();
    let mut queue = CommandQueue::default();
    let mut voxels = Voxels::default();
    {
        let mut commands = Commands::new(&mut queue, &world);
        assert!(!voxels.has_chunk(2, -1, 7));
        assert!(voxels.add_chunk(&mut commands, 2, -1, 7));
        assert!(voxels.has_chunk(2, -1, 7));
        let entity = voxels.get_chunk(2, -1, 7).unwrap().entity();
        assert!(!voxels.add_chunk(&mut commands, 2, -1, 7));
        assert!(voxels.has_chunk(2, -1, 7));
        assert_eq!(voxels.get_chunk(2, -1, 7).unwrap().entity(), entity);
        assert_eq!(voxels.chunk_keys(), vec![(2, -1, 7)]);
    }
    queue.apply(&mut world);
    assert_eq!(world.entities().len(), 1);
}

#[test]
fn a_new_chunk_is_air_and_hidden() {
    let world = World::new();
    let mut queue = CommandQueue::default();
    let mut commands = Commands::new(&mut queue, &world);
    let mut voxels = Voxels::default();
    assert!(voxels.add_chunk(&mut commands, 0, 0, 0));
    let chunk = voxels.get_chunk(0, 0, 0).unwrap();
    assert!(chunk.voxels().iter().all(|v| *v == VoxelId::air()));
    assert!(!chunk.state().loaded);
    assert!(!chunk.state().mark);
    assert!(voxels.get_chunk(1, 0, 0).is_none());
}

#[test]
fn distinct_chunks_get_distinct_entities() {
    let world = World::new();
    let mut queue = CommandQueue::default();
    let mut commands = Commands::new(&mut queue, &world);
    let mut voxels = Voxels::default();
    assert!(voxels.add_chunk(&mut commands, 0, 0, 0));
    assert!(voxels.add_chunk(&mut commands, 0, 0, 1));
    let a = voxels.get_chunk(0, 0, 0).unwrap().entity();
    let b = voxels.get_chunk(0, 0, 1).unwrap().entity();
    assert_ne!(a, b);
    let mut keys = voxels.chunk_keys();
    keys.sort();
    assert_eq!(keys, vec![(0, 0, 0), (0, 0, 1)]);
}

#[test]
fn set_block_then_get_block_in_a_resident_chunk() {
    let world = World::new();
    let mut queue = CommandQueue::default();
    let mut commands = Commands::new(&mut queue, &world);
    let mut voxels = Voxels::default();
    let solid = voxels.add_voxel("solid", solid_entry());
    voxels.add_chunk(&mut commands, 0, 0, 0);
    voxels.add_chunk(&mut commands, -1, -1, -1);
    voxels.set_block(3, 4, 5, solid);
    assert_eq!(voxels.get_block(3, 4, 5), solid);
    assert_eq!(voxels.get_block(3, 4, 6), VoxelId::air());
    assert_eq!(voxels.get_block(5, 4, 3), VoxelId::air());
    voxels.set_block(-1, -32, -17, solid);
    assert_eq!(voxels.get_block(-1, -32, -17), solid);
    assert_eq!(voxels.get_chunk(-1, -1, -1).unwrap().get_block(31, 0, 15), solid);
    assert_eq!(voxels.get_chunk(0, 0, 0).unwrap().voxels()[3 * 1024 + 4 * 32 + 5], solid);
    voxels.set_block(3, 4, 5, VoxelId::air());
    assert_eq!(voxels.get_block(3, 4, 5), VoxelId::air());
}

#[test]
fn set_block_outside_resident_chunks_does_nothing() {
    let world = World::new();
    let mut queue = CommandQueue::default();
    let mut commands = Commands::new(&mut queue, &world);
    let mut voxels = Voxels::default();
    let solid = voxels.add_voxel("solid", solid_entry());
    voxels.set_block(3, 4, 5, solid);
    assert_eq!(voxels.get_block(3, 4, 5), VoxelId::air());
    assert!(!voxels.has_chunk(0, 0, 0));
    voxels.add_chunk(&mut commands, 0, 0, 0);
    assert_eq!(voxels.get_block(3, 4, 5), VoxelId::air());
    voxels.set_block(32, 0, 0, solid);
    assert_eq!(voxels.get_block(32, 0, 0), VoxelId::air());
    assert!(voxels.get_chunk(0, 0, 0).unwrap().voxels().iter().all(|v| *v == VoxelId::air()));
}

#[test]
fn get_block_is_total() {
    let voxels = Voxels::default();
    assert_eq!(voxels.get_block(i32::MAX, i32::MIN, 0), VoxelId::air());
    assert_eq!(voxels.get_block(i32::MIN, i32::MAX, -1), VoxelId::air());
}

#[test]
fn chunk_local_reads_outside_the_chunk_are_air() {
    let world = World::new();
    let mut queue = CommandQueue::default();
    let mut commands = Commands::new(&mut queue, &world);
    let mut voxels = Voxels::default();
    let solid = voxels.add_voxel("solid", solid_entry());
    voxels.add_chunk(&mut commands, 0, 0, 0);
    for x in 0..32 {
        for y in 0..32 {
            for z in 0..32 {
                voxels.set_block(x, y, z, solid);
            }
        }
    }
    let chunk = voxels.get_chunk(0, 0, 0).unwrap();
    assert_eq!(chunk.get_block(0, 0, 0), solid);
    assert_eq!(chunk.get_block(31, 31, 31), solid);
    assert_eq!(chunk.get_block(32, 0, 0), VoxelId::air());
    assert_eq!(chunk.get_block(0, -1, 0), VoxelId::air());
    assert_eq!(chunk.get_block(0, 0, 32), VoxelId::air());
}

#[test]
fn get_chunk_mut_writes_through() {
    let world = World::new();
    let mut queue = CommandQueue::default();
    let mut commands = Commands::new(&mut queue, &world);
    let mut voxels = Voxels::default();
    let solid = voxels.add_voxel("solid", solid_entry());
    voxels.add_chunk(&mut commands, 1, 2, 3);
    assert!(voxels.get_chunk_mut(0, 0, 0).is_none());
    voxels.get_chunk_mut(1, 2, 3).unwrap().set_block(1, 2, 3, solid);
    assert_eq!(voxels.get_block(32 + 1, 64 + 2, 96 + 3), solid);
}

#[test]
fn array_accessors_check_their_bounds() {
    let mut voxels = Voxels::default();
    let solid = voxels.add_voxel("solid", solid_entry());
    let mut chunk = Box::new([VoxelId::air(); CHUNK_SIZE_CB]);
    set_chunk_voxel(&mut chunk, 1, 2, 3, solid);
    assert_eq!(chunk[1 * 1024 + 2 * 32 + 3], solid);
    assert_eq!(get_chunk_voxel(&mut chunk, 1, 2, 3), Some(solid));
    assert_eq!(get_chunk_voxel(&mut chunk, 3, 2, 1), Some(VoxelId::air()));
    assert_eq!(get_chunk_voxel(&mut chunk, 32, 0, 0), None);
    assert_eq!(get_chunk_voxel(&mut chunk, 0, -1, 0), None);
    assert_eq!(get_chunk_voxel(&mut chunk, 0, 0, 32), None);
    let before = chunk.clone();
    set_chunk_voxel(&mut chunk, -1, 0, 0, solid);
    set_chunk_voxel(&mut chunk, 0, 32, 0, solid);
    set_chunk_voxel(&mut chunk, 0, 0, i32::MAX, solid);
    assert!(chunk.iter().zip(before.iter()).all(|(a, b)| a == b));
    set_chunk_voxel(&mut chunk, 31, 31, 31, solid);
    assert_eq!(chunk[CHUNK_SIZE_CB - 1], solid);
}

#[test]
fn blocks_registered_sees_foreign_handles() {
    let world = World::new();
    let mut queue = CommandQueue::default();
    let mut commands = Commands::new(&mut queue, &world);
    let mut big = Voxels::default();
    big.add_voxel("a", solid_entry());
    let foreign = big.add_voxel("b", solid_entry());
    let mut voxels = Voxels::default();
    let solid = voxels.add_voxel("solid", solid_entry());
    voxels.add_chunk(&mut commands, 0, 0, 0);
    assert!(voxels.blocks_registered(0, 0, 0));
    assert!(voxels.blocks_registered(5, 5, 5));
    voxels.set_block(1, 1, 1, solid);
    assert!(voxels.blocks_registered(0, 0, 0));
    voxels.set_block(31, 31, 31, foreign);
    assert!(!voxels.blocks_registered(0, 0, 0));
}
