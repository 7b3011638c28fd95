use cairn::world::{chunk_in_range, determine_chunks_in_range};
use cairn::{ChunkPosition, Mesh, TerrainGenerator, VoxelType, World, WorldPosition};

fn distance_squared(a: ChunkPosition, b: ChunkPosition) -> i32 {
    let (ax, ay, az) = a.get();
    let (bx, by, bz) = b.get();
    (ax - bx).pow(2) + (ay - by).pow(2) + (az - bz).pow(2)
}

#[test]
fn chunks_in_range_are_nearest_first() {
    let origin = ChunkPosition::new(3, -2, 100);
    let order = determine_chunks_in_range(origin);
    assert_eq!(order.len(), 113 * 7);
    assert_eq!(order[0], origin);
    for pair in order.windows(2) {
        let (a, b) = (distance_squared(origin, pair[0]), distance_squared(origin, pair[1]));
        assert!(a < b || (a == b && pair[0].get() < pair[1].get()));
    }
    for p in &order {
        assert!(chunk_in_range(origin, *p));
    }
}

#[test]
fn range_is_a_cylinder() {
    let origin = ChunkPosition::new(0, 0, 0);
    assert!(chunk_in_range(origin, ChunkPosition::new(6, 3, 0)));
    assert!(chunk_in_range(origin, ChunkPosition::new(-4, -3, 4)));
    assert!(!chunk_in_range(origin, ChunkPosition::new(5, 0, 4)));
    assert!(!chunk_in_range(origin, ChunkPosition::new(0, 4, 0)));
    assert!(!chunk_in_range(origin, ChunkPosition::new(10, 0, 0)));
}

#[test]
fn streaming_twice_with_one_origin_changes_nothing() {
    let mut world = World::with_generator(TerrainGenerator::Empty);
    let origin = ChunkPosition::new(1, 0, -1);
    world.update_chunks(origin);
    let first = world.chunk_positions().clone();
    let mesh = Mesh::world(&mut world);
    assert_eq!(mesh.vertex_count(), 0);
    assert!(world.uncached_chunk_positions().is_empty());
    world.update_chunks(origin);
    assert_eq!(world.chunk_positions(), &first);
    assert!(world.uncached_chunk_positions().is_empty());
    assert_eq!(world.last_update_position(), Some(origin));
}

#[test]
fn streaming_evicts_chunks_out_of_range() {
    let mut world = World::with_generator(TerrainGenerator::Empty);
    world.update_chunks(ChunkPosition::new(0, 0, 0));
    let chunk = world.chunk(ChunkPosition::new(2, 0, 0)).unwrap().clone();
    world.insert_chunk_mesh(&ChunkPosition::new(2, 0, 0), Mesh::new());
    world.insert_chunk_mesh(&ChunkPosition::new(-3, 0, 0), Mesh::new());
    world.update_chunks(ChunkPosition::new(8, 0, 0));
    for p in world.chunk_positions() {
        assert!(chunk_in_range(ChunkPosition::new(8, 0, 0), *p));
    }
    assert!(world.chunk(ChunkPosition::new(0, 0, 0)).is_none());
    assert!(world.chunk(ChunkPosition::new(14, 0, 0)).is_some());
    assert!(world.cached_mesh(ChunkPosition::new(2, 0, 0)).is_some());
    assert!(world.cached_mesh(ChunkPosition::new(-3, 0, 0)).is_none());
    assert_eq!(world.chunk(ChunkPosition::new(2, 0, 0)).unwrap().position(), chunk.position());
}

#[test]
fn unloaded_chunks_read_as_air() {
    let world = World::new();
    assert_eq!(world.get_voxel_type(WorldPosition::new(0, 0, 0)), VoxelType::Air);
    assert!(!world.get_is_occluding(WorldPosition::new(5, 5, 5)));
    let n = world.get_occluding_neighbors(WorldPosition::new(5, 5, 5));
    assert!(!n.front && !n.back && !n.right && !n.left && !n.top && !n.bottom);
    assert_eq!(world.last_update_position(), None);
}

#[test]
fn loaded_terrain_answers_queries() {
    let mut world = World::new();
    world.update_chunks(ChunkPosition::new(0, 0, 0));
    assert_eq!(world.get_voxel_type(WorldPosition::new(0, 31, 0)), VoxelType::Grass);
    assert_eq!(world.get_voxel_type(WorldPosition::new(-1, 28, -1)), VoxelType::Dirt);
    assert_eq!(world.get_voxel_type(WorldPosition::new(100, 0, 50)), VoxelType::Stone);
    assert_eq!(world.get_voxel_type(WorldPosition::new(0, 32, 0)), VoxelType::Air);
    assert_eq!(world.get_voxel_type(WorldPosition::new(0, -1, 0)), VoxelType::Air);
    assert!(world.get_is_occluding(WorldPosition::new(3, 3, 3)));
}

#[test]
fn end_to_end_streaming_and_meshing() {
    let mut world = World::new();
    world.update_chunks(ChunkPosition::new(0, 0, 0));
    assert!(world.chunk(ChunkPosition::new(0, 0, 0)).is_some());
    assert!(world.chunk(ChunkPosition::new(10, 0, 0)).is_none());
    for p in [
        ChunkPosition::new(0, 0, 0),
        ChunkPosition::new(6, 0, 0),
        ChunkPosition::new(-4, 0, 4),
    ] {
        let chunk = world.chunk(p).unwrap();
        let mesh = Mesh::chunk(&world, chunk, world.voxel_registry());
        assert!(mesh.vertex_count() > 0);
        assert!(mesh.index_count() > 0);
    }
    let sky = world.chunk(ChunkPosition::new(0, 1, 0)).unwrap();
    let mesh = Mesh::chunk(&world, sky, world.voxel_registry());
    assert_eq!(mesh.vertex_count(), 0);
    assert_eq!(mesh.index_count(), 0);
}
