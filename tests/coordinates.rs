use cairn::{ChunkPosition, LocalChunkPosition, WorldPosition, CHUNK_SIZE};

#[test]
fn negative_world_position_splits_with_floor_division() {
    let p = WorldPosition::new(-1, 33, -64);
    let (chunk, local) = p.local_chunk_position();
    assert_eq!(chunk, ChunkPosition::new(-1, 1, -2));
    assert_eq!(local, LocalChunkPosition::new(31, 1, 0));
    assert_eq!(p.chunk_position(), chunk);
}

#[test]
fn world_position_round_trips_through_chunk_and_local() {
    let samples = [
        (0, 0, 0),
        (-1, -1, -1),
        (31, 32, -33),
        (i32::MAX, i32::MIN, 12345),
        (-2147483647, 2147483646, -32),
    ];
    for (x, y, z) in samples {
        let p = WorldPosition::new(x, y, z);
        let (chunk, local) = p.local_chunk_position();
        let (lx, ly, lz) = local.get();
        assert!(lx < CHUNK_SIZE && ly < CHUNK_SIZE && lz < CHUNK_SIZE);
        assert_eq!(local.world_position(chunk), p);
    }
}

#[test]
fn local_positions_stay_inside_the_chunk() {
    for x in -70..70 {
        let (_, local) = WorldPosition::new(x, -x, 3 * x).local_chunk_position();
        let (lx, ly, lz) = local.get();
        assert!(lx < CHUNK_SIZE);
        assert!(ly < CHUNK_SIZE);
        assert!(lz < CHUNK_SIZE);
    }
}

#[test]
fn world_position_of_local_position() {
    let local = LocalChunkPosition::new(5, 0, 31);
    let p = local.world_position(ChunkPosition::new(2, -1, 0));
    assert_eq!(p.get(), (69, -32, 31));
}

#[test]
fn world_neighbours_step_one_voxel() {
    let p = WorldPosition::new(10, 20, 30);
    assert_eq!(p.front().get(), (10, 20, 31));
    assert_eq!(p.back().get(), (10, 20, 29));
    assert_eq!(p.right().get(), (11, 20, 30));
    assert_eq!(p.left().get(), (9, 20, 30));
    assert_eq!(p.top().get(), (10, 21, 30));
    assert_eq!(p.bottom().get(), (10, 19, 30));
}

#[test]
fn local_neighbours_leave_the_chunk_at_its_faces() {
    let corner = LocalChunkPosition::new(0, 31, 0);
    assert_eq!(corner.left().get(), (usize::MAX, 31, 0));
    assert_eq!(corner.back().get(), (0, 31, usize::MAX));
    assert_eq!(corner.top().get(), (0, 32, 0));
    assert_eq!(corner.right().get(), (1, 31, 0));
    assert_eq!(corner.bottom().get(), (0, 30, 0));
    assert_eq!(corner.front().get(), (0, 31, 1));
}
