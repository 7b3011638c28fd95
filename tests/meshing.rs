use cairn::{
    ChunkPosition, Mesh, OccludingVoxelNeighbors, TextureEdge, TextureType, Vertex, VoxelProperties,
    VoxelRegistry, VoxelType, World, WorldPosition,
};

const MIN: TextureEdge = TextureEdge::Min;
const MAX: TextureEdge = TextureEdge::Max;

fn open() -> OccludingVoxelNeighbors {
    OccludingVoxelNeighbors::new(false, false, false, false, false, false)
}

#[test]
fn isolated_voxel_draws_six_faces() {
    let registry = VoxelRegistry::init();
    let props = registry.get_properties(&VoxelType::Stone);
    let mesh = Mesh::voxel(WorldPosition::new(0, 0, 0), props, &open());
    assert_eq!(mesh.vertex_count(), 24);
    assert_eq!(mesh.index_count(), 36);
    for (face, quad) in mesh.indices().chunks(6).enumerate() {
        let base = 4 * face as u32;
        assert_eq!(quad, &[base, base + 1, base + 2, base + 2, base + 3, base]);
    }
}

#[test]
fn enclosed_voxel_draws_nothing() {
    let registry = VoxelRegistry::init();
    let props = registry.get_properties(&VoxelType::Stone);
    let closed = OccludingVoxelNeighbors::new(true, true, true, true, true, true);
    let mesh = Mesh::voxel(WorldPosition::new(4, 5, 6), props, &closed);
    assert_eq!(mesh.vertex_count(), 0);
    assert_eq!(mesh.index_count(), 0);
}

#[test]
fn buried_voxel_in_terrain_draws_nothing() {
    let mut world = World::new();
    world.update_chunks(ChunkPosition::new(0, 0, 0));
    let p = WorldPosition::new(5, 5, 5);
    let neighbors = world.get_occluding_neighbors(p);
    let props = world.voxel_registry().get_properties(&VoxelType::Stone);
    assert_eq!(Mesh::voxel(p, props, &neighbors).vertex_count(), 0);
    let surface = WorldPosition::new(5, 31, 5);
    let neighbors = world.get_occluding_neighbors(surface);
    let grass = world.voxel_registry().get_properties(&VoxelType::Grass);
    let mesh = Mesh::voxel(surface, grass, &neighbors);
    assert_eq!(mesh.vertex_count(), 4);
    assert_eq!(mesh.vertices()[0].texture, TextureType::GrassTop);
}

#[test]
fn face_towards_an_unloaded_chunk_is_drawn() {
    let mut world = World::new();
    world.update_chunks(ChunkPosition::new(0, 0, 0));
    // Chunk (6, 0, 0) is loaded, chunk (7, 0, 0) is not.
    let p = WorldPosition::new(6 * 32 + 31, 10, 5);
    let n = world.get_occluding_neighbors(p);
    assert!(!n.right);
    assert!(n.left && n.front && n.back && n.top && n.bottom);
    let props = world.voxel_registry().get_properties(&VoxelType::Stone);
    let mesh = Mesh::voxel(p, props, &n);
    assert_eq!(mesh.vertex_count(), 4);
    assert_eq!(mesh.index_count(), 6);
    assert!(mesh.vertices().iter().all(|v| v.x == 2 * (6 * 32 + 31) + 1));
}

#[test]
fn front_face_corners_and_texture_edges() {
    let registry = VoxelRegistry::init();
    let props = registry.get_properties(&VoxelType::Dirt);
    let only_front = OccludingVoxelNeighbors::new(false, true, true, true, true, true);
    let mesh = Mesh::voxel(WorldPosition::new(1, 2, 3), props, &only_front);
    let v = |x, y, z, u, v| Vertex { x, y, z, texture: TextureType::Dirt, u, v };
    assert_eq!(
        mesh.vertices(),
        &vec![v(1, 3, 7, MIN, MAX), v(3, 3, 7, MAX, MAX), v(3, 5, 7, MAX, MIN), v(1, 5, 7, MIN, MIN)]
    );
    assert_eq!(mesh.indices(), &vec![0, 1, 2, 2, 3, 0]);
}

#[test]
fn merging_adds_counts_and_rebases_indices() {
    let props = VoxelProperties::default();
    let a = Mesh::voxel(WorldPosition::new(0, 0, 0), &props, &open());
    let top_only = OccludingVoxelNeighbors::new(true, true, true, true, false, true);
    let b = Mesh::voxel(WorldPosition::new(9, 9, 9), &props, &top_only);
    let (av, ai, bv, bi) = (a.vertex_count(), a.index_count(), b.vertex_count(), b.index_count());
    let b_indices = b.indices().clone();
    let merged = Mesh::merged(vec![a, b]);
    assert_eq!(merged.vertex_count(), av + bv);
    assert_eq!(merged.index_count(), ai + bi);
    let tail = &merged.indices()[ai as usize..];
    for (k, index) in tail.iter().enumerate() {
        assert_eq!(*index, b_indices[k] + av as u32);
        assert!(*index as usize >= av);
    }
    assert_eq!(Mesh::merged(Vec::new()).vertex_count(), 0);
}

#[test]
fn append_matches_merged() {
    let props = VoxelProperties::default();
    let mut a = Mesh::voxel(WorldPosition::new(0, 0, 0), &props, &open());
    let b = Mesh::voxel(WorldPosition::new(1, 0, 0), &props, &open());
    a.append(&b);
    assert_eq!(a.vertex_count(), 48);
    assert_eq!(a.indices()[36], 24);
    assert_eq!(a.indices()[66], 44);
    assert_eq!(a.indices()[71], 44);
}

#[test]
fn world_mesh_builds_and_caches_every_loaded_chunk() {
    let mut world = World::with_generator(cairn::TerrainGenerator::Empty);
    world.update_chunks(ChunkPosition::new(0, 0, 0));
    assert_eq!(world.uncached_chunk_positions().len(), 791);
    let mesh = Mesh::world(&mut world);
    assert_eq!(mesh.vertex_count(), 0);
    assert!(world.uncached_chunk_positions().is_empty());
    assert!(world.cached_mesh(ChunkPosition::new(0, 0, 0)).is_some());
}
