use cairn::chunk::{DIRT_LEVEL, GRASS_LEVEL};
use cairn::{
    Chunk, ChunkPosition, LocalChunkPosition, TerrainGenerator, TextureType, VoxelProperties,
    VoxelRegistry, VoxelTextures, VoxelType, CHUNK_SIZE,
};

#[test]
fn empty_chunk_is_air() {
    let chunk = Chunk::empty(ChunkPosition::new(1, 2, 3));
    assert_eq!(chunk.position(), ChunkPosition::new(1, 2, 3));
    for (x, y, z) in [(0, 0, 0), (31, 31, 31), (7, 19, 3)] {
        assert_eq!(
            chunk.get_voxel_type(LocalChunkPosition::new(x, y, z)),
            VoxelType::Air
        );
    }
}

#[test]
fn set_voxel_inside_and_outside_the_chunk() {
    let mut chunk = Chunk::empty(ChunkPosition::new(0, 0, 0));
    chunk.set_voxel(LocalChunkPosition::new(3, 4, 5), VoxelType::Dirt);
    assert_eq!(
        chunk.get_voxel_type(LocalChunkPosition::new(3, 4, 5)),
        VoxelType::Dirt
    );
    assert_eq!(
        chunk.get_voxel_type(LocalChunkPosition::new(4, 3, 5)),
        VoxelType::Air
    );
    chunk.set_voxel(LocalChunkPosition::new(32, 0, 0), VoxelType::Stone);
    assert_eq!(
        chunk.get_voxel_type(LocalChunkPosition::new(32, 0, 0)),
        VoxelType::Air
    );
    assert_eq!(
        chunk.get_voxel_type(LocalChunkPosition::new(0, 0, 0)),
        VoxelType::Air
    );
}

#[test]
fn index_is_x_then_y_then_z() {
    assert_eq!(Chunk::index(0, 0, 0), 0);
    assert_eq!(Chunk::index(1, 0, 0), 1);
    assert_eq!(Chunk::index(0, 1, 0), 32);
    assert_eq!(Chunk::index(0, 0, 1), 1024);
    assert_eq!(Chunk::index(31, 31, 31), 32767);
}

#[test]
fn y_slice_and_range_fill_whole_layers() {
    let mut chunk = Chunk::empty(ChunkPosition::new(0, 5, 0));
    chunk.set_y_slice(7, VoxelType::Grass);
    chunk.set_y_range(2, 3, VoxelType::Stone);
    chunk.set_y_slice(40, VoxelType::Dirt);
    for x in 0..CHUNK_SIZE {
        for z in [0, 13, 31] {
            let at = |y| chunk.get_voxel_type(LocalChunkPosition::new(x, y, z));
            assert_eq!(at(7), VoxelType::Grass);
            assert_eq!(at(2), VoxelType::Stone);
            assert_eq!(at(3), VoxelType::Stone);
            assert_eq!(at(1), VoxelType::Air);
            assert_eq!(at(4), VoxelType::Air);
            assert_eq!(at(31), VoxelType::Air);
        }
    }
}

#[test]
fn dev_chunk_layers_ground_chunks_only() {
    let ground = Chunk::dev_chunk(ChunkPosition::new(4, 0, -2));
    for y in 0..CHUNK_SIZE {
        let expected = if y == GRASS_LEVEL {
            VoxelType::Grass
        } else if y >= DIRT_LEVEL {
            VoxelType::Dirt
        } else {
            VoxelType::Stone
        };
        assert_eq!(
            ground.get_voxel_type(LocalChunkPosition::new(9, y, 30)),
            expected
        );
    }
    let sky = Chunk::dev_chunk(ChunkPosition::new(4, 1, -2));
    let below = Chunk::dev_chunk(ChunkPosition::new(4, -1, -2));
    for y in 0..CHUNK_SIZE {
        assert_eq!(
            sky.get_voxel_type(LocalChunkPosition::new(9, y, 30)),
            VoxelType::Air
        );
        assert_eq!(
            below.get_voxel_type(LocalChunkPosition::new(9, y, 30)),
            VoxelType::Air
        );
    }
}

#[test]
fn empty_generator_makes_air() {
    let chunk = Chunk::generate(TerrainGenerator::Empty, ChunkPosition::new(0, 0, 0));
    assert_eq!(
        chunk.get_voxel_type(LocalChunkPosition::new(0, 0, 0)),
        VoxelType::Air
    );
    let layered = Chunk::generate(TerrainGenerator::Layered, ChunkPosition::new(0, 0, 0));
    assert_eq!(
        layered.get_voxel_type(LocalChunkPosition::new(0, 0, 0)),
        VoxelType::Stone
    );
}

#[test]
fn chunk_occlusion_stays_inside_the_chunk() {
    let registry = VoxelRegistry::init();
    let chunk = Chunk::dev_chunk(ChunkPosition::new(0, 0, 0));
    let inner = chunk.get_occluding_neighbors(LocalChunkPosition::new(5, 5, 5), &registry);
    assert!(inner.front && inner.back && inner.right && inner.left && inner.top && inner.bottom);
    let edge = chunk.get_occluding_neighbors(LocalChunkPosition::new(0, 31, 31), &registry);
    assert!(!edge.left && !edge.front && !edge.top);
    assert!(edge.right && edge.back && edge.bottom);
    assert!(chunk.get_is_occluding(LocalChunkPosition::new(0, 0, 0), &registry));
    assert!(!chunk.get_is_occluding(LocalChunkPosition::new(0, 32, 0), &registry));
}

#[test]
fn registry_holds_the_builtin_kinds() {
    let registry = VoxelRegistry::init();
    let air = registry.get_properties(&VoxelType::Air);
    assert!(air.is_invisible());
    assert!(!air.is_occluding());
    let grass = registry.get_properties(&VoxelType::Grass);
    assert!(!grass.is_invisible());
    assert!(grass.is_occluding());
    assert_eq!(grass.top_texture(), TextureType::GrassTop);
    assert_eq!(grass.bottom_texture(), TextureType::Dirt);
    assert_eq!(grass.front_texture(), TextureType::GrassSide);
    assert_eq!(grass.back_texture(), TextureType::GrassSide);
    assert_eq!(grass.left_texture(), TextureType::GrassSide);
    assert_eq!(grass.right_texture(), TextureType::GrassSide);
    let stone = registry.get_properties(&VoxelType::Stone);
    assert_eq!(stone.top_texture(), TextureType::Stone);
    assert_eq!(
        registry.get_properties(&VoxelType::Dirt).front_texture(),
        TextureType::Dirt
    );
}

#[test]
fn texture_sets_and_default_properties() {
    let uniform = VoxelTextures::uniform(TextureType::Dirt);
    assert_eq!(uniform.top, TextureType::Dirt);
    assert_eq!(uniform.left, TextureType::Dirt);
    let layered = VoxelTextures::top_bottom(TextureType::GrassTop, TextureType::Dirt, TextureType::GrassSide);
    assert_eq!(layered.top, TextureType::GrassTop);
    assert_eq!(layered.bottom, TextureType::Dirt);
    assert_eq!(layered.right, TextureType::GrassSide);
    let default = VoxelProperties::default();
    assert!(default.is_occluding());
    assert!(!default.is_invisible());
    assert_eq!(default.front_texture(), TextureType::Stone);
}
