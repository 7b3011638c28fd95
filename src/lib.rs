//! Spatial core of a voxel world: coordinates, chunk storage, chunk streaming
//! around an observer, and face-culled meshing.

pub mod chunk;
pub mod mesh;
pub mod position;
pub mod voxel;
pub mod world;

pub use position::{ChunkPosition, LocalChunkPosition, WorldPosition, CHUNK_SIZE};
pub use voxel::{TextureType, VoxelProperties, VoxelRegistry, VoxelTextures, VoxelType};
pub use chunk::{Chunk, TerrainGenerator, CHUNK_VOLUME};
pub use mesh::{Mesh, OccludingVoxelNeighbors, TextureEdge, Vertex};
pub use world::World;
