use vstd::prelude::*;

use crate::mesh::OccludingVoxelNeighbors;
use crate::position::{step_down, step_up, ChunkPosition, LocalChunkPosition, CHUNK_SIZE};
use crate::voxel::{VoxelRegistry, VoxelType};

verus! {

/// Number of voxels in a chunk.
pub const CHUNK_VOLUME: usize = 32768;

/// The chunk-grid layer at which the layered generator lays ground.
pub const GROUND_LAYER: i32 = 0;

/// Top layer of the ground: grass.
pub const GRASS_LEVEL: usize = 31;

/// Lowest layer of dirt; everything below is stone.
pub const DIRT_LEVEL: usize = 27;

/// Position of the voxel `(x, y, z)` in a chunk's storage.
pub open spec fn linear_index(x: int, y: int, z: int) -> int {
    x + y * (CHUNK_SIZE as int) + z * (CHUNK_SIZE as int) * (CHUNK_SIZE as int)
}

pub open spec fn x_of(i: int) -> int {
    i % (CHUNK_SIZE as int)
}

pub open spec fn y_of(i: int) -> int {
    (i / (CHUNK_SIZE as int)) % (CHUNK_SIZE as int)
}

pub open spec fn z_of(i: int) -> int {
    i / ((CHUNK_SIZE as int) * (CHUNK_SIZE as int))
}

/// Storage positions and in-chunk coordinates correspond one to one.
pub proof fn lemma_index_coords(x: int, y: int, z: int)
    requires
        0 <= x < CHUNK_SIZE,
        0 <= y < CHUNK_SIZE,
        0 <= z < CHUNK_SIZE,
    ensures
        0 <= linear_index(x, y, z) < CHUNK_VOLUME,
        x_of(linear_index(x, y, z)) == x,
        y_of(linear_index(x, y, z)) == y,
        z_of(linear_index(x, y, z)) == z,
{
    let i = linear_index(x, y, z);
    assert(i == x + 32 * (y + 32 * z));
    vstd::arithmetic::div_mod::lemma_fundamental_div_mod_converse(i, 32, y + 32 * z, x);
    vstd::arithmetic::div_mod::lemma_fundamental_div_mod_converse(y + 32 * z, 32, z, y);
    vstd::arithmetic::div_mod::lemma_div_denominator(i, 32, 32);
}

/// Every storage position is the position of its own coordinates.
pub proof fn lemma_index_of_coords(i: int)
    requires
        0 <= i < CHUNK_VOLUME,
    ensures
        0 <= x_of(i) < CHUNK_SIZE,
        0 <= y_of(i) < CHUNK_SIZE,
        0 <= z_of(i) < CHUNK_SIZE,
        i == linear_index(x_of(i), y_of(i), z_of(i)),
{
    vstd::arithmetic::div_mod::lemma_fundamental_div_mod(i, 32);
    vstd::arithmetic::div_mod::lemma_fundamental_div_mod(i / 32, 32);
    vstd::arithmetic::div_mod::lemma_div_denominator(i, 32, 32);
    vstd::arithmetic::div_mod::lemma_div_pos_is_pos(i, 32);
    vstd::arithmetic::div_mod::lemma_div_is_ordered(i, CHUNK_VOLUME as int, 1024);
}

/// The voxel kind at `local` in the storage `voxels`; off the chunk, `Air`.
pub open spec fn voxel_at(voxels: Seq<VoxelType>, local: LocalChunkPosition) -> VoxelType {
    if local.is_valid() {
        voxels[linear_index(local.x as int, local.y as int, local.z as int)]
    } else {
        VoxelType::Air
    }
}

/// How the terrain of a freshly loaded chunk is produced.
#[derive(Clone, Copy, Debug, PartialEq, Eq, Structural)]
pub enum TerrainGenerator {
    /// Stone, then dirt, then a grass cap in the ground layer; air elsewhere.
    Layered,
    /// Air everywhere.
    Empty,
}

/// The voxel kind that `generator` puts at height `y` of the chunk at `position`.
pub open spec fn terrain_voxel(generator: TerrainGenerator, position: ChunkPosition, y: int) -> VoxelType {
    match generator {
        TerrainGenerator::Layered => if position.y != GROUND_LAYER {
            VoxelType::Air
        } else if y == GRASS_LEVEL {
            VoxelType::Grass
        } else if DIRT_LEVEL <= y < GRASS_LEVEL {
            VoxelType::Dirt
        } else {
            VoxelType::Stone
        },
        TerrainGenerator::Empty => VoxelType::Air,
    }
}

/// The storage of the chunk at `position` as `generator` makes it.
pub open spec fn terrain(generator: TerrainGenerator, position: ChunkPosition) -> Seq<VoxelType> {
    Seq::new(CHUNK_VOLUME as nat, |i: int| terrain_voxel(generator, position, y_of(i)))
}

/// `voxels` with every voxel whose height lies in `[low, high]` set to `voxel_type`.
pub open spec fn fill_layers(voxels: Seq<VoxelType>, low: int, high: int, voxel_type: VoxelType) -> Seq<VoxelType> {
    Seq::new(voxels.len(), |i: int| if low <= y_of(i) <= high { voxel_type } else { voxels[i] })
}

/// What a chunk holds: its grid position and its voxels in storage order.
pub struct ChunkView {
    pub position: ChunkPosition,
    pub voxels: Seq<VoxelType>,
}

/// A cube of `CHUNK_SIZE`³ voxels at one chunk-grid position.
#[derive(Clone)]
pub struct Chunk {
    position: ChunkPosition,
    voxels: Vec<VoxelType>,
}

impl View for Chunk {
    type V = ChunkView;

    closed spec fn view(&self) -> ChunkView {
        ChunkView { position: self.position, voxels: self.voxels@ }
    }
}

impl Chunk {
    /// The storage holds exactly one voxel per cell.
    pub open spec fn wf(&self) -> bool {
        self@.voxels.len() == CHUNK_VOLUME
    }

    /// The voxel kind at `local`, `Air` off the chunk.
    pub open spec fn spec_voxel_type(&self, local: LocalChunkPosition) -> VoxelType {
        voxel_at(self@.voxels, local)
    }

    /// A chunk of air.
    pub fn empty(position: ChunkPosition) -> (r: Self)
        ensures
            r.wf(),
            r@.position == position,
            r@.voxels == Seq::new(CHUNK_VOLUME as nat, |i: int| VoxelType::Air),
    {
        let voxels = vec![VoxelType::Air; CHUNK_VOLUME];
        proof {
            assert(voxels@ =~= Seq::new(CHUNK_VOLUME as nat, |i: int| VoxelType::Air));
        }
        Chunk { position, voxels }
    }

    /// A chunk made by `generator`.
    pub fn generate(generator: TerrainGenerator, position: ChunkPosition) -> (r: Self)
        ensures
            r.wf(),
            r@.position == position,
            r@.voxels == terrain(generator, position),
    {
        match generator {
            TerrainGenerator::Layered => Self::dev_chunk(position),
            TerrainGenerator::Empty => {
                let chunk = Self::empty(position);
                proof {
                    assert(chunk@.voxels =~= terrain(generator, position));
                }
                chunk
            },
        }
    }

    /// A chunk of the layered terrain: in the ground layer, stone up to
    /// `DIRT_LEVEL`, dirt up to the grass cap at `GRASS_LEVEL`; air elsewhere.
    pub fn dev_chunk(position: ChunkPosition) -> (r: Self)
        ensures
            r.wf(),
            r@.position == position,
            r@.voxels == terrain(TerrainGenerator::Layered, position),
    {
        let mut chunk = Self::empty(position);
        if position.y == GROUND_LAYER {
            chunk.set_y_slice(GRASS_LEVEL, VoxelType::Grass);
            chunk.set_y_range(DIRT_LEVEL, GRASS_LEVEL - 1, VoxelType::Dirt);
            chunk.set_y_range(0, DIRT_LEVEL - 1, VoxelType::Stone);
        }
        proof {
            assert forall|i: int| 0 <= i < CHUNK_VOLUME implies 0 <= #[trigger] y_of(i) < CHUNK_SIZE by {
                lemma_index_of_coords(i);
            }
            assert(chunk@.voxels =~= terrain(TerrainGenerator::Layered, position));
        }
        chunk
    }

    pub fn position(&self) -> (r: ChunkPosition)
        ensures
            r == self@.position,
    {
        self.position
    }

    /// Storage position of the voxel `(x, y, z)`.
    pub fn index(x: usize, y: usize, z: usize) -> (r: usize)
        requires
            x < CHUNK_SIZE,
            y < CHUNK_SIZE,
            z < CHUNK_SIZE,
        ensures
            r == linear_index(x as int, y as int, z as int),
            r < CHUNK_VOLUME,
    {
        proof {
            lemma_index_coords(x as int, y as int, z as int);
        }
        x + y * CHUNK_SIZE + z * CHUNK_SIZE * CHUNK_SIZE
    }

    /// Sets the voxel at `local`; a position off the chunk leaves it unchanged.
    pub fn set_voxel(&mut self, local_position: LocalChunkPosition, voxel_type: VoxelType)
        requires
            old(self).wf(),
        ensures
            final(self).wf(),
            final(self)@.position == old(self)@.position,
            final(self)@.voxels == if local_position.is_valid() {
                old(self)@.voxels.update(
                    linear_index(local_position.x as int, local_position.y as int, local_position.z as int),
                    voxel_type,
                )
            } else {
                old(self)@.voxels
            },
    {
        let (x, y, z) = local_position.get();
        if x >= CHUNK_SIZE || y >= CHUNK_SIZE || z >= CHUNK_SIZE {
            return;
        }
        let i = Self::index(x, y, z);
        self.voxels.set(i, voxel_type);
    }

    /// Sets every voxel at height `y`; a height off the chunk changes nothing.
    pub fn set_y_slice(&mut self, y: usize, voxel_type: VoxelType)
        requires
            old(self).wf(),
        ensures
            final(self).wf(),
            final(self)@.position == old(self)@.position,
            final(self)@.voxels == fill_layers(old(self)@.voxels, y as int, y as int, voxel_type),
    {
        let ghost initial = self@.voxels;
        if y >= CHUNK_SIZE {
            proof {
                assert forall|i: int| 0 <= i < CHUNK_VOLUME implies #[trigger] y_of(i) < CHUNK_SIZE by {
                    lemma_index_of_coords(i);
                }
                assert(self@.voxels =~= fill_layers(initial, y as int, y as int, voxel_type));
            }
            return;
        }
        for x in 0..CHUNK_SIZE
            invariant
                self.wf(),
                self@.position == old(self)@.position,
                initial == old(self)@.voxels,
                y < CHUNK_SIZE,
                self@.voxels == Seq::new(
                    CHUNK_VOLUME as nat,
                    |i: int| if y_of(i) == y && x_of(i) < x { voxel_type } else { initial[i] },
                ),
        {
            for z in 0..CHUNK_SIZE
                invariant
                    self.wf(),
                    self@.position == old(self)@.position,
                    initial == old(self)@.voxels,
                    y < CHUNK_SIZE,
                    x < CHUNK_SIZE,
                    self@.voxels == Seq::new(
                        CHUNK_VOLUME as nat,
                        |i: int|
                            if y_of(i) == y && (x_of(i) < x || (x_of(i) == x && z_of(i) < z)) {
                                voxel_type
                            } else {
                                initial[i]
                            },
                    ),
            {
                let ghost before = self@.voxels;
                self.set_voxel(LocalChunkPosition::new(x, y, z), voxel_type);
                proof {
                    let k = linear_index(x as int, y as int, z as int);
                    lemma_index_coords(x as int, y as int, z as int);
                    assert forall|i: int| 0 <= i < CHUNK_VOLUME && i != k implies !(
                    #[trigger] y_of(i) == y && x_of(i) == x && z_of(i) == z) by {
                        lemma_index_of_coords(i);
                    }
                    assert(self@.voxels =~= Seq::new(
                        CHUNK_VOLUME as nat,
                        |i: int|
                            if y_of(i) == y && (x_of(i) < x || (x_of(i) == x && z_of(i) < z + 1)) {
                                voxel_type
                            } else {
                                initial[i]
                            },
                    ));
                }
            }
            proof {
                assert forall|i: int| 0 <= i < CHUNK_VOLUME implies #[trigger] z_of(i) < CHUNK_SIZE by {
                    lemma_index_of_coords(i);
                }
                assert(self@.voxels =~= Seq::new(
                    CHUNK_VOLUME as nat,
                    |i: int| if y_of(i) == y && x_of(i) < x + 1 { voxel_type } else { initial[i] },
                ));
            }
        }
        proof {
            assert forall|i: int| 0 <= i < CHUNK_VOLUME implies #[trigger] x_of(i) < CHUNK_SIZE by {
                lemma_index_of_coords(i);
            }
            assert(self@.voxels =~= fill_layers(initial, y as int, y as int, voxel_type));
        }
    }

    /// Sets every voxel whose height lies in `[low, high]`.
    pub fn set_y_range(&mut self, low: usize, high: usize, voxel_type: VoxelType)
        requires
            old(self).wf(),
        ensures
            final(self).wf(),
            final(self)@.position == old(self)@.position,
            final(self)@.voxels == fill_layers(old(self)@.voxels, low as int, high as int, voxel_type),
    {
        let ghost initial = self@.voxels;
        let end: usize = if high < CHUNK_SIZE { high + 1 } else { CHUNK_SIZE };
        let mut y: usize = low;
        proof {
            assert(self@.voxels =~= fill_layers(initial, low as int, y - 1, voxel_type));
        }
        while y < end
            invariant
                self.wf(),
                self@.position == old(self)@.position,
                initial == old(self)@.voxels,
                low <= y,
                y == low || y <= end,
                end <= CHUNK_SIZE,
                end == (if high < CHUNK_SIZE { high + 1 } else { CHUNK_SIZE as int }),
                self@.voxels == fill_layers(initial, low as int, y - 1, voxel_type),
            decreases end - y,
        {
            self.set_y_slice(y, voxel_type);
            proof {
                assert(self@.voxels =~= fill_layers(initial, low as int, y as int, voxel_type));
            }
            y = y + 1;
        }
        proof {
            assert forall|i: int| 0 <= i < CHUNK_VOLUME implies #[trigger] self@.voxels[i] == fill_layers(
                initial,
                low as int,
                high as int,
                voxel_type,
            )[i] by {
                lemma_index_of_coords(i);
            }
            assert(self@.voxels =~= fill_layers(initial, low as int, high as int, voxel_type));
        }
    }

    /// The voxel kind at `local`; `Air` off the chunk.
    pub fn get_voxel_type(&self, local_position: LocalChunkPosition) -> (r: VoxelType)
        requires
            self.wf(),
        ensures
            r == self.spec_voxel_type(local_position),
    {
        let (x, y, z) = local_position.get();
        if x >= CHUNK_SIZE || y >= CHUNK_SIZE || z >= CHUNK_SIZE {
            return VoxelType::Air;
        }
        self.voxels[Self::index(x, y, z)]
    }

    /// Whether the voxel at `local` hides its neighbours' faces; off the chunk
    /// it is air, which hides nothing.
    pub fn get_is_occluding(&self, local_position: LocalChunkPosition, voxel_registry: &VoxelRegistry) -> (r: bool)
        requires
            self.wf(),
            voxel_registry.wf(),
        ensures
            r == voxel_registry.properties_of(self.spec_voxel_type(local_position)).is_occluding,
    {
        let voxel_type = self.get_voxel_type(local_position);
        voxel_registry.get_properties(&voxel_type).is_occluding()
    }

    /// Which of the six neighbours of `local` inside this chunk hide the shared
    /// face. Neighbours off the chunk count as air.
    pub fn get_occluding_neighbors(
        &self,
        local_position: LocalChunkPosition,
        voxel_registry: &VoxelRegistry,
    ) -> (r: OccludingVoxelNeighbors)
        requires
            self.wf(),
            voxel_registry.wf(),
        ensures
            r.front == voxel_registry.properties_of(self.spec_voxel_type(LocalChunkPosition { z: step_up(local_position.z), ..local_position })).is_occluding,
            r.back == voxel_registry.properties_of(self.spec_voxel_type(LocalChunkPosition { z: step_down(local_position.z), ..local_position })).is_occluding,
            r.right == voxel_registry.properties_of(self.spec_voxel_type(LocalChunkPosition { x: step_up(local_position.x), ..local_position })).is_occluding,
            r.left == voxel_registry.properties_of(self.spec_voxel_type(LocalChunkPosition { x: step_down(local_position.x), ..local_position })).is_occluding,
            r.top == voxel_registry.properties_of(self.spec_voxel_type(LocalChunkPosition { y: step_up(local_position.y), ..local_position })).is_occluding,
            r.bottom == voxel_registry.properties_of(self.spec_voxel_type(LocalChunkPosition { y: step_down(local_position.y), ..local_position })).is_occluding,
    {
        let front = self.get_is_occluding(local_position.front(), voxel_registry);
        let back = self.get_is_occluding(local_position.back(), voxel_registry);
        let right = self.get_is_occluding(local_position.right(), voxel_registry);
        let left = self.get_is_occluding(local_position.left(), voxel_registry);
        let top = self.get_is_occluding(local_position.top(), voxel_registry);
        let bottom = self.get_is_occluding(local_position.bottom(), voxel_registry);
        OccludingVoxelNeighbors::new(front, back, right, left, top, bottom)
    }
}

} // verus!
