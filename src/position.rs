use vstd::prelude::*;

verus! {

/// Edge length of a chunk, in voxels.
pub const CHUNK_SIZE: usize = 32;

/// Floor division of a world coordinate by the chunk edge length.
pub open spec fn chunk_coordinate(a: int) -> int {
    a / (CHUNK_SIZE as int)
}

/// Offset of a world coordinate inside its chunk, always in `[0, CHUNK_SIZE)`.
pub open spec fn local_coordinate(a: int) -> int {
    a % (CHUNK_SIZE as int)
}

pub open spec fn fits_i32(a: int) -> bool {
    i32::MIN <= a <= i32::MAX
}

/// `a + 1`, wrapping to 0 past `usize::MAX`.
pub open spec fn step_up(a: usize) -> usize {
    if a == usize::MAX {
        0
    } else {
        (a + 1) as usize
    }
}

/// `a - 1`, wrapping to `usize::MAX` below 0, which lies outside every chunk.
pub open spec fn step_down(a: usize) -> usize {
    if a == 0 {
        usize::MAX
    } else {
        (a - 1) as usize
    }
}

/// A voxel in absolute world space.
#[derive(Clone, Copy, Debug, PartialEq, Eq, Structural, Hash)]
pub struct WorldPosition {
    pub x: i32,
    pub y: i32,
    pub z: i32,
}

/// A chunk on the chunk grid.
#[derive(Clone, Copy, Debug, PartialEq, Eq, Structural, Hash)]
pub struct ChunkPosition {
    pub x: i32,
    pub y: i32,
    pub z: i32,
}

/// A voxel relative to the chunk that holds it. Meaningful when each axis lies
/// in `[0, CHUNK_SIZE)`; the neighbour steps may leave that range, which tells
/// the caller that the neighbour belongs to another chunk.
#[derive(Clone, Copy, Debug, PartialEq, Eq, Structural, Hash)]
pub struct LocalChunkPosition {
    pub x: usize,
    pub y: usize,
    pub z: usize,
}

impl WorldPosition {
    pub fn new(x: i32, y: i32, z: i32) -> (r: Self)
        ensures
            r == (WorldPosition { x, y, z }),
    {
        WorldPosition { x, y, z }
    }

    pub fn get(&self) -> (r: (i32, i32, i32))
        ensures
            r == (self.x, self.y, self.z),
    {
        (self.x, self.y, self.z)
    }

    pub open spec fn spec_chunk_position(self) -> ChunkPosition {
        ChunkPosition {
            x: chunk_coordinate(self.x as int) as i32,
            y: chunk_coordinate(self.y as int) as i32,
            z: chunk_coordinate(self.z as int) as i32,
        }
    }

    pub open spec fn spec_local_position(self) -> LocalChunkPosition {
        LocalChunkPosition {
            x: local_coordinate(self.x as int) as usize,
            y: local_coordinate(self.y as int) as usize,
            z: local_coordinate(self.z as int) as usize,
        }
    }

    /// The six axis neighbours of this voxel are representable.
    pub open spec fn has_neighbors(self) -> bool {
        &&& i32::MIN < self.x < i32::MAX
        &&& i32::MIN < self.y < i32::MAX
        &&& i32::MIN < self.z < i32::MAX
    }

    /// The chunk that holds this voxel: floor division of each axis.
    pub fn chunk_position(&self) -> (r: ChunkPosition)
        ensures
            r == self.spec_chunk_position(),
            r.x == chunk_coordinate(self.x as int),
            r.y == chunk_coordinate(self.y as int),
            r.z == chunk_coordinate(self.z as int),
    {
        let x = floor_div_chunk(self.x);
        let y = floor_div_chunk(self.y);
        let z = floor_div_chunk(self.z);
        ChunkPosition::new(x, y, z)
    }

    /// The chunk that holds this voxel and the voxel's place inside it.
    pub fn local_chunk_position(&self) -> (r: (ChunkPosition, LocalChunkPosition))
        ensures
            r.0 == self.spec_chunk_position(),
            r.1 == self.spec_local_position(),
            r.1.is_valid(),
    {
        let chunk_position = self.chunk_position();
        let (chunk_x, chunk_y, chunk_z) = chunk_position.get();
        proof {
            lemma_chunk_split(self.x as int);
            lemma_chunk_split(self.y as int);
            lemma_chunk_split(self.z as int);
        }
        let x = self.x as i64 - chunk_x as i64 * CHUNK_SIZE as i64;
        let y = self.y as i64 - chunk_y as i64 * CHUNK_SIZE as i64;
        let z = self.z as i64 - chunk_z as i64 * CHUNK_SIZE as i64;
        (chunk_position, LocalChunkPosition::new(x as usize, y as usize, z as usize))
    }

    pub fn front(&self) -> (r: Self)
        requires
            self.z < i32::MAX,
        ensures
            r == (WorldPosition { z: (self.z + 1) as i32, ..*self }),
    {
        WorldPosition { x: self.x, y: self.y, z: self.z + 1 }
    }

    pub fn back(&self) -> (r: Self)
        requires
            self.z > i32::MIN,
        ensures
            r == (WorldPosition { z: (self.z - 1) as i32, ..*self }),
    {
        WorldPosition { x: self.x, y: self.y, z: self.z - 1 }
    }

    pub fn right(&self) -> (r: Self)
        requires
            self.x < i32::MAX,
        ensures
            r == (WorldPosition { x: (self.x + 1) as i32, ..*self }),
    {
        WorldPosition { x: self.x + 1, y: self.y, z: self.z }
    }

    pub fn left(&self) -> (r: Self)
        requires
            self.x > i32::MIN,
        ensures
            r == (WorldPosition { x: (self.x - 1) as i32, ..*self }),
    {
        WorldPosition { x: self.x - 1, y: self.y, z: self.z }
    }

    pub fn top(&self) -> (r: Self)
        requires
            self.y < i32::MAX,
        ensures
            r == (WorldPosition { y: (self.y + 1) as i32, ..*self }),
    {
        WorldPosition { x: self.x, y: self.y + 1, z: self.z }
    }

    pub fn bottom(&self) -> (r: Self)
        requires
            self.y > i32::MIN,
        ensures
            r == (WorldPosition { y: (self.y - 1) as i32, ..*self }),
    {
        WorldPosition { x: self.x, y: self.y - 1, z: self.z }
    }
}

/// A world coordinate is its chunk's origin plus its local offset.
pub proof fn lemma_chunk_split(a: int)
    ensures
        a == chunk_coordinate(a) * (CHUNK_SIZE as int) + local_coordinate(a),
        0 <= local_coordinate(a) < CHUNK_SIZE,
{
    vstd::arithmetic::div_mod::lemma_fundamental_div_mod(a, CHUNK_SIZE as int);
}

/// Floor division by the chunk edge length.
fn floor_div_chunk(a: i32) -> (r: i32)
    ensures
        r == chunk_coordinate(a as int),
{
    match a.checked_div_euclid(CHUNK_SIZE as i32) {
        Some(q) => q,
        None => 0,
    }
}

impl ChunkPosition {
    pub fn new(x: i32, y: i32, z: i32) -> (r: Self)
        ensures
            r == (ChunkPosition { x, y, z }),
    {
        ChunkPosition { x, y, z }
    }

    pub fn get(&self) -> (r: (i32, i32, i32))
        ensures
            r == (self.x, self.y, self.z),
    {
        (self.x, self.y, self.z)
    }
}

impl LocalChunkPosition {
    pub fn new(x: usize, y: usize, z: usize) -> (r: Self)
        ensures
            r == (LocalChunkPosition { x, y, z }),
    {
        LocalChunkPosition { x, y, z }
    }

    pub fn get(&self) -> (r: (usize, usize, usize))
        ensures
            r == (self.x, self.y, self.z),
    {
        (self.x, self.y, self.z)
    }

    /// Each axis lies inside the chunk.
    pub open spec fn is_valid(self) -> bool {
        &&& self.x < CHUNK_SIZE
        &&& self.y < CHUNK_SIZE
        &&& self.z < CHUNK_SIZE
    }

    pub fn get_i32(&self) -> (r: (i32, i32, i32))
        requires
            self.is_valid(),
        ensures
            r.0 == self.x && r.1 == self.y && r.2 == self.z,
    {
        (self.x as i32, self.y as i32, self.z as i32)
    }

    /// One step along `+z`. From a valid position the result is off the chunk
    /// exactly when the step leaves it; steps below zero wrap to `usize::MAX`.
    pub fn front(&self) -> (r: Self)
        ensures
            r == (LocalChunkPosition { z: step_up(self.z), ..*self }),
    {
        LocalChunkPosition { x: self.x, y: self.y, z: self.z.wrapping_add(1) }
    }

    pub fn back(&self) -> (r: Self)
        ensures
            r == (LocalChunkPosition { z: step_down(self.z), ..*self }),
    {
        LocalChunkPosition { x: self.x, y: self.y, z: self.z.wrapping_sub(1) }
    }

    pub fn right(&self) -> (r: Self)
        ensures
            r == (LocalChunkPosition { x: step_up(self.x), ..*self }),
    {
        LocalChunkPosition { x: self.x.wrapping_add(1), y: self.y, z: self.z }
    }

    pub fn left(&self) -> (r: Self)
        ensures
            r == (LocalChunkPosition { x: step_down(self.x), ..*self }),
    {
        LocalChunkPosition { x: self.x.wrapping_sub(1), y: self.y, z: self.z }
    }

    pub fn top(&self) -> (r: Self)
        ensures
            r == (LocalChunkPosition { y: step_up(self.y), ..*self }),
    {
        LocalChunkPosition { x: self.x, y: self.y.wrapping_add(1), z: self.z }
    }

    pub fn bottom(&self) -> (r: Self)
        ensures
            r == (LocalChunkPosition { y: step_down(self.y), ..*self }),
    {
        LocalChunkPosition { x: self.x, y: self.y.wrapping_sub(1), z: self.z }
    }

    pub open spec fn spec_world_position(self, chunk_position: ChunkPosition) -> WorldPosition {
        WorldPosition {
            x: (self.x + chunk_position.x * CHUNK_SIZE) as i32,
            y: (self.y + chunk_position.y * CHUNK_SIZE) as i32,
            z: (self.z + chunk_position.z * CHUNK_SIZE) as i32,
        }
    }

    /// The world position of this voxel in the chunk at `chunk_position`.
    pub fn world_position(&self, chunk_position: ChunkPosition) -> (r: WorldPosition)
        requires
            self.is_valid(),
            fits_i32(self.x + chunk_position.x * CHUNK_SIZE),
            fits_i32(self.y + chunk_position.y * CHUNK_SIZE),
            fits_i32(self.z + chunk_position.z * CHUNK_SIZE),
        ensures
            r == self.spec_world_position(chunk_position),
            r.x == self.x + chunk_position.x * CHUNK_SIZE,
            r.y == self.y + chunk_position.y * CHUNK_SIZE,
            r.z == self.z + chunk_position.z * CHUNK_SIZE,
    {
        let (local_x, local_y, local_z) = self.get_i32();
        let size = CHUNK_SIZE as i64;
        let x = local_x as i64 + chunk_position.x as i64 * size;
        let y = local_y as i64 + chunk_position.y as i64 * size;
        let z = local_z as i64 + chunk_position.z as i64 * size;
        WorldPosition::new(x as i32, y as i32, z as i32)
    }
}

/// Splitting a world position into chunk and local parts and joining them again
/// gives back the same position; the local part always lies inside the chunk,
/// and joining never leaves the range of `i32`.
pub proof fn lemma_world_round_trip(p: WorldPosition)
    ensures
        p.spec_local_position().is_valid(),
        fits_i32(p.spec_local_position().x + p.spec_chunk_position().x * CHUNK_SIZE),
        fits_i32(p.spec_local_position().y + p.spec_chunk_position().y * CHUNK_SIZE),
        fits_i32(p.spec_local_position().z + p.spec_chunk_position().z * CHUNK_SIZE),
        p.spec_local_position().spec_world_position(p.spec_chunk_position()) == p,
{
    lemma_chunk_split(p.x as int);
    lemma_chunk_split(p.y as int);
    lemma_chunk_split(p.z as int);
}

} // verus!
