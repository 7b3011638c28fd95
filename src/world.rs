use vstd::prelude::*;

use std::collections::HashMap;

use crate::chunk::{terrain, voxel_at, Chunk, TerrainGenerator};
use crate::mesh::{lemma_merge_wf, merge_all, Mesh, MeshView, OccludingVoxelNeighbors, MAX_CHUNK_MESH_VERTICES};
use crate::position::{ChunkPosition, WorldPosition};
use crate::voxel::{builtin_properties, VoxelRegistry, VoxelType};

verus! {

broadcast use vstd::std_specs::hash::group_hash_axioms;

/// Horizontal render distance, in chunks.
pub const RENDER_DISTANCE_XZ: i32 = 6;

/// Vertical render distance, in chunks.
pub const RENDER_DISTANCE_Y: i32 = 3;

/// Largest chunk coordinate whose voxels, and their neighbours, have world
/// positions in `i32`.
pub const MAX_CHUNK_COORDINATE: i32 = 67108862;

/// Span of one coordinate in a chunk key.
pub const KEY_SHIFT: u128 = 4294967296;

/// Offset that makes a coordinate non-negative in a chunk key.
pub const KEY_BIAS: i64 = 2147483648;

/// The integer that keys the chunk at `p` in the world's tables.
pub open spec fn chunk_key(p: ChunkPosition) -> u128 {
    (((p.x + KEY_BIAS) * KEY_SHIFT + (p.y + KEY_BIAS)) * KEY_SHIFT + (p.z + KEY_BIAS)) as u128
}

pub proof fn lemma_chunk_key_injective(p: ChunkPosition, q: ChunkPosition)
    ensures
        chunk_key(p) == chunk_key(q) <==> p == q,
{
    let s = KEY_SHIFT as int;
    let (px, py, pz) = (p.x + KEY_BIAS, p.y + KEY_BIAS, p.z + KEY_BIAS);
    let (qx, qy, qz) = (q.x + KEY_BIAS, q.y + KEY_BIAS, q.z + KEY_BIAS);
    assert(0 <= px * s + py < s * s) by (nonlinear_arith)
        requires 0 <= px < s, 0 <= py < s;
    assert(0 <= (px * s + py) * s + pz < s * s * s) by (nonlinear_arith)
        requires 0 <= px * s + py < s * s, 0 <= pz < s;
    assert(0 <= (qx * s + qy) * s + qz) by (nonlinear_arith)
        requires 0 <= qx < s, 0 <= qy < s, 0 <= qz < s;
    assert((qx * s + qy) * s + qz < s * s * s) by (nonlinear_arith)
        requires 0 <= qx < s, 0 <= qy < s, 0 <= qz < s;
    if chunk_key(p) == chunk_key(q) {
        let k = (px * s + py) * s + pz;
        assert(k == (qx * s + qy) * s + qz);
        vstd::arithmetic::div_mod::lemma_fundamental_div_mod_converse(k, s, px * s + py, pz);
        vstd::arithmetic::div_mod::lemma_fundamental_div_mod_converse(k, s, qx * s + qy, qz);
        vstd::arithmetic::div_mod::lemma_fundamental_div_mod_converse(px * s + py, s, px, py);
        vstd::arithmetic::div_mod::lemma_fundamental_div_mod_converse(qx * s + qy, s, qx, qy);
    }
}

fn key_of(p: ChunkPosition) -> (r: u128)
    ensures
        r == chunk_key(p),
{
    let x = (p.x as i64 + KEY_BIAS) as u128;
    let y = (p.y as i64 + KEY_BIAS) as u128;
    let z = (p.z as i64 + KEY_BIAS) as u128;
    assert(x * KEY_SHIFT + y < KEY_SHIFT * KEY_SHIFT) by (nonlinear_arith)
        requires x < KEY_SHIFT, y < KEY_SHIFT;
    assert((x * KEY_SHIFT + y) * KEY_SHIFT + z < KEY_SHIFT * KEY_SHIFT * KEY_SHIFT) by (nonlinear_arith)
        requires x * KEY_SHIFT + y < KEY_SHIFT * KEY_SHIFT, z < KEY_SHIFT;
    (x * KEY_SHIFT + y) * KEY_SHIFT + z
}

impl ChunkPosition {
    /// Every voxel of this chunk, and each of its neighbours, has a world position.
    pub open spec fn in_world_bounds(self) -> bool {
        &&& -MAX_CHUNK_COORDINATE <= self.x <= MAX_CHUNK_COORDINATE
        &&& -MAX_CHUNK_COORDINATE <= self.y <= MAX_CHUNK_COORDINATE
        &&& -MAX_CHUNK_COORDINATE <= self.z <= MAX_CHUNK_COORDINATE
    }

    /// Every chunk within render distance of this one is in world bounds.
    pub open spec fn can_stream_around(self) -> bool {
        &&& -MAX_CHUNK_COORDINATE + RENDER_DISTANCE_XZ <= self.x <= MAX_CHUNK_COORDINATE - RENDER_DISTANCE_XZ
        &&& -MAX_CHUNK_COORDINATE + RENDER_DISTANCE_Y <= self.y <= MAX_CHUNK_COORDINATE - RENDER_DISTANCE_Y
        &&& -MAX_CHUNK_COORDINATE + RENDER_DISTANCE_XZ <= self.z <= MAX_CHUNK_COORDINATE - RENDER_DISTANCE_XZ
    }
}

/// The radius predicate of streaming: within `RENDER_DISTANCE_XZ` of `origin`
/// horizontally (Euclidean, on the x/z plane) and within `RENDER_DISTANCE_Y`
/// vertically.
pub open spec fn in_range(origin: ChunkPosition, p: ChunkPosition) -> bool {
    let dx = p.x - origin.x;
    let dy = p.y - origin.y;
    let dz = p.z - origin.z;
    &&& dx * dx + dz * dz <= RENDER_DISTANCE_XZ * RENDER_DISTANCE_XZ
    &&& -RENDER_DISTANCE_Y <= dy <= RENDER_DISTANCE_Y
}

/// Squared distance between two chunks.
pub open spec fn distance_squared(origin: ChunkPosition, p: ChunkPosition) -> int {
    let dx = p.x - origin.x;
    let dy = p.y - origin.y;
    let dz = p.z - origin.z;
    dx * dx + dy * dy + dz * dz
}

/// The world: loaded chunks around the last observed origin, and the meshes
/// already built for them.
pub struct World {
    voxel_registry: VoxelRegistry,
    generator: TerrainGenerator,
    last_update_position: Option<ChunkPosition>,
    chunk_order: Vec<ChunkPosition>,
    chunk_data: HashMap<u128, Chunk>,
    chunk_meshes: HashMap<u128, Mesh>,
}

impl World {
    /// The loaded chunks' voxels, by position.
    pub closed spec fn chunks(&self) -> Map<ChunkPosition, Seq<VoxelType>> {
        Map::new(
            |p: ChunkPosition| self.chunk_data@.contains_key(chunk_key(p)),
            |p: ChunkPosition| self.chunk_data@[chunk_key(p)]@.voxels,
        )
    }

    /// The mesh cache, by position.
    pub closed spec fn meshes(&self) -> Map<ChunkPosition, MeshView> {
        Map::new(
            |p: ChunkPosition| self.chunk_meshes@.contains_key(chunk_key(p)),
            |p: ChunkPosition| self.chunk_meshes@[chunk_key(p)]@,
        )
    }

    pub closed spec fn registry(&self) -> VoxelRegistry {
        self.voxel_registry
    }

    pub closed spec fn spec_generator(&self) -> TerrainGenerator {
        self.generator
    }

    pub closed spec fn origin(&self) -> Option<ChunkPosition> {
        self.last_update_position
    }

    /// The loaded positions, nearest to the origin first.
    pub closed spec fn order(&self) -> Seq<ChunkPosition> {
        self.chunk_order@
    }

    /// The tables agree with their keys: each chunk is stored under its own
    /// position's key and lies in world bounds; each cached mesh belongs to a
    /// loaded chunk and is well formed and no larger than a chunk's mesh can be.
    closed spec fn tables_wf(&self) -> bool {
        &&& self.voxel_registry.wf()
        &&& forall|k: u128| #[trigger]
            self.chunk_data@.contains_key(k) ==> self.chunk_data@[k].wf() && chunk_key(
                self.chunk_data@[k]@.position,
            ) == k && self.chunk_data@[k]@.position.in_world_bounds()
        &&& forall|k: u128| #[trigger]
            self.chunk_meshes@.contains_key(k) ==> self.chunk_data@.contains_key(k)
                && self.chunk_meshes@[k]@.wf() && self.chunk_meshes@[k]@.vertices.len()
                <= MAX_CHUNK_MESH_VERTICES
    }

    /// The tables agree with their keys, and the loaded chunks are exactly
    /// those in range of the last origin, listed nearest first.
    pub closed spec fn wf(&self) -> bool {
        &&& self.tables_wf()
        &&& forall|p: ChunkPosition| #[trigger]
            self.chunks().contains_key(p) <==> self.chunk_order@.contains(p)
        &&& match self.last_update_position {
            Some(origin) => is_priority_order(origin, self.chunk_order@)
                && origin.can_stream_around(),
            None => self.chunk_order@.len() == 0,
        }
    }

    /// The kind of the voxel at `p`; a voxel of a chunk that is not loaded is air.
    pub open spec fn spec_voxel_type(&self, p: WorldPosition) -> VoxelType {
        let c = p.spec_chunk_position();
        if self.chunks().contains_key(c) {
            voxel_at(self.chunks()[c], p.spec_local_position())
        } else {
            VoxelType::Air
        }
    }

    pub open spec fn spec_is_occluding(&self, p: WorldPosition) -> bool {
        self.registry().properties_of(self.spec_voxel_type(p)).is_occluding
    }

    pub open spec fn spec_occluding_neighbors(&self, p: WorldPosition) -> OccludingVoxelNeighbors {
        OccludingVoxelNeighbors {
            front: self.spec_is_occluding(WorldPosition { z: (p.z + 1) as i32, ..p }),
            back: self.spec_is_occluding(WorldPosition { z: (p.z - 1) as i32, ..p }),
            right: self.spec_is_occluding(WorldPosition { x: (p.x + 1) as i32, ..p }),
            left: self.spec_is_occluding(WorldPosition { x: (p.x - 1) as i32, ..p }),
            top: self.spec_is_occluding(WorldPosition { y: (p.y + 1) as i32, ..p }),
            bottom: self.spec_is_occluding(WorldPosition { y: (p.y - 1) as i32, ..p }),
        }
    }

    /// An empty world with the built-in voxel kinds and the layered terrain.
    pub fn new() -> (r: Self)
        ensures
            r.wf(),
            r.chunks() == Map::<ChunkPosition, Seq<VoxelType>>::empty(),
            r.meshes() == Map::<ChunkPosition, MeshView>::empty(),
            r.origin() is None,
            r.spec_generator() == TerrainGenerator::Layered,
            forall|t: VoxelType| #[trigger] r.registry().properties_of(t) == builtin_properties(t),
    {
        Self::with_generator(TerrainGenerator::Layered)
    }

    /// An empty world with the built-in voxel kinds whose chunks `generator` fills.
    pub fn with_generator(generator: TerrainGenerator) -> (r: Self)
        ensures
            r.wf(),
            r.chunks() == Map::<ChunkPosition, Seq<VoxelType>>::empty(),
            r.meshes() == Map::<ChunkPosition, MeshView>::empty(),
            r.origin() is None,
            r.spec_generator() == generator,
            forall|t: VoxelType| #[trigger] r.registry().properties_of(t) == builtin_properties(t),
    {
        let r = World {
            voxel_registry: VoxelRegistry::init(),
            generator,
            last_update_position: None,
            chunk_order: Vec::new(),
            chunk_data: HashMap::new(),
            chunk_meshes: HashMap::new(),
        };
        proof {
            assert(r.chunks() =~= Map::<ChunkPosition, Seq<VoxelType>>::empty());
            assert(r.meshes() =~= Map::<ChunkPosition, MeshView>::empty());
        }
        r
    }

    pub fn voxel_registry(&self) -> (r: &VoxelRegistry)
        requires
            self.wf(),
        ensures
            *r == self.registry(),
            r.wf(),
    {
        &self.voxel_registry
    }

    /// The loaded chunks' positions, nearest to the origin first.
    pub fn chunk_positions(&self) -> (r: &Vec<ChunkPosition>)
        ensures
            r@ == self.order(),
    {
        &self.chunk_order
    }

    pub fn last_update_position(&self) -> (r: Option<ChunkPosition>)
        ensures
            r == self.origin(),
    {
        self.last_update_position
    }

    /// The loaded chunk at `p`, if any.
    pub fn chunk(&self, p: ChunkPosition) -> (r: Option<&Chunk>)
        requires
            self.wf(),
        ensures
            match r {
                Some(c) => self.chunks().contains_key(p) && c@.voxels == self.chunks()[p]
                    && c@.position == p && c.wf() && p.in_world_bounds(),
                None => !self.chunks().contains_key(p),
            },
    {
        let r = self.chunk_data.get(&key_of(p));
        proof {
            if let Some(c) = r {
                lemma_chunk_key_injective(c@.position, p);
            }
        }
        r
    }

    /// The kind of the voxel at `world_position`; air where no chunk is loaded.
    pub fn get_voxel_type(&self, world_position: WorldPosition) -> (r: VoxelType)
        requires
            self.wf(),
        ensures
            r == self.spec_voxel_type(world_position),
    {
        let (chunk_position, local_chunk_position) = world_position.local_chunk_position();
        match self.chunk(chunk_position) {
            Some(chunk) => chunk.get_voxel_type(local_chunk_position),
            None => VoxelType::Air,
        }
    }

    /// Whether the voxel at `world_position` hides its neighbours' faces.
    pub fn get_is_occluding(&self, world_position: WorldPosition) -> (r: bool)
        requires
            self.wf(),
        ensures
            r == self.spec_is_occluding(world_position),
    {
        let voxel_type = self.get_voxel_type(world_position);
        self.voxel_registry.get_properties(&voxel_type).is_occluding()
    }

    /// For each face of the voxel at `world_position`, whether the neighbour
    /// across it hides it.
    pub fn get_occluding_neighbors(&self, world_position: WorldPosition) -> (r: OccludingVoxelNeighbors)
        requires
            self.wf(),
            world_position.has_neighbors(),
        ensures
            r == self.spec_occluding_neighbors(world_position),
    {
        let front = self.get_is_occluding(world_position.front());
        let back = self.get_is_occluding(world_position.back());
        let right = self.get_is_occluding(world_position.right());
        let left = self.get_is_occluding(world_position.left());
        let top = self.get_is_occluding(world_position.top());
        let bottom = self.get_is_occluding(world_position.bottom());
        OccludingVoxelNeighbors::new(front, back, right, left, top, bottom)
    }
}

/// The loaded chunks after streaming around `origin`: those in range, kept as
/// they were where already loaded, freshly generated elsewhere.
pub open spec fn streamed_chunks(
    chunks: Map<ChunkPosition, Seq<VoxelType>>,
    generator: TerrainGenerator,
    origin: ChunkPosition,
) -> Map<ChunkPosition, Seq<VoxelType>> {
    Map::new(
        |p: ChunkPosition| in_range(origin, p),
        |p: ChunkPosition| if chunks.contains_key(p) { chunks[p] } else { terrain(generator, p) },
    )
}

/// The mesh cache after streaming around `origin`: the entries in range.
pub open spec fn retained_meshes(meshes: Map<ChunkPosition, MeshView>, origin: ChunkPosition) -> Map<ChunkPosition, MeshView> {
    Map::new(|p: ChunkPosition| meshes.contains_key(p) && in_range(origin, p), |p: ChunkPosition| meshes[p])
}

/// Whether `p` is within render distance of `origin`.
pub fn chunk_in_range(origin: ChunkPosition, p: ChunkPosition) -> (r: bool)
    ensures
        r == in_range(origin, p),
{
    let dx = p.x as i128 - origin.x as i128;
    let dy = p.y as i128 - origin.y as i128;
    let dz = p.z as i128 - origin.z as i128;
    assert(0 <= dx * dx < 0x1_0000_0000_0000_0000_0 && 0 <= dz * dz < 0x1_0000_0000_0000_0000_0) by (nonlinear_arith)
        requires -0x1_0000_0000 < dx < 0x1_0000_0000, -0x1_0000_0000 < dz < 0x1_0000_0000;
    let horizontal = dx * dx + dz * dz;
    let reach = RENDER_DISTANCE_XZ as i128;
    horizontal <= reach * reach && -(RENDER_DISTANCE_Y as i128) <= dy && dy <= RENDER_DISTANCE_Y as i128
}

impl World {
    proof fn lemma_unload_result(before: World, after: World, origin: ChunkPosition)
        requires
            before.wf(),
            after.chunk_order == before.chunk_order,
            forall|k: u128| #[trigger]
                after.chunk_data@.contains_key(k) <==> before.chunk_data@.contains_key(k) && (in_range(
                    origin,
                    before.chunk_data@[k]@.position,
                ) || !after.chunk_order@.contains(before.chunk_data@[k]@.position)),
            forall|k: u128| #[trigger]
                after.chunk_data@.contains_key(k) ==> after.chunk_data@[k] == before.chunk_data@[k],
            forall|k: u128| #[trigger]
                after.chunk_meshes@.contains_key(k) <==> before.chunk_meshes@.contains_key(k) && (in_range(
                    origin,
                    before.chunk_data@[k]@.position,
                ) || !after.chunk_order@.contains(before.chunk_data@[k]@.position)),
            forall|k: u128| #[trigger]
                after.chunk_meshes@.contains_key(k) ==> after.chunk_meshes@[k] == before.chunk_meshes@[k],
        ensures
            after.chunks() == Map::new(
                |p: ChunkPosition| before.chunks().contains_key(p) && in_range(origin, p),
                |p: ChunkPosition| before.chunks()[p],
            ),
            after.meshes() == retained_meshes(before.meshes(), origin),
    {
        assert forall|p: ChunkPosition| #[trigger] after.chunks().contains_key(p) <==> before.chunks().contains_key(p)
            && in_range(origin, p) by {
            let k = chunk_key(p);
            if before.chunk_data@.contains_key(k) {
                lemma_chunk_key_injective(before.chunk_data@[k]@.position, p);
                assert(before.chunks().contains_key(p));
            }
        }
        assert forall|p: ChunkPosition| #[trigger] after.meshes().contains_key(p) <==> before.meshes().contains_key(p)
            && in_range(origin, p) by {
            let k = chunk_key(p);
            if before.chunk_meshes@.contains_key(k) {
                lemma_chunk_key_injective(before.chunk_data@[k]@.position, p);
                assert(before.chunks().contains_key(p));
            }
        }
        assert(after.chunks() =~= Map::new(
            |p: ChunkPosition| before.chunks().contains_key(p) && in_range(origin, p),
            |p: ChunkPosition| before.chunks()[p],
        ));
        assert(after.meshes() =~= retained_meshes(before.meshes(), origin));
    }

    /// Drops the loaded chunks out of range of `origin`, and their cached meshes.
    fn unload_out_of_range_chunks(&mut self, origin: ChunkPosition)
        requires
            old(self).wf(),
        ensures
            final(self).tables_wf(),
            final(self).chunk_order == old(self).chunk_order,
            final(self).last_update_position == old(self).last_update_position,
            final(self).voxel_registry == old(self).voxel_registry,
            final(self).generator == old(self).generator,
            final(self).chunks() == Map::new(
                |p: ChunkPosition| old(self).chunks().contains_key(p) && in_range(origin, p),
                |p: ChunkPosition| old(self).chunks()[p],
            ),
            final(self).meshes() == retained_meshes(old(self).meshes(), origin),
    {
        let ghost old_data = self.chunk_data@;
        let ghost old_meshes = self.chunk_meshes@;
        let n = self.chunk_order.len();
        let mut i: usize = 0;
        while i < n
            invariant
                self.tables_wf(),
                self.chunk_order == old(self).chunk_order,
                self.last_update_position == old(self).last_update_position,
                self.voxel_registry == old(self).voxel_registry,
                self.generator == old(self).generator,
                old_data == old(self).chunk_data@,
                old_meshes == old(self).chunk_meshes@,
                n == self.chunk_order@.len(),
                0 <= i <= n,
                forall|k: u128| #[trigger]
                    self.chunk_data@.contains_key(k) <==> old_data.contains_key(k) && (in_range(
                        origin,
                        old_data[k]@.position,
                    ) || !self.chunk_order@.subrange(0, i as int).contains(old_data[k]@.position)),
                forall|k: u128| #[trigger]
                    self.chunk_data@.contains_key(k) ==> self.chunk_data@[k] == old_data[k],
                forall|k: u128| #[trigger]
                    self.chunk_meshes@.contains_key(k) <==> old_meshes.contains_key(k) && (in_range(
                        origin,
                        old_data[k]@.position,
                    ) || !self.chunk_order@.subrange(0, i as int).contains(old_data[k]@.position)),
                forall|k: u128| #[trigger]
                    self.chunk_meshes@.contains_key(k) ==> self.chunk_meshes@[k] == old_meshes[k],
                forall|k: u128| #[trigger]
                    old_data.contains_key(k) ==> chunk_key(old_data[k]@.position) == k,
                forall|k: u128| #[trigger]
                    old_meshes.contains_key(k) ==> old_data.contains_key(k),
            decreases n - i,
        {
            let p = self.chunk_order[i];
            let ghost prefix = self.chunk_order@.subrange(0, i as int);
            let ghost next = self.chunk_order@.subrange(0, i + 1);
            let ghost before_data = self.chunk_data@;
            let ghost before_meshes = self.chunk_meshes@;
            let ghost gone = !in_range(origin, p);
            proof {
                assert(next =~= prefix.push(p));
                assert forall|q: ChunkPosition| #[trigger] next.contains(q) <==> prefix.contains(q) || q == p by {
                    if q == p {
                        assert(next[i as int] == p);
                    }
                    if prefix.contains(q) {
                        let j = choose|j: int| 0 <= j < prefix.len() && prefix[j] == q;
                        assert(next[j] == q);
                    }
                    if next.contains(q) && q != p {
                        let j = choose|j: int| 0 <= j < next.len() && next[j] == q;
                        assert(prefix[j] == q);
                    }
                }
            }
            if !chunk_in_range(origin, p) {
                let key = key_of(p);
                self.chunk_data.remove(&key);
                self.chunk_meshes.remove(&key);
                proof {
                    assert(self.chunk_data@ == before_data.remove(chunk_key(p)));
                    assert(self.chunk_meshes@ == before_meshes.remove(chunk_key(p)));
                }
            }
            proof {
                assert forall|k: u128| #[trigger] self.chunk_data@.contains_key(k) <==> old_data.contains_key(k) && (
                in_range(origin, old_data[k]@.position) || !next.contains(old_data[k]@.position)) by {
                    if old_data.contains_key(k) {
                        lemma_chunk_key_injective(old_data[k]@.position, p);
                    }
                }
                assert forall|k: u128| #[trigger] self.chunk_meshes@.contains_key(k) <==> old_meshes.contains_key(k) && (
                in_range(origin, old_data[k]@.position) || !next.contains(old_data[k]@.position)) by {
                    if old_meshes.contains_key(k) {
                        lemma_chunk_key_injective(old_data[k]@.position, p);
                    }
                }
            }
            i = i + 1;
        }
        proof {
            assert(self.chunk_order@.subrange(0, n as int) =~= self.chunk_order@);
            Self::lemma_unload_result(*old(self), *self, origin);
        }
    }
}

impl World {
    /// Loads each chunk of `chunks_in_range` that is not loaded yet, as the
    /// generator makes it; loaded chunks stay as they are.
    fn load_in_range_chunks(&mut self, chunks_in_range: &Vec<ChunkPosition>)
        requires
            old(self).tables_wf(),
            forall|i: int| 0 <= i < chunks_in_range@.len() ==> (#[trigger] chunks_in_range@[i]).in_world_bounds(),
        ensures
            final(self).tables_wf(),
            final(self).chunk_order == old(self).chunk_order,
            final(self).last_update_position == old(self).last_update_position,
            final(self).voxel_registry == old(self).voxel_registry,
            final(self).generator == old(self).generator,
            final(self).chunk_meshes@ == old(self).chunk_meshes@,
            final(self).chunks() == Map::new(
                |p: ChunkPosition| old(self).chunks().contains_key(p) || chunks_in_range@.contains(p),
                |p: ChunkPosition|
                    if old(self).chunks().contains_key(p) {
                        old(self).chunks()[p]
                    } else {
                        terrain(old(self).generator, p)
                    },
            ),
    {
        let ghost old_data = self.chunk_data@;
        let n = chunks_in_range.len();
        let mut j: usize = 0;
        while j < n
            invariant
                self.tables_wf(),
                self.chunk_order == old(self).chunk_order,
                self.last_update_position == old(self).last_update_position,
                self.voxel_registry == old(self).voxel_registry,
                self.generator == old(self).generator,
                self.chunk_meshes@ == old(self).chunk_meshes@,
                old_data == old(self).chunk_data@,
                n == chunks_in_range@.len(),
                0 <= j <= n,
                forall|i: int| 0 <= i < chunks_in_range@.len() ==> (#[trigger] chunks_in_range@[i]).in_world_bounds(),
                forall|k: u128| #[trigger]
                    old_data.contains_key(k) ==> self.chunk_data@.contains_key(k) && self.chunk_data@[k] == old_data[k],
                forall|p: ChunkPosition| #[trigger]
                    self.chunk_data@.contains_key(chunk_key(p)) <==> old_data.contains_key(chunk_key(p))
                        || chunks_in_range@.subrange(0, j as int).contains(p),
                forall|p: ChunkPosition|
                    self.chunk_data@.contains_key(chunk_key(p)) && !old_data.contains_key(chunk_key(p))
                        ==> (#[trigger] self.chunk_data@[chunk_key(p)])@.voxels == terrain(self.generator, p),
            decreases n - j,
        {
            let p = chunks_in_range[j];
            let ghost prefix = chunks_in_range@.subrange(0, j as int);
            let ghost next = chunks_in_range@.subrange(0, j + 1);
            let ghost before_data = self.chunk_data@;
            proof {
                assert(next =~= prefix.push(p));
                assert forall|q: ChunkPosition| #[trigger] next.contains(q) <==> prefix.contains(q) || q == p by {
                    if q == p {
                        assert(next[j as int] == p);
                    }
                    if prefix.contains(q) {
                        let t = choose|t: int| 0 <= t < prefix.len() && prefix[t] == q;
                        assert(next[t] == q);
                    }
                    if next.contains(q) && q != p {
                        let t = choose|t: int| 0 <= t < next.len() && next[t] == q;
                        assert(prefix[t] == q);
                    }
                }
            }
            let key = key_of(p);
            if !self.chunk_data.contains_key(&key) {
                let chunk = Chunk::generate(self.generator, p);
                self.chunk_data.insert(key, chunk);
                proof {
                    assert(self.chunk_data@ == before_data.insert(chunk_key(p), chunk));
                }
            }
            proof {
                assert forall|q: ChunkPosition| #[trigger] self.chunk_data@.contains_key(chunk_key(q))
                    <==> old_data.contains_key(chunk_key(q)) || next.contains(q) by {
                    lemma_chunk_key_injective(q, p);
                }
                assert forall|q: ChunkPosition|
                    self.chunk_data@.contains_key(chunk_key(q)) && !old_data.contains_key(chunk_key(q))
                        implies (#[trigger] self.chunk_data@[chunk_key(q)])@.voxels == terrain(self.generator, q) by {
                    lemma_chunk_key_injective(q, p);
                }
            }
            j = j + 1;
        }
        proof {
            assert(chunks_in_range@.subrange(0, n as int) =~= chunks_in_range@);
            assert(self.chunks() =~= Map::new(
                |p: ChunkPosition| old(self).chunks().contains_key(p) || chunks_in_range@.contains(p),
                |p: ChunkPosition|
                    if old(self).chunks().contains_key(p) {
                        old(self).chunks()[p]
                    } else {
                        terrain(old(self).generator, p)
                    },
            ));
        }
    }
}

impl World {
    /// Streams the world around `origin_chunk_position`: records it as the
    /// origin, unloads every chunk out of range with its cached mesh, and loads
    /// every chunk in range that is not loaded yet, nearest first. Chunks that
    /// stay in range are kept as they are.
    pub fn update_chunks(&mut self, origin_chunk_position: ChunkPosition)
        requires
            old(self).wf(),
            origin_chunk_position.can_stream_around(),
        ensures
            final(self).wf(),
            final(self).origin() == Some(origin_chunk_position),
            final(self).registry() == old(self).registry(),
            final(self).spec_generator() == old(self).spec_generator(),
            final(self).chunks() == streamed_chunks(
                old(self).chunks(),
                old(self).spec_generator(),
                origin_chunk_position,
            ),
            final(self).meshes() == retained_meshes(old(self).meshes(), origin_chunk_position),
            is_priority_order(origin_chunk_position, final(self).order()),
    {
        let chunks_in_range = determine_chunks_in_range(origin_chunk_position);
        proof {
            assert forall|i: int| 0 <= i < chunks_in_range@.len() implies (#[trigger] chunks_in_range@[i]).in_world_bounds() by {
                lemma_in_range_box(origin_chunk_position, chunks_in_range@[i]);
            }
        }
        self.unload_out_of_range_chunks(origin_chunk_position);
        let ghost middle = self.chunks();
        self.load_in_range_chunks(&chunks_in_range);
        self.chunk_order = chunks_in_range;
        self.last_update_position = Some(origin_chunk_position);
        proof {
            let target = streamed_chunks(old(self).chunks(), old(self).spec_generator(), origin_chunk_position);
            assert(self.chunks() =~= target);
            assert forall|p: ChunkPosition| #[trigger] self.chunks().contains_key(p) <==> self.chunk_order@.contains(p) by {
                if self.chunk_order@.contains(p) {
                    let t = choose|t: int| 0 <= t < self.chunk_order@.len() && self.chunk_order@[t] == p;
                    assert(in_range(origin_chunk_position, self.chunk_order@[t]));
                }
            }
        }
    }
}

impl World {
    /// The loaded chunks whose mesh is not cached, nearest first.
    pub fn uncached_chunk_positions(&self) -> (r: Vec<ChunkPosition>)
        requires
            self.wf(),
        ensures
            r@ == self.order().filter(|p: ChunkPosition| !self.meshes().contains_key(p)),
            forall|i: int|
                0 <= i < r@.len() ==> self.chunks().contains_key(#[trigger] r@[i]) && !self.meshes().contains_key(r@[i]),
            forall|p: ChunkPosition|
                self.chunks().contains_key(p) && !self.meshes().contains_key(p) ==> #[trigger] r@.contains(p),
    {
        let ghost pred = |p: ChunkPosition| !self.meshes().contains_key(p);
        let mut r: Vec<ChunkPosition> = Vec::new();
        let n = self.chunk_order.len();
        let mut i: usize = 0;
        while i < n
            invariant
                self.wf(),
                n == self.chunk_order@.len(),
                0 <= i <= n,
                pred == (|p: ChunkPosition| !self.meshes().contains_key(p)),
                r@ == self.chunk_order@.subrange(0, i as int).filter(pred),
                forall|j: int| 0 <= j < r@.len() ==> self.chunks().contains_key(#[trigger] r@[j]),
            decreases n - i,
        {
            let p = self.chunk_order[i];
            proof {
                let next = self.chunk_order@.subrange(0, i + 1);
                assert(next.drop_last() =~= self.chunk_order@.subrange(0, i as int));
                reveal_with_fuel(Seq::filter, 1);
                assert(self.chunk_order@.contains(p)) by {
                    assert(self.chunk_order@[i as int] == p);
                }
            }
            if !self.chunk_meshes.contains_key(&key_of(p)) {
                r.push(p);
            }
            i = i + 1;
        }
        proof {
            broadcast use vstd::seq_lib::group_filter_ensures;

            assert(self.chunk_order@.subrange(0, n as int) =~= self.chunk_order@);
            assert forall|i: int| 0 <= i < r@.len() implies !self.meshes().contains_key(#[trigger] r@[i]) by {
                assert(pred(r@[i]));
            }
            assert forall|p: ChunkPosition| self.chunks().contains_key(p) && !self.meshes().contains_key(p)
                implies #[trigger] r@.contains(p) by {
                assert(self.chunk_order@.contains(p));
                let t = choose|t: int| 0 <= t < self.chunk_order@.len() && self.chunk_order@[t] == p;
                assert(pred(self.chunk_order@[t]));
            }
        }
        r
    }

    /// The cached mesh of the chunk at `p`, if any.
    pub fn cached_mesh(&self, p: ChunkPosition) -> (r: Option<&Mesh>)
        requires
            self.wf(),
        ensures
            match r {
                Some(m) => self.meshes().contains_key(p) && m@ == self.meshes()[p],
                None => !self.meshes().contains_key(p),
            },
    {
        self.chunk_meshes.get(&key_of(p))
    }

    /// Caches `chunk_mesh` as the mesh of the loaded chunk at `chunk_position`.
    pub fn insert_chunk_mesh(&mut self, chunk_position: &ChunkPosition, chunk_mesh: Mesh)
        requires
            old(self).wf(),
            old(self).chunks().contains_key(*chunk_position),
            chunk_mesh@.wf(),
            chunk_mesh@.vertices.len() <= MAX_CHUNK_MESH_VERTICES,
        ensures
            final(self).wf(),
            final(self).chunks() == old(self).chunks(),
            final(self).meshes() == old(self).meshes().insert(*chunk_position, chunk_mesh@),
            final(self).origin() == old(self).origin(),
            final(self).order() == old(self).order(),
            final(self).registry() == old(self).registry(),
            final(self).spec_generator() == old(self).spec_generator(),
    {
        let ghost m = chunk_mesh@;
        self.chunk_meshes.insert(key_of(*chunk_position), chunk_mesh);
        proof {
            assert forall|q: ChunkPosition| #[trigger] self.meshes().contains_key(q) <==> old(self).meshes().insert(
                *chunk_position,
                m,
            ).contains_key(q) by {
                lemma_chunk_key_injective(q, *chunk_position);
            }
            assert forall|q: ChunkPosition| self.meshes().contains_key(q) implies #[trigger] self.meshes()[q] == old(self).meshes().insert(
                *chunk_position,
                m,
            )[q] by {
                lemma_chunk_key_injective(q, *chunk_position);
            }
            assert(self.meshes() =~= old(self).meshes().insert(*chunk_position, m));
            assert(self.chunks() =~= old(self).chunks());
        }
    }

    /// Every loaded chunk's cached mesh, merged in priority order.
    pub fn world_mesh(&self) -> (r: Mesh)
        requires
            self.wf(),
            forall|p: ChunkPosition| self.chunks().contains_key(p) ==> #[trigger] self.meshes().contains_key(p),
        ensures
            r@ == merge_all(self.order().map_values(|p: ChunkPosition| self.meshes()[p])),
            r@.wf(),
    {
        let ghost views = self.chunk_order@.map_values(|p: ChunkPosition| self.meshes()[p]);
        proof {
            match self.last_update_position {
                Some(origin) => lemma_priority_order_len(origin, self.chunk_order@),
                None => {},
            }
        }
        let mut r = Mesh::new();
        let n = self.chunk_order.len();
        let mut i: usize = 0;
        while i < n
            invariant
                self.wf(),
                forall|p: ChunkPosition| self.chunks().contains_key(p) ==> #[trigger] self.meshes().contains_key(p),
                n == self.chunk_order@.len(),
                n <= RANGE_BOX_VOLUME,
                views == self.chunk_order@.map_values(|p: ChunkPosition| self.meshes()[p]),
                0 <= i <= n,
                r@ == merge_all(views.subrange(0, i as int)),
                r@.wf(),
                r@.vertices.len() <= i * MAX_CHUNK_MESH_VERTICES,
            decreases n - i,
        {
            let p = self.chunk_order[i];
            proof {
                assert(self.chunk_order@.contains(p)) by {
                    assert(self.chunk_order@[i as int] == p);
                }
                assert(views.subrange(0, i + 1).drop_last() =~= views.subrange(0, i as int));
                assert(views.subrange(0, i + 1).last() == views[i as int]);
                assert(views[i as int] == self.meshes()[p]);
                assert(self.chunks().contains_key(p));
                assert(self.meshes().contains_key(p));
            }
            match self.chunk_meshes.get(&key_of(p)) {
                Some(m) => {
                    proof {
                        assert(m@ == self.meshes()[p]);
                        assert(r@.vertices.len() + m@.vertices.len() <= (i + 1) * MAX_CHUNK_MESH_VERTICES)
                            by (nonlinear_arith)
                            requires
                                r@.vertices.len() <= i * MAX_CHUNK_MESH_VERTICES,
                                m@.vertices.len() <= MAX_CHUNK_MESH_VERTICES;
                        assert((i + 1) * MAX_CHUNK_MESH_VERTICES <= u32::MAX) by (nonlinear_arith)
                            requires i < RANGE_BOX_VOLUME;
                        lemma_merge_wf(r@, m@);
                    }
                    r.append(m);
                },
                None => {},
            }
            i = i + 1;
        }
        proof {
            assert(views.subrange(0, n as int) =~= views);
        }
        r
    }
}

impl World {
    /// Every loaded chunk lies in range of the last origin, and every cached
    /// mesh belongs to a loaded chunk.
    pub proof fn lemma_loaded_in_range(&self)
        requires
            self.wf(),
        ensures
            forall|p: ChunkPosition| #[trigger] self.meshes().contains_key(p) ==> self.chunks().contains_key(p),
            forall|p: ChunkPosition|
                #[trigger] self.chunks().contains_key(p) ==> self.origin() is Some && in_range(self.origin()->0, p),
    {
        assert forall|p: ChunkPosition| #[trigger] self.chunks().contains_key(p) implies self.origin() is Some
            && in_range(self.origin()->0, p) by {
            assert(self.chunk_order@.contains(p));
            let t = choose|t: int| 0 <= t < self.chunk_order@.len() && self.chunk_order@[t] == p;
            assert(self.chunk_order@[t] == p);
        }
    }
}

/// Streaming twice around the same origin changes nothing the second time:
/// neither the loaded chunks nor the mesh cache.
pub proof fn lemma_streaming_idempotent(
    chunks: Map<ChunkPosition, Seq<VoxelType>>,
    meshes: Map<ChunkPosition, MeshView>,
    generator: TerrainGenerator,
    origin: ChunkPosition,
)
    ensures
        streamed_chunks(streamed_chunks(chunks, generator, origin), generator, origin) == streamed_chunks(
            chunks,
            generator,
            origin,
        ),
        retained_meshes(retained_meshes(meshes, origin), origin) == retained_meshes(meshes, origin),
{
    assert(streamed_chunks(streamed_chunks(chunks, generator, origin), generator, origin) =~= streamed_chunks(
        chunks,
        generator,
        origin,
    ));
    assert(retained_meshes(retained_meshes(meshes, origin), origin) =~= retained_meshes(meshes, origin));
}

impl World {
    /// A world last streamed around `origin` is unchanged by streaming around
    /// `origin` again: it keeps the same chunks and the same mesh cache, also
    /// when meshes were built in between.
    pub proof fn lemma_restream_unchanged(&self, origin: ChunkPosition)
        requires
            self.wf(),
            self.origin() == Some(origin),
        ensures
            streamed_chunks(self.chunks(), self.spec_generator(), origin) == self.chunks(),
            retained_meshes(self.meshes(), origin) == self.meshes(),
    {
        self.lemma_loaded_in_range();
        assert forall|p: ChunkPosition| in_range(origin, p) implies #[trigger] self.chunks().contains_key(p) by {
            assert(self.chunk_order@.contains(p));
        }
        assert(streamed_chunks(self.chunks(), self.spec_generator(), origin) =~= self.chunks());
        assert(retained_meshes(self.meshes(), origin) =~= self.meshes());
    }
}

/// `order` lists exactly the chunks in range of `origin`, nearest first, ties
/// broken by x, then y, then z.
pub open spec fn is_priority_order(origin: ChunkPosition, order: Seq<ChunkPosition>) -> bool {
    &&& forall|i: int| 0 <= i < order.len() ==> in_range(origin, #[trigger] order[i])
    &&& forall|p: ChunkPosition| in_range(origin, p) ==> #[trigger] order.contains(p)
    &&& forall|i: int, j: int|
        0 <= i < j < order.len() ==> precedes(origin, #[trigger] order[i], #[trigger] order[j])
}

/// Rank of `p` in x-major, then y, then z order among the chunks of the box
/// around `origin` that holds every chunk in range: 13 chunks along x and z
/// (twice `RENDER_DISTANCE_XZ`, plus one), 7 along y.
pub open spec fn box_rank(origin: ChunkPosition, p: ChunkPosition) -> int {
    (p.x - origin.x + 6) * 91 + (p.y - origin.y + 3) * 13 + (p.z - origin.z + 6)
}

/// `a` is loaded before `b`: nearer, or as near and first in x, y, z order.
pub open spec fn precedes(origin: ChunkPosition, a: ChunkPosition, b: ChunkPosition) -> bool {
    ||| distance_squared(origin, a) < distance_squared(origin, b)
    ||| distance_squared(origin, a) == distance_squared(origin, b) && box_rank(origin, a) < box_rank(origin, b)
}

/// Number of chunks in the box around an origin that holds every chunk in range.
pub const RANGE_BOX_VOLUME: usize = 1183;

/// Largest squared distance of a chunk in range.
pub const MAX_RANGE_DISTANCE_SQUARED: i32 = 45;

/// A chunk in range lies in the box around the origin, and no farther than
/// `MAX_RANGE_DISTANCE_SQUARED`.
pub proof fn lemma_in_range_box(origin: ChunkPosition, p: ChunkPosition)
    requires
        in_range(origin, p),
    ensures
        -RENDER_DISTANCE_XZ <= p.x - origin.x <= RENDER_DISTANCE_XZ,
        -RENDER_DISTANCE_Y <= p.y - origin.y <= RENDER_DISTANCE_Y,
        -RENDER_DISTANCE_XZ <= p.z - origin.z <= RENDER_DISTANCE_XZ,
        0 <= box_rank(origin, p) < RANGE_BOX_VOLUME,
        0 <= distance_squared(origin, p) <= MAX_RANGE_DISTANCE_SQUARED,
{
    let dx = p.x - origin.x;
    let dy = p.y - origin.y;
    let dz = p.z - origin.z;
    assert(dx * dx >= 0 && dz * dz >= 0 && dy * dy >= 0) by (nonlinear_arith);
    assert(-6 <= dx <= 6) by (nonlinear_arith)
        requires dx * dx <= 36;
    assert(-6 <= dz <= 6) by (nonlinear_arith)
        requires dz * dz <= 36;
    assert(dy * dy <= 9) by (nonlinear_arith)
        requires -3 <= dy <= 3;
}

/// Within the box, the rank names one chunk.
pub proof fn lemma_box_rank_injective(origin: ChunkPosition, a: ChunkPosition, b: ChunkPosition)
    requires
        -RENDER_DISTANCE_XZ <= a.x - origin.x <= RENDER_DISTANCE_XZ,
        -RENDER_DISTANCE_Y <= a.y - origin.y <= RENDER_DISTANCE_Y,
        -RENDER_DISTANCE_XZ <= a.z - origin.z <= RENDER_DISTANCE_XZ,
        -RENDER_DISTANCE_XZ <= b.x - origin.x <= RENDER_DISTANCE_XZ,
        -RENDER_DISTANCE_Y <= b.y - origin.y <= RENDER_DISTANCE_Y,
        -RENDER_DISTANCE_XZ <= b.z - origin.z <= RENDER_DISTANCE_XZ,
        box_rank(origin, a) == box_rank(origin, b),
    ensures
        a == b,
{
    let (ax, ay, az) = (a.x - origin.x + 6, a.y - origin.y + 3, a.z - origin.z + 6);
    let (bx, by, bz) = (b.x - origin.x + 6, b.y - origin.y + 3, b.z - origin.z + 6);
    let r = box_rank(origin, a);
    assert(r == ax * 91 + (ay * 13 + az));
    assert(r == bx * 91 + (by * 13 + bz));
    vstd::arithmetic::div_mod::lemma_fundamental_div_mod_converse(r, 91, ax, ay * 13 + az);
    vstd::arithmetic::div_mod::lemma_fundamental_div_mod_converse(r, 91, bx, by * 13 + bz);
    vstd::arithmetic::div_mod::lemma_fundamental_div_mod_converse(ay * 13 + az, 13, ay, az);
    vstd::arithmetic::div_mod::lemma_fundamental_div_mod_converse(by * 13 + bz, 13, by, bz);
}

/// `p` comes before the cursor `(d, c)`: nearer than `d`, or at distance `d`
/// with a box rank below `c`.
pub open spec fn before_cursor(origin: ChunkPosition, p: ChunkPosition, d: int, c: int) -> bool {
    ||| distance_squared(origin, p) < d
    ||| distance_squared(origin, p) == d && box_rank(origin, p) < c
}

/// `s` lists, in priority order, exactly the chunks in range before the cursor.
pub open spec fn collected(origin: ChunkPosition, s: Seq<ChunkPosition>, d: int, c: int) -> bool {
    &&& forall|i: int| 0 <= i < s.len() ==> in_range(origin, #[trigger] s[i]) && before_cursor(origin, s[i], d, c)
    &&& forall|p: ChunkPosition| in_range(origin, p) && before_cursor(origin, p, d, c) ==> #[trigger] s.contains(p)
    &&& forall|i: int, j: int| 0 <= i < j < s.len() ==> precedes(origin, #[trigger] s[i], #[trigger] s[j])
}

/// Appends the chunks in range at squared distance `d`, in box order.
fn push_layer(origin: ChunkPosition, d: i32, out: &mut Vec<ChunkPosition>)
    requires
        origin.can_stream_around(),
        0 <= d,
        collected(origin, old(out)@, d as int, 0),
    ensures
        collected(origin, final(out)@, d as int, RANGE_BOX_VOLUME as int),
{
    let mut dx: i32 = -RENDER_DISTANCE_XZ;
    while dx <= RENDER_DISTANCE_XZ
        invariant
            origin.can_stream_around(),
            0 <= d,
            -RENDER_DISTANCE_XZ <= dx <= RENDER_DISTANCE_XZ + 1,
            collected(origin, out@, d as int, (dx + 6) * 91),
        decreases RENDER_DISTANCE_XZ + 1 - dx,
    {
        let mut dy: i32 = -RENDER_DISTANCE_Y;
        while dy <= RENDER_DISTANCE_Y
            invariant
                origin.can_stream_around(),
                0 <= d,
                -RENDER_DISTANCE_XZ <= dx <= RENDER_DISTANCE_XZ,
                -RENDER_DISTANCE_Y <= dy <= RENDER_DISTANCE_Y + 1,
                collected(origin, out@, d as int, (dx + 6) * 91 + (dy + 3) * 13),
            decreases RENDER_DISTANCE_Y + 1 - dy,
        {
            let mut dz: i32 = -RENDER_DISTANCE_XZ;
            while dz <= RENDER_DISTANCE_XZ
                invariant
                    origin.can_stream_around(),
                    0 <= d,
                    -RENDER_DISTANCE_XZ <= dx <= RENDER_DISTANCE_XZ,
                    -RENDER_DISTANCE_Y <= dy <= RENDER_DISTANCE_Y,
                    -RENDER_DISTANCE_XZ <= dz <= RENDER_DISTANCE_XZ + 1,
                    collected(origin, out@, d as int, (dx + 6) * 91 + (dy + 3) * 13 + (dz + 6)),
                decreases RENDER_DISTANCE_XZ + 1 - dz,
            {
                let ghost before = out@;
                let ghost c = (dx + 6) * 91 + (dy + 3) * 13 + (dz + 6);
                let p = ChunkPosition::new(origin.x + dx, origin.y + dy, origin.z + dz);
                assert(box_rank(origin, p) == c);
                assert(0 <= dx * dx <= 36 && 0 <= dz * dz <= 49 && 0 <= dy * dy <= 9) by (nonlinear_arith)
                    requires -6 <= dx <= 6, -6 <= dz <= 7, -3 <= dy <= 3;
                let horizontal = dx * dx + dz * dz;
                let distance = horizontal + dy * dy;
                assert(distance == distance_squared(origin, p));
                if horizontal <= RENDER_DISTANCE_XZ * RENDER_DISTANCE_XZ && distance == d {
                    out.push(p);
                }
                proof {
                    let s = out@;
                    assert forall|i: int| 0 <= i < s.len() implies in_range(origin, #[trigger] s[i])
                        && before_cursor(origin, s[i], d as int, c + 1) by {
                        if i < before.len() {
                            assert(s[i] == before[i]);
                        }
                    }
                    assert forall|q: ChunkPosition| in_range(origin, q) && before_cursor(origin, q, d as int, c + 1)
                        implies #[trigger] s.contains(q) by {
                        if before_cursor(origin, q, d as int, c) {
                            assert(before.contains(q));
                            let k = choose|k: int| 0 <= k < before.len() && before[k] == q;
                            assert(s[k] == q);
                        } else {
                            lemma_in_range_box(origin, q);
                            lemma_box_rank_injective(origin, q, p);
                            assert(s[s.len() - 1] == q);
                        }
                    }
                    assert forall|i: int, j: int| 0 <= i < j < s.len() implies precedes(origin, #[trigger] s[i], #[trigger] s[j]) by {
                        if j < before.len() {
                            assert(s[i] == before[i] && s[j] == before[j]);
                        } else {
                            assert(s[i] == before[i]);
                        }
                    }
                }
                dz = dz + 1;
            }
            dy = dy + 1;
        }
        dx = dx + 1;
    }
}

/// Every chunk in range of `origin`, nearest first.
pub fn determine_chunks_in_range(origin: ChunkPosition) -> (r: Vec<ChunkPosition>)
    requires
        origin.can_stream_around(),
    ensures
        is_priority_order(origin, r@),
        r@.len() <= RANGE_BOX_VOLUME,
{
    let mut chunks_in_range: Vec<ChunkPosition> = Vec::new();
    let mut d: i32 = 0;
    proof {
        assert forall|q: ChunkPosition| in_range(origin, q) && before_cursor(origin, q, 0, 0)
            implies #[trigger] chunks_in_range@.contains(q) by {
            lemma_in_range_box(origin, q);
        }
    }
    while d <= MAX_RANGE_DISTANCE_SQUARED
        invariant
            origin.can_stream_around(),
            0 <= d <= MAX_RANGE_DISTANCE_SQUARED + 1,
            collected(origin, chunks_in_range@, d as int, 0),
        decreases MAX_RANGE_DISTANCE_SQUARED + 1 - d,
    {
        push_layer(origin, d, &mut chunks_in_range);
        proof {
            let s = chunks_in_range@;
            assert forall|i: int| 0 <= i < s.len() implies in_range(origin, #[trigger] s[i]) && before_cursor(origin, s[i], d + 1, 0) by {
                lemma_in_range_box(origin, s[i]);
            }
            assert forall|q: ChunkPosition| in_range(origin, q) && before_cursor(origin, q, d + 1, 0)
                implies #[trigger] s.contains(q) by {
                lemma_in_range_box(origin, q);
            }
        }
        d = d + 1;
    }
    proof {
        let s = chunks_in_range@;
        assert forall|q: ChunkPosition| in_range(origin, q) implies #[trigger] s.contains(q) by {
            lemma_in_range_box(origin, q);
        }
        lemma_priority_order_len(origin, s);
    }
    chunks_in_range
}

/// A priority order has at most one entry per chunk of the box.
pub proof fn lemma_priority_order_len(origin: ChunkPosition, s: Seq<ChunkPosition>)
    requires
        forall|i: int| 0 <= i < s.len() ==> in_range(origin, #[trigger] s[i]),
        forall|i: int, j: int| 0 <= i < j < s.len() ==> precedes(origin, #[trigger] s[i], #[trigger] s[j]),
    ensures
        s.len() <= RANGE_BOX_VOLUME,
{
    let ranks = s.map_values(|p: ChunkPosition| box_rank(origin, p));
    assert forall|i: int, j: int| 0 <= i < ranks.len() && 0 <= j < ranks.len() && i != j implies ranks[i] != ranks[j] by {
        lemma_in_range_box(origin, s[i]);
        lemma_in_range_box(origin, s[j]);
        if ranks[i] == ranks[j] {
            lemma_box_rank_injective(origin, s[i], s[j]);
            if i < j {
                assert(precedes(origin, s[i], s[j]));
            } else {
                assert(precedes(origin, s[j], s[i]));
            }
        }
    }
    assert(ranks.no_duplicates());
    ranks.unique_seq_to_set();
    let range = vstd::set_lib::set_int_range(0, RANGE_BOX_VOLUME as int);
    vstd::set_lib::lemma_int_range(0, RANGE_BOX_VOLUME as int);
    assert forall|r: int| ranks.to_set().contains(r) implies range.contains(r) by {
        let k = choose|k: int| 0 <= k < ranks.len() && ranks[k] == r;
        lemma_in_range_box(origin, s[k]);
    }
    vstd::set_lib::lemma_len_subset(ranks.to_set(), range);
}

} // verus!
