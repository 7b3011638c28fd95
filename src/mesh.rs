use vstd::prelude::*;

use crate::chunk::{voxel_at, Chunk, ChunkView, CHUNK_VOLUME};
use crate::position::{ChunkPosition, LocalChunkPosition, WorldPosition, CHUNK_SIZE};
use crate::voxel::{TextureType, VoxelProperties, VoxelRegistry, VoxelType};
use crate::world::World;

verus! {

/// Most vertices a chunk's mesh can have: four per face, six faces per voxel.
pub const MAX_CHUNK_MESH_VERTICES: usize = 786432;

/// A mesh as sequences: vertices, and triangle corners as indices into them.
pub struct MeshView {
    pub vertices: Seq<Vertex>,
    pub indices: Seq<u32>,
}

impl MeshView {
    /// Every index names a vertex of this mesh.
    pub open spec fn wf(self) -> bool {
        forall|i: int| 0 <= i < self.indices.len() ==> (#[trigger] self.indices[i]) < self.vertices.len()
    }
}

/// Corner of a texture's rectangle in the atlas, along one axis.
#[derive(Clone, Copy, Debug, PartialEq, Eq, Structural, Hash)]
pub enum TextureEdge {
    Min,
    Max,
}

/// A mesh vertex. Positions are in half-voxel units, so that the corners of the
/// unit cube centred on a voxel have integer coordinates; texture coordinates
/// name a corner of a texture's rectangle in the atlas.
#[derive(Clone, Copy, Debug, PartialEq, Eq, Structural, Hash)]
pub struct Vertex {
    pub x: i64,
    pub y: i64,
    pub z: i64,
    pub texture: TextureType,
    pub u: TextureEdge,
    pub v: TextureEdge,
}

/// An ordered list of vertices and the triangles over them.
pub struct Mesh {
    vertices: Vec<Vertex>,
    indices: Vec<u32>,
}

impl View for Mesh {
    type V = MeshView;

    closed spec fn view(&self) -> MeshView {
        MeshView { vertices: self.vertices@, indices: self.indices@ }
    }
}

/// For each face of a voxel, whether the neighbour across it hides that face.
#[derive(Clone, Copy, Debug, PartialEq, Eq, Structural)]
pub struct OccludingVoxelNeighbors {
    pub front: bool,
    pub back: bool,
    pub right: bool,
    pub left: bool,
    pub top: bool,
    pub bottom: bool,
}

impl OccludingVoxelNeighbors {
    pub fn new(front: bool, back: bool, right: bool, left: bool, top: bool, bottom: bool) -> (r: Self)
        ensures
            r == (OccludingVoxelNeighbors { front, back, right, left, top, bottom }),
    {
        OccludingVoxelNeighbors { front, back, right, left, top, bottom }
    }
}

/// A face of a voxel.
#[derive(Clone, Copy, Debug, PartialEq, Eq, Structural, Hash)]
pub enum Face {
    /// `+z`
    Front,
    /// `-z`
    Back,
    /// `+x`
    Right,
    /// `-x`
    Left,
    /// `+y`
    Top,
    /// `-y`
    Bottom,
}

/// A corner of a face: its offset from the voxel's centre in half-voxel units
/// and the texture corner it shows.
#[derive(Clone, Copy, Debug, PartialEq, Eq, Structural)]
pub struct Corner {
    pub dx: i64,
    pub dy: i64,
    pub dz: i64,
    pub u: TextureEdge,
    pub v: TextureEdge,
}

pub open spec fn corner(dx: int, dy: int, dz: int, u: TextureEdge, v: TextureEdge) -> Corner {
    Corner { dx: dx as i64, dy: dy as i64, dz: dz as i64, u, v }
}

/// The four corners of each face, in drawing order.
pub open spec fn face_corners(face: Face) -> Seq<Corner> {
    let (lo, hi) = (TextureEdge::Min, TextureEdge::Max);
    match face {
        Face::Front => seq![
            corner(-1, -1, 1, lo, hi),
            corner(1, -1, 1, hi, hi),
            corner(1, 1, 1, hi, lo),
            corner(-1, 1, 1, lo, lo),
        ],
        Face::Back => seq![
            corner(-1, -1, -1, hi, hi),
            corner(-1, 1, -1, hi, lo),
            corner(1, 1, -1, lo, lo),
            corner(1, -1, -1, lo, hi),
        ],
        Face::Right => seq![
            corner(1, -1, -1, hi, hi),
            corner(1, 1, -1, hi, lo),
            corner(1, 1, 1, lo, lo),
            corner(1, -1, 1, lo, hi),
        ],
        Face::Left => seq![
            corner(-1, -1, -1, lo, hi),
            corner(-1, -1, 1, hi, hi),
            corner(-1, 1, 1, hi, lo),
            corner(-1, 1, -1, lo, lo),
        ],
        Face::Top => seq![
            corner(-1, 1, -1, lo, lo),
            corner(-1, 1, 1, lo, hi),
            corner(1, 1, 1, hi, hi),
            corner(1, 1, -1, hi, lo),
        ],
        Face::Bottom => seq![
            corner(-1, -1, -1, lo, hi),
            corner(1, -1, -1, hi, hi),
            corner(1, -1, 1, hi, lo),
            corner(-1, -1, 1, lo, lo),
        ],
    }
}

fn corners_of(face: Face) -> (r: Vec<Corner>)
    ensures
        r@ == face_corners(face),
{
    let (lo, hi) = (TextureEdge::Min, TextureEdge::Max);
    let r = match face {
        Face::Front => vec![
            Corner { dx: -1, dy: -1, dz: 1, u: lo, v: hi },
            Corner { dx: 1, dy: -1, dz: 1, u: hi, v: hi },
            Corner { dx: 1, dy: 1, dz: 1, u: hi, v: lo },
            Corner { dx: -1, dy: 1, dz: 1, u: lo, v: lo },
        ],
        Face::Back => vec![
            Corner { dx: -1, dy: -1, dz: -1, u: hi, v: hi },
            Corner { dx: -1, dy: 1, dz: -1, u: hi, v: lo },
            Corner { dx: 1, dy: 1, dz: -1, u: lo, v: lo },
            Corner { dx: 1, dy: -1, dz: -1, u: lo, v: hi },
        ],
        Face::Right => vec![
            Corner { dx: 1, dy: -1, dz: -1, u: hi, v: hi },
            Corner { dx: 1, dy: 1, dz: -1, u: hi, v: lo },
            Corner { dx: 1, dy: 1, dz: 1, u: lo, v: lo },
            Corner { dx: 1, dy: -1, dz: 1, u: lo, v: hi },
        ],
        Face::Left => vec![
            Corner { dx: -1, dy: -1, dz: -1, u: lo, v: hi },
            Corner { dx: -1, dy: -1, dz: 1, u: hi, v: hi },
            Corner { dx: -1, dy: 1, dz: 1, u: hi, v: lo },
            Corner { dx: -1, dy: 1, dz: -1, u: lo, v: lo },
        ],
        Face::Top => vec![
            Corner { dx: -1, dy: 1, dz: -1, u: lo, v: lo },
            Corner { dx: -1, dy: 1, dz: 1, u: lo, v: hi },
            Corner { dx: 1, dy: 1, dz: 1, u: hi, v: hi },
            Corner { dx: 1, dy: 1, dz: -1, u: hi, v: lo },
        ],
        Face::Bottom => vec![
            Corner { dx: -1, dy: -1, dz: -1, u: lo, v: hi },
            Corner { dx: 1, dy: -1, dz: -1, u: hi, v: hi },
            Corner { dx: 1, dy: -1, dz: 1, u: hi, v: lo },
            Corner { dx: -1, dy: -1, dz: 1, u: lo, v: lo },
        ],
    };
    proof {
        assert(r@ =~= face_corners(face));
    }
    r
}

/// The vertex at corner `c` of the voxel at `p`, showing `texture`.
pub open spec fn corner_vertex(p: WorldPosition, texture: TextureType, c: Corner) -> Vertex {
    Vertex {
        x: (2 * p.x + c.dx) as i64,
        y: (2 * p.y + c.dy) as i64,
        z: (2 * p.z + c.dz) as i64,
        texture,
        u: c.u,
        v: c.v,
    }
}

/// The four vertices of one face of the voxel at `p`.
pub open spec fn quad(face: Face, p: WorldPosition, texture: TextureType) -> Seq<Vertex> {
    face_corners(face).map_values(|c: Corner| corner_vertex(p, texture, c))
}

/// The two triangles of a quad whose first vertex is at `base`.
pub open spec fn quad_indices(base: int) -> Seq<u32> {
    seq![base as u32, (base + 1) as u32, (base + 2) as u32, (base + 2) as u32, (base + 3) as u32, base as u32]
}

pub open spec fn empty_mesh() -> MeshView {
    MeshView { vertices: Seq::empty(), indices: Seq::empty() }
}

/// `m` with one more face of the voxel at `p`.
#[verifier::opaque]
pub open spec fn add_face(m: MeshView, face: Face, p: WorldPosition, texture: TextureType) -> MeshView {
    MeshView {
        vertices: m.vertices + quad(face, p, texture),
        indices: m.indices + quad_indices(m.vertices.len() as int),
    }
}

#[verifier::opaque]
pub open spec fn add_face_if(m: MeshView, shown: bool, face: Face, p: WorldPosition, texture: TextureType) -> MeshView {
    if shown {
        add_face(m, face, p, texture)
    } else {
        m
    }
}

/// The mesh of the voxel at `p`: one quad for each face whose neighbour does
/// not hide it, in the order front, back, right, left, top, bottom.
#[verifier::opaque]
pub open spec fn voxel_mesh(p: WorldPosition, properties: VoxelProperties, neighbors: OccludingVoxelNeighbors) -> MeshView {
    let t = properties.textures;
    let m = add_face_if(empty_mesh(), !neighbors.front, Face::Front, p, t.front);
    let m = add_face_if(m, !neighbors.back, Face::Back, p, t.back);
    let m = add_face_if(m, !neighbors.right, Face::Right, p, t.right);
    let m = add_face_if(m, !neighbors.left, Face::Left, p, t.left);
    let m = add_face_if(m, !neighbors.top, Face::Top, p, t.top);
    add_face_if(m, !neighbors.bottom, Face::Bottom, p, t.bottom)
}

/// Number of faces not hidden by a neighbour.
pub open spec fn shown_faces(n: OccludingVoxelNeighbors) -> int {
    (if n.front { 0int } else { 1int }) + (if n.back { 0int } else { 1int }) + (if n.right { 0int } else { 1int })
        + (if n.left { 0int } else { 1int }) + (if n.top { 0int } else { 1int }) + (if n.bottom { 0int } else { 1int })
}

/// `b` appended to `a`, its indices moved past `a`'s vertices.
pub open spec fn merge(a: MeshView, b: MeshView) -> MeshView {
    MeshView {
        vertices: a.vertices + b.vertices,
        indices: a.indices + b.indices.map_values(|i: u32| (i + a.vertices.len()) as u32),
    }
}

/// All of `meshes` merged in order.
pub open spec fn merge_all(meshes: Seq<MeshView>) -> MeshView
    decreases meshes.len(),
{
    if meshes.len() == 0 {
        empty_mesh()
    } else {
        merge(merge_all(meshes.drop_last()), meshes.last())
    }
}

pub open spec fn total_vertices(meshes: Seq<MeshView>) -> nat
    decreases meshes.len(),
{
    if meshes.len() == 0 {
        0
    } else {
        total_vertices(meshes.drop_last()) + meshes.last().vertices.len()
    }
}

/// Merging keeps well-formedness, and the second mesh's indices land past the
/// first mesh's vertices.
pub proof fn lemma_merge_wf(a: MeshView, b: MeshView)
    requires
        a.wf(),
        b.wf(),
        a.vertices.len() + b.vertices.len() <= u32::MAX,
    ensures
        merge(a, b).wf(),
        merge(a, b).vertices.len() == a.vertices.len() + b.vertices.len(),
        merge(a, b).indices.len() == a.indices.len() + b.indices.len(),
        forall|i: int|
            a.indices.len() <= i < merge(a, b).indices.len() ==> merge(a, b).indices[i] == b.indices[i
                - a.indices.len()] + a.vertices.len() && merge(a, b).indices[i] >= a.vertices.len(),
{
    let m = merge(a, b);
    assert forall|i: int| 0 <= i < m.indices.len() implies (#[trigger] m.indices[i]) < m.vertices.len() by {
        if i >= a.indices.len() {
            let j = i - a.indices.len();
            assert(b.indices[j] < b.vertices.len());
        }
    }
}

pub proof fn lemma_merge_all_wf(meshes: Seq<MeshView>)
    requires
        forall|i: int| 0 <= i < meshes.len() ==> (#[trigger] meshes[i]).wf(),
        total_vertices(meshes) <= u32::MAX,
    ensures
        merge_all(meshes).wf(),
        merge_all(meshes).vertices.len() == total_vertices(meshes),
    decreases meshes.len(),
{
    if meshes.len() > 0 {
        let init = meshes.drop_last();
        assert forall|i: int| 0 <= i < init.len() implies (#[trigger] init[i]).wf() by {
            assert(init[i] == meshes[i]);
        }
        lemma_merge_all_wf(init);
        assert(meshes.last() == meshes[meshes.len() - 1]);
        lemma_merge_wf(merge_all(init), meshes.last());
    }
}

/// Quads drawn by `add_face` stay well formed.
pub proof fn lemma_add_face(m: MeshView, face: Face, p: WorldPosition, texture: TextureType)
    requires
        m.wf(),
        m.vertices.len() + 4 <= u32::MAX,
    ensures
        add_face(m, face, p, texture).wf(),
        add_face(m, face, p, texture).vertices.len() == m.vertices.len() + 4,
        add_face(m, face, p, texture).indices.len() == m.indices.len() + 6,
{
    reveal(add_face);
    let r = add_face(m, face, p, texture);
    let n = m.vertices.len() as int;
    assert(quad(face, p, texture).len() == 4);
    assert forall|i: int| 0 <= i < r.indices.len() implies (#[trigger] r.indices[i]) < r.vertices.len() by {
        if i >= m.indices.len() {
            assert(r.indices[i] == quad_indices(n)[i - m.indices.len()]);
        }
    }
}

pub proof fn lemma_add_face_if(m: MeshView, shown: bool, face: Face, p: WorldPosition, texture: TextureType, c: int)
    requires
        m.wf(),
        0 <= c <= 5,
        m.vertices.len() == 4 * c,
        m.indices.len() == 6 * c,
    ensures
        add_face_if(m, shown, face, p, texture).wf(),
        add_face_if(m, shown, face, p, texture).vertices.len() == 4 * (c + if shown { 1int } else { 0int }),
        add_face_if(m, shown, face, p, texture).indices.len() == 6 * (c + if shown { 1int } else { 0int }),
{
    reveal(add_face_if);
    if shown {
        lemma_add_face(m, face, p, texture);
    }
}

/// A voxel's mesh has four vertices and six indices per shown face.
#[verifier::rlimit(100)]
pub proof fn lemma_voxel_mesh_size(p: WorldPosition, properties: VoxelProperties, n: OccludingVoxelNeighbors)
    ensures
        voxel_mesh(p, properties, n).wf(),
        voxel_mesh(p, properties, n).vertices.len() == 4 * shown_faces(n),
        voxel_mesh(p, properties, n).indices.len() == 6 * shown_faces(n),
{
    let t = properties.textures;
    let (s1, s2, s3, s4, s5, s6) = (!n.front, !n.back, !n.right, !n.left, !n.top, !n.bottom);
    let m1 = add_face_if(empty_mesh(), s1, Face::Front, p, t.front);
    let m2 = add_face_if(m1, s2, Face::Back, p, t.back);
    let m3 = add_face_if(m2, s3, Face::Right, p, t.right);
    let m4 = add_face_if(m3, s4, Face::Left, p, t.left);
    let m5 = add_face_if(m4, s5, Face::Top, p, t.top);
    let m6 = add_face_if(m5, s6, Face::Bottom, p, t.bottom);
    let c = shown_faces(n);
    assert(m6.wf() && m6.vertices.len() == 4 * c && m6.indices.len() == 6 * c) by {
        let c1: int = if s1 { 1 } else { 0 };
        let c2: int = c1 + if s2 { 1int } else { 0int };
        let c3: int = c2 + if s3 { 1int } else { 0int };
        let c4: int = c3 + if s4 { 1int } else { 0int };
        let c5: int = c4 + if s5 { 1int } else { 0int };
        lemma_add_face_if(empty_mesh(), s1, Face::Front, p, t.front, 0);
        lemma_add_face_if(m1, s2, Face::Back, p, t.back, c1);
        lemma_add_face_if(m2, s3, Face::Right, p, t.right, c2);
        lemma_add_face_if(m3, s4, Face::Left, p, t.left, c3);
        lemma_add_face_if(m4, s5, Face::Top, p, t.top, c4);
        lemma_add_face_if(m5, s6, Face::Bottom, p, t.bottom, c5);
    }
    assert(m6 == voxel_mesh(p, properties, n)) by {
        reveal(voxel_mesh);
    }
}

impl Mesh {
    /// A mesh with nothing in it.
    pub fn new() -> (r: Self)
        ensures
            r@ == empty_mesh(),
    {
        let r = Mesh { vertices: Vec::new(), indices: Vec::new() };
        proof {
            assert(r@.vertices =~= Seq::<Vertex>::empty());
            assert(r@.indices =~= Seq::<u32>::empty());
        }
        r
    }

    pub fn vertices(&self) -> (r: &Vec<Vertex>)
        ensures
            r@ == self@.vertices,
    {
        &self.vertices
    }

    pub fn indices(&self) -> (r: &Vec<u32>)
        ensures
            r@ == self@.indices,
    {
        &self.indices
    }

    pub fn vertex_count(&self) -> (r: usize)
        ensures
            r == self@.vertices.len(),
    {
        self.vertices.len()
    }

    /// Number of indices, as a draw call takes it.
    pub fn index_count(&self) -> (r: u32)
        requires
            self@.indices.len() <= u32::MAX,
        ensures
            r == self@.indices.len(),
    {
        self.indices.len() as u32
    }

    /// Appends one face of the voxel at `p`.
    fn push_face(&mut self, face: Face, p: WorldPosition, texture: TextureType)
        requires
            old(self)@.vertices.len() + 4 <= u32::MAX,
        ensures
            final(self)@ == add_face(old(self)@, face, p, texture),
            final(self)@.vertices.len() == old(self)@.vertices.len() + 4,
    {
        let corners = corners_of(face);
        let base = self.vertices.len() as u32;
        let ghost start = self@;
        let mut k: usize = 0;
        while k < 4
            invariant
                corners@ == face_corners(face),
                start == old(self)@,
                base == start.vertices.len(),
                0 <= k <= 4,
                self@.indices == start.indices,
                self@.vertices == start.vertices + quad(face, p, texture).subrange(0, k as int),
            decreases 4 - k,
        {
            let c = corners[k];
            self.vertices.push(
                Vertex {
                    x: 2 * p.x as i64 + c.dx,
                    y: 2 * p.y as i64 + c.dy,
                    z: 2 * p.z as i64 + c.dz,
                    texture,
                    u: c.u,
                    v: c.v,
                },
            );
            proof {
                assert(quad(face, p, texture).subrange(0, k + 1) =~= quad(face, p, texture).subrange(0, k as int).push(
                    corner_vertex(p, texture, c),
                ));
                assert(self@.vertices =~= start.vertices + quad(face, p, texture).subrange(0, k + 1));
            }
            k = k + 1;
        }
        Self::extend_indices(base, &mut self.indices);
        proof {
            reveal(add_face);
            assert(quad(face, p, texture).subrange(0, 4) =~= quad(face, p, texture));
            assert(self@.indices =~= start.indices + quad_indices(base as int));
        }
    }

    /// Appends the two triangles of the quad whose first vertex is `base`.
    fn extend_indices(base: u32, indices: &mut Vec<u32>)
        requires
            base + 3 <= u32::MAX,
        ensures
            final(indices)@ == old(indices)@ + quad_indices(base as int),
    {
        indices.push(base);
        indices.push(base + 1);
        indices.push(base + 2);
        indices.push(base + 2);
        indices.push(base + 3);
        indices.push(base);
        proof {
            assert(indices@ =~= old(indices)@ + quad_indices(base as int));
        }
    }

    /// Appends one face of the voxel at `p` when `shown`.
    fn push_face_if(&mut self, shown: bool, face: Face, p: WorldPosition, texture: TextureType)
        requires
            old(self)@.vertices.len() + 4 <= u32::MAX,
        ensures
            final(self)@ == add_face_if(old(self)@, shown, face, p, texture),
            final(self)@.vertices.len() <= old(self)@.vertices.len() + 4,
    {
        proof {
            reveal(add_face_if);
        }
        if shown {
            self.push_face(face, p, texture);
        }
    }

    /// Appends `other`, moving its indices past this mesh's vertices.
    pub fn append(&mut self, other: &Mesh)
        requires
            other@.wf(),
            old(self)@.vertices.len() + other@.vertices.len() <= u32::MAX,
        ensures
            final(self)@ == merge(old(self)@, other@),
    {
        let ghost start = self@;
        let offset = self.vertices.len() as u32;
        let n = other.vertices.len();
        let mut k: usize = 0;
        while k < n
            invariant
                start == old(self)@,
                n == other@.vertices.len(),
                0 <= k <= n,
                self@.indices == start.indices,
                self@.vertices == start.vertices + other@.vertices.subrange(0, k as int),
            decreases n - k,
        {
            self.vertices.push(other.vertices[k]);
            proof {
                assert(other@.vertices.subrange(0, k + 1) =~= other@.vertices.subrange(0, k as int).push(
                    other@.vertices[k as int],
                ));
            }
            k = k + 1;
        }
        let ghost shifted = other@.indices.map_values(|i: u32| (i + start.vertices.len()) as u32);
        let m = other.indices.len();
        let mut j: usize = 0;
        while j < m
            invariant
                start == old(self)@,
                other@.wf(),
                offset == start.vertices.len(),
                start.vertices.len() + other@.vertices.len() <= u32::MAX,
                m == other@.indices.len(),
                shifted == other@.indices.map_values(|i: u32| (i + start.vertices.len()) as u32),
                0 <= j <= m,
                self@.vertices == start.vertices + other@.vertices,
                self@.indices == start.indices + shifted.subrange(0, j as int),
            decreases m - j,
        {
            let i = other.indices[j];
            assert(i < other@.vertices.len());
            self.indices.push(i + offset);
            proof {
                assert(shifted.subrange(0, j + 1) =~= shifted.subrange(0, j as int).push(shifted[j as int]));
            }
            j = j + 1;
        }
        proof {
            assert(other@.vertices.subrange(0, n as int) =~= other@.vertices);
            assert(shifted.subrange(0, m as int) =~= shifted);
        }
    }

    /// All of `meshes` in one mesh, in order, each one's indices moved past the
    /// vertices of those before it.
    pub fn merged(meshes: Vec<Mesh>) -> (r: Self)
        requires
            forall|i: int| 0 <= i < meshes@.len() ==> (#[trigger] meshes@[i])@.wf(),
            total_vertices(meshes@.map_values(|m: Mesh| m@)) <= u32::MAX,
        ensures
            r@ == merge_all(meshes@.map_values(|m: Mesh| m@)),
            r@.wf(),
    {
        let ghost views = meshes@.map_values(|m: Mesh| m@);
        let mut r = Mesh::new();
        let mut i: usize = 0;
        while i < meshes.len()
            invariant
                views == meshes@.map_values(|m: Mesh| m@),
                forall|j: int| 0 <= j < meshes@.len() ==> (#[trigger] meshes@[j])@.wf(),
                total_vertices(views) <= u32::MAX,
                0 <= i <= meshes@.len(),
                r@ == merge_all(views.subrange(0, i as int)),
            decreases meshes@.len() - i,
        {
            let ghost prefix = views.subrange(0, i as int);
            let ghost next = views.subrange(0, i + 1);
            proof {
                assert(next.drop_last() =~= prefix);
                assert forall|j: int| 0 <= j < next.len() implies (#[trigger] next[j]).wf() by {
                    assert(next[j] == meshes@[j]@);
                }
                lemma_total_vertices_prefix(views, i + 1);
                lemma_merge_all_wf(next);
                lemma_merge_all_wf(prefix);
            }
            r.append(&meshes[i]);
            i = i + 1;
        }
        proof {
            assert(views.subrange(0, meshes@.len() as int) =~= views);
            assert forall|j: int| 0 <= j < views.len() implies (#[trigger] views[j]).wf() by {
                assert(views[j] == meshes@[j]@);
            }
            lemma_merge_all_wf(views);
        }
        r
    }

    /// The mesh of `chunk`: the mesh of each visible voxel, with the faces that
    /// a neighbour in `world` hides left out, merged in walk order.
    pub fn chunk(world: &World, chunk: &Chunk, voxel_registry: &VoxelRegistry) -> (r: Self)
        requires
            world.wf(),
            chunk.wf(),
            chunk@.position.in_world_bounds(),
            voxel_registry.wf(),
        ensures
            r@ == chunk_mesh(*world, chunk@, *voxel_registry),
            r@.wf(),
            r@.vertices.len() <= MAX_CHUNK_MESH_VERTICES,
    {
        let mut mesh = Mesh::new();
        let position = chunk.position();
        for x in 0..CHUNK_SIZE
            invariant
                world.wf(),
                chunk.wf(),
                voxel_registry.wf(),
                position == chunk@.position,
                position.in_world_bounds(),
                mesh@ == chunk_mesh_prefix(*world, chunk@, *voxel_registry, (x * 1024) as nat),
                mesh@.wf(),
                mesh@.vertices.len() <= 24 * (x * 1024),
        {
            for y in 0..CHUNK_SIZE
                invariant
                    world.wf(),
                    chunk.wf(),
                    voxel_registry.wf(),
                    position == chunk@.position,
                    position.in_world_bounds(),
                    x < CHUNK_SIZE,
                    mesh@ == chunk_mesh_prefix(*world, chunk@, *voxel_registry, (x * 1024 + y * 32) as nat),
                    mesh@.wf(),
                    mesh@.vertices.len() <= 24 * (x * 1024 + y * 32),
            {
                for z in 0..CHUNK_SIZE
                    invariant
                        world.wf(),
                        chunk.wf(),
                        voxel_registry.wf(),
                        position == chunk@.position,
                        position.in_world_bounds(),
                        x < CHUNK_SIZE,
                        y < CHUNK_SIZE,
                        mesh@ == chunk_mesh_prefix(*world, chunk@, *voxel_registry, (x * 1024 + y * 32 + z) as nat),
                        mesh@.wf(),
                        mesh@.vertices.len() <= 24 * (x * 1024 + y * 32 + z),
                {
                    let ghost n = x * 1024 + y * 32 + z;
                    proof {
                        lemma_walk_position(x as int, y as int, z as int);
                    }
                    let local_position = LocalChunkPosition::new(x, y, z);
                    let world_position = local_position.world_position(position);
                    let voxel_type = chunk.get_voxel_type(local_position);
                    let voxel_properties = voxel_registry.get_properties(&voxel_type);
                    if !voxel_properties.is_invisible() {
                        let occluding_neighbors = world.get_occluding_neighbors(world_position);
                        let voxel_mesh = Self::voxel(world_position, voxel_properties, &occluding_neighbors);
                        proof {
                            lemma_merge_wf(mesh@, voxel_mesh@);
                        }
                        mesh.append(&voxel_mesh);
                    }
                    proof {
                        assert(chunk_mesh_prefix(*world, chunk@, *voxel_registry, (n + 1) as nat) == mesh@);
                    }
                }
            }
        }
        mesh
    }

    /// Builds the meshes of the loaded chunks at `positions` against `world`,
    /// which it only reads; the result lines up with `positions`.
    pub fn build_chunk_meshes(world: &World, positions: &Vec<ChunkPosition>) -> (r: Vec<Mesh>)
        requires
            world.wf(),
            forall|i: int| 0 <= i < positions@.len() ==> world.chunks().contains_key(#[trigger] positions@[i]),
        ensures
            r@.len() == positions@.len(),
            forall|i: int|
                0 <= i < r@.len() ==> (#[trigger] r@[i])@ == chunk_mesh(
                    *world,
                    ChunkView { position: positions@[i], voxels: world.chunks()[positions@[i]] },
                    world.registry(),
                ) && r@[i]@.wf() && r@[i]@.vertices.len() <= MAX_CHUNK_MESH_VERTICES,
    {
        let mut r: Vec<Mesh> = Vec::new();
        let n = positions.len();
        for i in 0..n
            invariant
                world.wf(),
                n == positions@.len(),
                forall|j: int| 0 <= j < positions@.len() ==> world.chunks().contains_key(#[trigger] positions@[j]),
                r@.len() == i,
                forall|j: int|
                    0 <= j < r@.len() ==> (#[trigger] r@[j])@ == chunk_mesh(
                        *world,
                        ChunkView { position: positions@[j], voxels: world.chunks()[positions@[j]] },
                        world.registry(),
                    ) && r@[j]@.wf() && r@[j]@.vertices.len() <= MAX_CHUNK_MESH_VERTICES,
        {
            let p = positions[i];
            match world.chunk(p) {
                Some(chunk) => {
                    let mesh = Self::chunk(world, chunk, world.voxel_registry());
                    r.push(mesh);
                },
                None => {
                    r.push(Mesh::new());
                },
            }
        }
        r
    }

    /// The drawable mesh of the whole world. Builds the mesh of every loaded
    /// chunk that has none cached, against the world as it stands, then caches
    /// them all, then merges every loaded chunk's mesh, nearest chunk first.
    pub fn world(world: &mut World) -> (r: Self)
        requires
            old(world).wf(),
        ensures
            final(world).wf(),
            final(world).chunks() == old(world).chunks(),
            final(world).order() == old(world).order(),
            final(world).origin() == old(world).origin(),
            final(world).registry() == old(world).registry(),
            final(world).spec_generator() == old(world).spec_generator(),
            final(world).meshes() == built_meshes(*old(world)),
            r@ == merge_all(final(world).order().map_values(|p: ChunkPosition| final(world).meshes()[p])),
            r@.wf(),
    {
        let ghost snapshot = *world;
        let positions = world.uncached_chunk_positions();
        let mut meshes = Self::build_chunk_meshes(world, &positions);
        let ghost built = meshes@;
        let n = positions.len();
        proof {
            snapshot.lemma_loaded_in_range();
        }
        while meshes.len() > 0
            invariant
                world.wf(),
                world.chunks() == snapshot.chunks(),
                world.order() == snapshot.order(),
                world.origin() == snapshot.origin(),
                world.registry() == snapshot.registry(),
                world.spec_generator() == snapshot.spec_generator(),
                n == positions@.len(),
                built.len() == n,
                meshes@.len() <= n,
                meshes@ == built.subrange(0, meshes@.len() as int),
                forall|p: ChunkPosition| #[trigger] snapshot.meshes().contains_key(p) ==> snapshot.chunks().contains_key(p),
                forall|p: ChunkPosition| snapshot.chunks().contains_key(p) && !snapshot.meshes().contains_key(p)
                    ==> #[trigger] positions@.contains(p),
                forall|i: int| 0 <= i < positions@.len() ==> snapshot.chunks().contains_key(#[trigger] positions@[i]) && !snapshot.meshes().contains_key(positions@[i]),
                forall|i: int|
                    0 <= i < built.len() ==> (#[trigger] built[i])@ == chunk_mesh(
                        snapshot,
                        ChunkView { position: positions@[i], voxels: snapshot.chunks()[positions@[i]] },
                        snapshot.registry(),
                    ) && built[i]@.wf() && built[i]@.vertices.len() <= MAX_CHUNK_MESH_VERTICES,
                forall|p: ChunkPosition| #[trigger] world.meshes().contains_key(p) <==> snapshot.meshes().contains_key(p)
                    || positions@.subrange(meshes@.len() as int, n as int).contains(p),
                forall|p: ChunkPosition| #[trigger] world.meshes().contains_key(p) ==> world.meshes()[p] == built_meshes(snapshot)[p],
            decreases meshes@.len(),
        {
            let ghost k = meshes@.len() - 1;
            let ghost before = meshes@;
            let mesh = match meshes.pop() {
                Some(mesh) => mesh,
                None => Mesh::new(),
            };
            let i = meshes.len();
            let p = positions[i];
            proof {
                assert(meshes@.len() == k);
                assert(before[k] == built[k]);
                assert(mesh == built[k]);
                let old_suffix = positions@.subrange(k + 1, n as int);
                let new_suffix = positions@.subrange(k, n as int);
                assert forall|q: ChunkPosition| #[trigger] new_suffix.contains(q) <==> old_suffix.contains(q) || q == p by {
                    if q == p {
                        assert(new_suffix[0] == p);
                    }
                    if old_suffix.contains(q) {
                        let t = choose|t: int| 0 <= t < old_suffix.len() && old_suffix[t] == q;
                        assert(new_suffix[t + 1] == q);
                    }
                    if new_suffix.contains(q) && q != p {
                        let t = choose|t: int| 0 <= t < new_suffix.len() && new_suffix[t] == q;
                        assert(t > 0);
                        assert(old_suffix[t - 1] == q);
                    }
                }
                assert(meshes@ =~= built.subrange(0, k));
            }
            world.insert_chunk_mesh(&p, mesh);
        }
        proof {
            assert(positions@.subrange(0, n as int) =~= positions@);
            assert forall|p: ChunkPosition| #[trigger] world.meshes().contains_key(p) <==> built_meshes(snapshot).contains_key(p) by {
                if positions@.contains(p) {
                    let t = choose|t: int| 0 <= t < positions@.len() && positions@[t] == p;
                    assert(snapshot.chunks().contains_key(positions@[t]));
                }
            }
            assert(world.meshes() =~= built_meshes(snapshot));
        }
        world.world_mesh()
    }

    /// The mesh of the voxel at `world_position`: a quad for each face whose
    /// neighbour does not hide it.
    pub fn voxel(
        world_position: WorldPosition,
        voxel_properties: &VoxelProperties,
        occluding_neighbors: &OccludingVoxelNeighbors,
    ) -> (r: Self)
        ensures
            r@ == voxel_mesh(world_position, *voxel_properties, *occluding_neighbors),
            r@.wf(),
            r@.vertices.len() == 4 * shown_faces(*occluding_neighbors),
            r@.indices.len() == 6 * shown_faces(*occluding_neighbors),
    {
        let mut mesh = Mesh::new();
        let n = occluding_neighbors;
        proof {
            lemma_voxel_mesh_size(world_position, *voxel_properties, *n);
        }
        mesh.push_face_if(!n.front, Face::Front, world_position, voxel_properties.front_texture());
        mesh.push_face_if(!n.back, Face::Back, world_position, voxel_properties.back_texture());
        mesh.push_face_if(!n.right, Face::Right, world_position, voxel_properties.right_texture());
        mesh.push_face_if(!n.left, Face::Left, world_position, voxel_properties.left_texture());
        mesh.push_face_if(!n.top, Face::Top, world_position, voxel_properties.top_texture());
        mesh.push_face_if(!n.bottom, Face::Bottom, world_position, voxel_properties.bottom_texture());
        proof {
            reveal(voxel_mesh);
        }
        proof {
            lemma_voxel_mesh_size(world_position, *voxel_properties, *occluding_neighbors);
        }
        mesh
    }
}

/// The in-chunk position visited at step `n` of a walk over a chunk: x
/// outermost, then y, then z.
pub open spec fn walk_position(n: int) -> LocalChunkPosition {
    LocalChunkPosition {
        x: (n / ((CHUNK_SIZE * CHUNK_SIZE) as int)) as usize,
        y: ((n / (CHUNK_SIZE as int)) % (CHUNK_SIZE as int)) as usize,
        z: (n % (CHUNK_SIZE as int)) as usize,
    }
}

pub proof fn lemma_walk_position(x: int, y: int, z: int)
    requires
        0 <= x < CHUNK_SIZE,
        0 <= y < CHUNK_SIZE,
        0 <= z < CHUNK_SIZE,
    ensures
        walk_position(x * 1024 + y * 32 + z) == (LocalChunkPosition { x: x as usize, y: y as usize, z: z as usize }),
{
    let n = x * 1024 + y * 32 + z;
    assert(n == (x * 32 + y) * 32 + z);
    vstd::arithmetic::div_mod::lemma_fundamental_div_mod_converse(n, 32, x * 32 + y, z);
    vstd::arithmetic::div_mod::lemma_fundamental_div_mod_converse(x * 32 + y, 32, x, y);
    vstd::arithmetic::div_mod::lemma_fundamental_div_mod_converse(n, 1024, x, y * 32 + z);
}

/// The mesh of the first `n` voxels of a chunk's walk: each visible voxel's
/// mesh merged in walk order, with faces hidden by the world's voxels culled.
pub open spec fn chunk_mesh_prefix(world: World, chunk: ChunkView, registry: VoxelRegistry, n: nat) -> MeshView
    decreases n,
{
    if n == 0 {
        empty_mesh()
    } else {
        let prev = chunk_mesh_prefix(world, chunk, registry, (n - 1) as nat);
        let local = walk_position(n - 1);
        let properties = registry.properties_of(voxel_at(chunk.voxels, local));
        if properties.is_invisible {
            prev
        } else {
            let p = local.spec_world_position(chunk.position);
            merge(prev, voxel_mesh(p, properties, world.spec_occluding_neighbors(p)))
        }
    }
}

/// The mesh of a whole chunk.
pub open spec fn chunk_mesh(world: World, chunk: ChunkView, registry: VoxelRegistry) -> MeshView {
    chunk_mesh_prefix(world, chunk, registry, CHUNK_VOLUME as nat)
}

/// The mesh cache of `world` once every loaded chunk without a cached mesh
/// has one built against `world`; cached meshes stay as they are.
pub open spec fn built_meshes(world: World) -> Map<ChunkPosition, MeshView> {
    Map::new(
        |p: ChunkPosition| world.chunks().contains_key(p),
        |p: ChunkPosition|
            if world.meshes().contains_key(p) {
                world.meshes()[p]
            } else {
                chunk_mesh(world, ChunkView { position: p, voxels: world.chunks()[p] }, world.registry())
            },
    )
}

/// A voxel whose six neighbours all hide the shared faces draws nothing; one
/// whose six neighbours are air draws all six faces: 24 vertices, 36 indices.
pub proof fn lemma_occlusion(world: World, p: WorldPosition, properties: VoxelProperties)
    requires
        world.registry().wf(),
    ensures
        ({
            let n = world.spec_occluding_neighbors(p);
            n.front && n.back && n.right && n.left && n.top && n.bottom
        }) ==> voxel_mesh(p, properties, world.spec_occluding_neighbors(p)).vertices.len() == 0
            && voxel_mesh(p, properties, world.spec_occluding_neighbors(p)).indices.len() == 0,
        ({
            &&& world.spec_voxel_type(WorldPosition { z: (p.z + 1) as i32, ..p }) == VoxelType::Air
            &&& world.spec_voxel_type(WorldPosition { z: (p.z - 1) as i32, ..p }) == VoxelType::Air
            &&& world.spec_voxel_type(WorldPosition { x: (p.x + 1) as i32, ..p }) == VoxelType::Air
            &&& world.spec_voxel_type(WorldPosition { x: (p.x - 1) as i32, ..p }) == VoxelType::Air
            &&& world.spec_voxel_type(WorldPosition { y: (p.y + 1) as i32, ..p }) == VoxelType::Air
            &&& world.spec_voxel_type(WorldPosition { y: (p.y - 1) as i32, ..p }) == VoxelType::Air
        }) ==> voxel_mesh(p, properties, world.spec_occluding_neighbors(p)).vertices.len() == 24
            && voxel_mesh(p, properties, world.spec_occluding_neighbors(p)).indices.len() == 36,
{
    lemma_voxel_mesh_size(p, properties, world.spec_occluding_neighbors(p));
}

/// A neighbour in a chunk that is not loaded counts as air: it hides nothing,
/// so the face towards it is drawn.
pub proof fn lemma_unloaded_neighbor_shows_face(world: World, p: WorldPosition, properties: VoxelProperties)
    requires
        world.registry().wf(),
    ensures
        !world.chunks().contains_key(WorldPosition { z: (p.z + 1) as i32, ..p }.spec_chunk_position())
            ==> !world.spec_occluding_neighbors(p).front,
        !world.chunks().contains_key(WorldPosition { z: (p.z - 1) as i32, ..p }.spec_chunk_position())
            ==> !world.spec_occluding_neighbors(p).back,
        !world.chunks().contains_key(WorldPosition { x: (p.x + 1) as i32, ..p }.spec_chunk_position())
            ==> !world.spec_occluding_neighbors(p).right,
        !world.chunks().contains_key(WorldPosition { x: (p.x - 1) as i32, ..p }.spec_chunk_position())
            ==> !world.spec_occluding_neighbors(p).left,
        !world.chunks().contains_key(WorldPosition { y: (p.y + 1) as i32, ..p }.spec_chunk_position())
            ==> !world.spec_occluding_neighbors(p).top,
        !world.chunks().contains_key(WorldPosition { y: (p.y - 1) as i32, ..p }.spec_chunk_position())
            ==> !world.spec_occluding_neighbors(p).bottom,
        !world.chunks().contains_key(WorldPosition { z: (p.z + 1) as i32, ..p }.spec_chunk_position())
            ==> voxel_mesh(p, properties, world.spec_occluding_neighbors(p)).vertices.subrange(0, 4)
            == quad(Face::Front, p, properties.textures.front),
{
    let n = world.spec_occluding_neighbors(p);
    lemma_voxel_mesh_size(p, properties, n);
    if !n.front {
        let t = properties.textures;
        let m1 = add_face_if(empty_mesh(), true, Face::Front, p, t.front);
        reveal(add_face_if);
        reveal(add_face);
        assert(quad(Face::Front, p, t.front).len() == 4);
        assert(m1.vertices =~= quad(Face::Front, p, t.front));
        lemma_add_face_if(empty_mesh(), true, Face::Front, p, t.front, 0);
        lemma_add_face_if_keeps_prefix(m1, !n.back, Face::Back, p, t.back);
        let m2 = add_face_if(m1, !n.back, Face::Back, p, t.back);
        lemma_add_face_if_keeps_prefix(m2, !n.right, Face::Right, p, t.right);
        let m3 = add_face_if(m2, !n.right, Face::Right, p, t.right);
        lemma_add_face_if_keeps_prefix(m3, !n.left, Face::Left, p, t.left);
        let m4 = add_face_if(m3, !n.left, Face::Left, p, t.left);
        lemma_add_face_if_keeps_prefix(m4, !n.top, Face::Top, p, t.top);
        let m5 = add_face_if(m4, !n.top, Face::Top, p, t.top);
        lemma_add_face_if_keeps_prefix(m5, !n.bottom, Face::Bottom, p, t.bottom);
        let m6 = add_face_if(m5, !n.bottom, Face::Bottom, p, t.bottom);
        assert(m6 == voxel_mesh(p, properties, n)) by {
            reveal(voxel_mesh);
        }
        assert(m6.vertices.subrange(0, 4) =~= m1.vertices);
    }
}

proof fn lemma_add_face_if_keeps_prefix(m: MeshView, shown: bool, face: Face, p: WorldPosition, texture: TextureType)
    ensures
        add_face_if(m, shown, face, p, texture).vertices.len() >= m.vertices.len(),
        add_face_if(m, shown, face, p, texture).vertices.subrange(0, m.vertices.len() as int) == m.vertices,
{
    reveal(add_face_if);
    reveal(add_face);
    assert(add_face_if(m, shown, face, p, texture).vertices.subrange(0, m.vertices.len() as int) =~= m.vertices);
}

/// Merging two meshes adds their vertex and index counts, and every index of
/// the second mesh lands past the first mesh's vertices; `merged` on the pair
/// computes exactly this merge.
pub proof fn lemma_merge_pair(a: MeshView, b: MeshView)
    requires
        a.wf(),
        b.wf(),
        a.vertices.len() + b.vertices.len() <= u32::MAX,
    ensures
        merge_all(seq![a, b]) == merge(a, b),
        merge(a, b).wf(),
        merge(a, b).vertices.len() == a.vertices.len() + b.vertices.len(),
        merge(a, b).indices.len() == a.indices.len() + b.indices.len(),
        forall|i: int| 0 <= i < a.indices.len() ==> merge(a, b).indices[i] == a.indices[i],
        forall|i: int|
            a.indices.len() <= i < merge(a, b).indices.len() ==> merge(a, b).indices[i] == b.indices[i
                - a.indices.len()] + a.vertices.len() && merge(a, b).indices[i] >= a.vertices.len(),
{
    lemma_merge_wf(a, b);
    let s = seq![a, b];
    assert(s.drop_last() =~= seq![a]);
    assert(seq![a].drop_last() =~= Seq::<MeshView>::empty());
    let e = empty_mesh();
    assert(merge(e, a).vertices =~= a.vertices);
    assert(merge(e, a).indices =~= a.indices);
    assert(seq![a].last() == a);
    assert(s.last() == b);
    assert(merge_all(Seq::<MeshView>::empty()) == e);
    assert(merge_all(seq![a]) == merge(e, a));
    assert(merge(e, a) == a);
}

pub proof fn lemma_total_vertices_prefix(meshes: Seq<MeshView>, n: int)
    requires
        0 <= n <= meshes.len(),
    ensures
        total_vertices(meshes.subrange(0, n)) <= total_vertices(meshes),
    decreases meshes.len(),
{
    if n < meshes.len() {
        assert(meshes.drop_last().subrange(0, n) =~= meshes.subrange(0, n));
        lemma_total_vertices_prefix(meshes.drop_last(), n);
    } else {
        assert(meshes.subrange(0, n) =~= meshes);
    }
}

} // verus!
