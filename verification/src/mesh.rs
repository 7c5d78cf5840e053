//! A triangulated mesh: flattened vertex positions and texture coordinates,
//! and faces that name their vertices by index.  Every index and every
//! coordinate is checked once, when the mesh is made.

use crate::math::{Triangle3d, Vec2f, Vec3f, COORD_MAX};
use crate::shading::TriangleTexture;
use vstd::prelude::*;

verus! {

/// Why three arrays do not form a mesh.
#[derive(Clone, Copy, Debug, PartialEq, Eq, Structural)]
pub enum MeshError {
    /// The number of position values is not a multiple of three.
    RaggedPositions,
    /// There are texture coordinates, but not two per vertex.
    TexcoordCount,
    /// The number of indices is not a multiple of three.
    RaggedIndices,
    /// A face names a vertex that does not exist.
    IndexOutOfRange,
    /// A position or texture coordinate has a magnitude above `COORD_MAX`.
    CoordinateOutOfRange,
}

/// The mathematical content of a [`Mesh`].
pub struct MeshView {
    pub positions: Seq<i64>,
    pub texcoords: Seq<i64>,
    pub indices: Seq<u32>,
}

/// Whether the coordinate lies within `COORD_MAX` of zero.
pub open spec fn coordinate_ok(c: i64) -> bool {
    -COORD_MAX <= c <= COORD_MAX
}

/// The first reason, in the order of [`MeshError`], why the arrays do not
/// form a mesh; `None` if they do.
pub open spec fn mesh_fault(positions: Seq<i64>, texcoords: Seq<i64>, indices: Seq<u32>) -> Option<
    MeshError,
> {
    if positions.len() % 3 != 0 {
        Some(MeshError::RaggedPositions)
    } else if texcoords.len() != 0 && texcoords.len() != 2 * (positions.len() / 3) {
        Some(MeshError::TexcoordCount)
    } else if indices.len() % 3 != 0 {
        Some(MeshError::RaggedIndices)
    } else if exists|i: int| 0 <= i < indices.len() && #[trigger] indices[i] >= positions.len() / 3 {
        Some(MeshError::IndexOutOfRange)
    } else if exists|i: int| 0 <= i < positions.len() && !coordinate_ok(#[trigger] positions[i]) {
        Some(MeshError::CoordinateOutOfRange)
    } else if exists|i: int| 0 <= i < texcoords.len() && !coordinate_ok(#[trigger] texcoords[i]) {
        Some(MeshError::CoordinateOutOfRange)
    } else {
        None
    }
}

impl MeshView {
    /// The arrays form a mesh.
    pub open spec fn wf(self) -> bool {
        mesh_fault(self.positions, self.texcoords, self.indices) is None
    }

    /// The number of vertices.
    pub open spec fn vertex_count(self) -> int {
        self.positions.len() as int / 3
    }

    /// The number of faces.
    pub open spec fn face_count(self) -> int {
        self.indices.len() as int / 3
    }

    /// Whether the mesh carries texture coordinates.
    pub open spec fn has_texcoords(self) -> bool {
        self.texcoords.len() != 0
    }

    /// The position of vertex `v`.
    pub open spec fn vertex(self, v: int) -> Vec3f {
        Vec3f {
            x: self.positions[3 * v],
            y: self.positions[3 * v + 1],
            z: self.positions[3 * v + 2],
        }
    }

    /// The texture coordinate of vertex `v`.
    pub open spec fn texcoord(self, v: int) -> Vec2f {
        Vec2f { x: self.texcoords[2 * v], y: self.texcoords[2 * v + 1] }
    }

    /// The three vertex positions of face `f`.
    pub open spec fn triangle(self, f: int) -> Triangle3d {
        Triangle3d {
            vertex_1: self.vertex(self.indices[3 * f] as int),
            vertex_2: self.vertex(self.indices[3 * f + 1] as int),
            vertex_3: self.vertex(self.indices[3 * f + 2] as int),
        }
    }

    /// The three texture coordinates of face `f`.
    pub open spec fn texture_triangle(self, f: int) -> TriangleTexture {
        TriangleTexture {
            point_1: self.texcoord(self.indices[3 * f] as int),
            point_2: self.texcoord(self.indices[3 * f + 1] as int),
            point_3: self.texcoord(self.indices[3 * f + 2] as int),
        }
    }
}

/// Every face of a well-formed mesh names three vertices whose coordinates
/// are in range; so are its texture coordinates, where the mesh carries them.
pub proof fn lemma_faces_in_range(mesh: MeshView, f: int)
    requires
        mesh.wf(),
        0 <= f < mesh.face_count(),
    ensures
        mesh.triangle(f).in_range(),
        mesh.has_texcoords() ==> mesh.texture_triangle(f).in_range(),
{
    let a = mesh.indices[3 * f] as int;
    let b = mesh.indices[3 * f + 1] as int;
    let c = mesh.indices[3 * f + 2] as int;
    assert(a < mesh.vertex_count() && b < mesh.vertex_count() && c < mesh.vertex_count());
    assert(mesh.vertex(a).in_range());
    assert(mesh.vertex(b).in_range());
    assert(mesh.vertex(c).in_range());
    if mesh.has_texcoords() {
        assert(mesh.texcoord(a).in_range());
        assert(mesh.texcoord(b).in_range());
        assert(mesh.texcoord(c).in_range());
    }
}

/// A mesh whose indices and coordinates have been checked.
pub struct Mesh {
    positions: Vec<i64>,
    texcoords: Vec<i64>,
    indices: Vec<u32>,
}

impl View for Mesh {
    type V = MeshView;

    closed spec fn view(&self) -> MeshView {
        MeshView { positions: self.positions@, texcoords: self.texcoords@, indices: self.indices@ }
    }
}

/// Whether every coordinate of the array lies within `COORD_MAX` of zero.
fn all_in_range(values: &Vec<i64>) -> (r: bool)
    ensures
        r == !(exists|i: int| 0 <= i < values@.len() && !coordinate_ok(#[trigger] values@[i])),
{
    let mut i: usize = 0;
    while i < values.len()
        invariant
            i <= values@.len(),
            forall|j: int| 0 <= j < i ==> coordinate_ok(#[trigger] values@[j]),
        decreases values@.len() - i,
    {
        if values[i] < -COORD_MAX || values[i] > COORD_MAX {
            return false;
        }
        i = i + 1;
    }
    true
}

/// Whether every index names one of `vertex_count` vertices.
fn all_below(indices: &Vec<u32>, vertex_count: usize) -> (r: bool)
    ensures
        r == !(exists|i: int| 0 <= i < indices@.len() && #[trigger] indices@[i] >= vertex_count),
{
    let mut i: usize = 0;
    while i < indices.len()
        invariant
            i <= indices@.len(),
            forall|j: int| 0 <= j < i ==> #[trigger] indices@[j] < vertex_count,
        decreases indices@.len() - i,
    {
        if indices[i] as usize >= vertex_count {
            return false;
        }
        i = i + 1;
    }
    true
}

impl Mesh {
    #[verifier::type_invariant]
    spec fn checked(self) -> bool {
        self@.wf()
    }

    /// A mesh from flattened positions (three per vertex), flattened texture
    /// coordinates (two per vertex, or none at all) and indices (three per face).
    pub fn new(positions: Vec<i64>, texcoords: Vec<i64>, indices: Vec<u32>) -> (r: Result<
        Mesh,
        MeshError,
    >)
        ensures
            match mesh_fault(positions@, texcoords@, indices@) {
                Some(e) => r == Err::<Mesh, MeshError>(e),
                None => r is Ok && r->Ok_0@ == (MeshView {
                    positions: positions@,
                    texcoords: texcoords@,
                    indices: indices@,
                }) && r->Ok_0@.wf(),
            },
    {
        if positions.len() % 3 != 0 {
            return Err(MeshError::RaggedPositions);
        }
        let vertex_count: usize = positions.len() / 3;
        if texcoords.len() != 0 && (texcoords.len() % 2 != 0 || texcoords.len() / 2
            != vertex_count) {
            return Err(MeshError::TexcoordCount);
        }
        if indices.len() % 3 != 0 {
            return Err(MeshError::RaggedIndices);
        }
        if !all_below(&indices, vertex_count) {
            return Err(MeshError::IndexOutOfRange);
        }
        if !all_in_range(&positions) {
            return Err(MeshError::CoordinateOutOfRange);
        }
        if !all_in_range(&texcoords) {
            return Err(MeshError::CoordinateOutOfRange);
        }
        Ok(Mesh { positions, texcoords, indices })
    }

    /// The number of faces.
    pub fn face_count(&self) -> (n: usize)
        ensures
            n == self@.face_count(),
            self@.wf(),
    {
        proof {
            use_type_invariant(self);
        }
        self.indices.len() / 3
    }

    /// Whether the mesh carries texture coordinates.
    pub fn has_texcoords(&self) -> (r: bool)
        ensures
            r == self@.has_texcoords(),
    {
        self.texcoords.len() != 0
    }

    /// The position of vertex `v`.
    fn vertex(&self, v: usize) -> (r: Vec3f)
        requires
            v < self@.vertex_count(),
        ensures
            r == self@.vertex(v as int),
            r.in_range(),
    {
        proof {
            use_type_invariant(self);
        }
        let len: usize = self.positions.len();
        assert(3 * v + 2 < len);
        Vec3f {
            x: self.positions[3 * v],
            y: self.positions[3 * v + 1],
            z: self.positions[3 * v + 2],
        }
    }

    /// The texture coordinate of vertex `v`.
    fn texcoord(&self, v: usize) -> (r: Vec2f)
        requires
            v < self@.vertex_count(),
            self@.has_texcoords(),
        ensures
            r == self@.texcoord(v as int),
            r.in_range(),
    {
        proof {
            use_type_invariant(self);
        }
        let len: usize = self.texcoords.len();
        assert(2 * v + 1 < len);
        Vec2f { x: self.texcoords[2 * v], y: self.texcoords[2 * v + 1] }
    }

    /// The three vertex positions of face `f`.
    pub fn triangle(&self, f: usize) -> (r: Triangle3d)
        requires
            f < self@.face_count(),
        ensures
            r == self@.triangle(f as int),
            r.in_range(),
    {
        proof {
            use_type_invariant(self);
        }
        let len: usize = self.indices.len();
        assert(3 * f + 2 < len);
        Triangle3d {
            vertex_1: self.vertex(self.indices[3 * f] as usize),
            vertex_2: self.vertex(self.indices[3 * f + 1] as usize),
            vertex_3: self.vertex(self.indices[3 * f + 2] as usize),
        }
    }

    /// The three texture coordinates of face `f`.
    pub fn texture_triangle(&self, f: usize) -> (r: TriangleTexture)
        requires
            f < self@.face_count(),
            self@.has_texcoords(),
        ensures
            r == self@.texture_triangle(f as int),
            r.in_range(),
    {
        proof {
            use_type_invariant(self);
        }
        let len: usize = self.indices.len();
        assert(3 * f + 2 < len);
        TriangleTexture {
            point_1: self.texcoord(self.indices[3 * f] as usize),
            point_2: self.texcoord(self.indices[3 * f + 1] as usize),
            point_3: self.texcoord(self.indices[3 * f + 2] as usize),
        }
    }
}

} // verus!
