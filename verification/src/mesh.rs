//! Triangle meshes: turning the faces of a mesh file into triangles.

use crate::bvh::BVHNode;
use crate::error::ConfigError;
use crate::material::Material;
use crate::obj::{FaceIdx, FaceInfo, ObjModel, OBJ};
use vstd::prelude::*;

verus! {

/// A triangle of a mesh: for each of its three corners the position of its
/// vertex in the list of vertices of the mesh and, where the face gives
/// them, of its normal and of its texture coordinate in their lists.
/// Positions count from 0.
#[derive(Clone, Copy, Debug, PartialEq, Eq)]
pub struct Triangle {
    pub vs: (usize, usize, usize),
    pub normals: Option<(usize, usize, usize)>,
    pub uvs: Option<(usize, usize, usize)>,
}

/// Whether each of three indices, which count from 1, names one of `count`
/// entries.
pub open spec fn name_entries(a: usize, b: usize, c: usize, count: nat) -> bool {
    1 <= a <= count && 1 <= b <= count && 1 <= c <= count
}

/// The positions, counting from 0, that three indices name.
pub open spec fn positions(a: usize, b: usize, c: usize) -> (usize, usize, usize) {
    ((a - 1) as usize, (b - 1) as usize, (c - 1) as usize)
}

/// Whether the face gives texture coordinates: its first corner decides.
pub open spec fn has_uvs(face: Seq<FaceIdx>) -> bool
    recommends
        face.len() == 3,
{
    face[0].uv_idx != 0
}

/// Whether the face gives normals: its first corner decides.
pub open spec fn has_normals(face: Seq<FaceIdx>) -> bool
    recommends
        face.len() == 3,
{
    face[0].normal_idx != 0
}

/// Whether every index of a face with three corners names an entry of a
/// mesh with `vers` vertices, `uvs` texture coordinates and `normals`
/// normals: the vertices always, and the texture coordinates and the
/// normals where the face gives them.
pub open spec fn indices_hold(face: Seq<FaceIdx>, vers: nat, uvs: nat, normals: nat) -> bool
    recommends
        face.len() == 3,
{
    &&& name_entries(face[0].vert_idx, face[1].vert_idx, face[2].vert_idx, vers)
    &&& has_uvs(face) ==> name_entries(face[0].uv_idx, face[1].uv_idx, face[2].uv_idx, uvs)
    &&& has_normals(face) ==> name_entries(
        face[0].normal_idx,
        face[1].normal_idx,
        face[2].normal_idx,
        normals,
    )
}

/// What is wrong with the face at position `at` of the mesh, if anything:
/// a face that has not three corners is not a triangle; one that has may
/// name an entry that the mesh does not have.
pub open spec fn fault(m: ObjModel, at: int) -> Option<ConfigError> {
    let face = m.faces[at];
    if face.len() != 3 {
        Some(ConfigError::NonTriangularFace(at as usize))
    } else if !indices_hold(face, m.vers.len(), m.uvs.len(), m.normals.len()) {
        Some(ConfigError::DanglingIndex(at as usize))
    } else {
        None
    }
}

/// The triangle of a face without fault.
pub open spec fn triangle_of(face: Seq<FaceIdx>) -> Triangle
    recommends
        face.len() == 3,
{
    Triangle {
        vs: positions(face[0].vert_idx, face[1].vert_idx, face[2].vert_idx),
        normals: if has_normals(face) {
            Some(positions(face[0].normal_idx, face[1].normal_idx, face[2].normal_idx))
        } else {
            None
        },
        uvs: if has_uvs(face) {
            Some(positions(face[0].uv_idx, face[1].uv_idx, face[2].uv_idx))
        } else {
            None
        },
    }
}

/// The triangles of the first `n` faces.
pub open spec fn triangles_of(faces: Seq<Seq<FaceIdx>>, n: int) -> Seq<Triangle> {
    Seq::new(n as nat, |k: int| triangle_of(faces[k]))
}

/// Whether none of the first `n` faces has a fault.
pub open spec fn faultless(m: ObjModel, n: int) -> bool {
    forall|k: int| 0 <= k < n ==> (#[trigger] fault(m, k)) is None
}

/// A triangle mesh: its triangles, in the order of the faces of the file.
pub struct Mesh {
    pub triangles: Vec<Triangle>,
}

impl Mesh {
    /// The mesh of the faces of `obj`. The first face with a fault ends
    /// the work, and the error is that fault.
    pub fn new(obj: &OBJ) -> (r: Result<Mesh, ConfigError>)
        ensures
            match r {
                Ok(mesh) => {
                    &&& faultless(obj@, obj@.faces.len() as int)
                    &&& mesh.triangles@ == triangles_of(obj@.faces, obj@.faces.len() as int)
                },
                Err(e) => exists|k: int|
                    {
                        &&& 0 <= k < obj@.faces.len()
                        &&& faultless(obj@, k)
                        &&& #[trigger] fault(obj@, k) == Some(e)
                    },
            },
    {
        let mut triangles: Vec<Triangle> = Vec::new();
        let mut k: usize = 0;
        while k < obj.faces.len()
            invariant
                k <= obj.faces.len(),
                obj@.faces.len() == obj.faces@.len(),
                faultless(obj@, k as int),
                triangles@ == triangles_of(obj@.faces, k as int),
            decreases obj.faces.len() - k,
        {
            let face = &obj.faces[k];
            assert(obj@.faces[k as int] == face@);
            match triangle(face, obj.vers.len(), obj.uvs.len(), obj.normals.len()) {
                Some(t) => {
                    assert(triangles@.push(t) == triangles_of(obj@.faces, k + 1));
                    triangles.push(t);
                },
                None => {
                    if face.verts.len() != 3 {
                        assert(fault(obj@, k as int) == Some(ConfigError::NonTriangularFace(k)));
                        return Err(ConfigError::NonTriangularFace(k));
                    } else {
                        assert(fault(obj@, k as int) == Some(ConfigError::DanglingIndex(k)));
                        return Err(ConfigError::DanglingIndex(k));
                    }
                },
            }
            k += 1;
        }
        Ok(Mesh { triangles })
    }
}

/// A triangle mesh in a scene: the hierarchy over its triangles, and the
/// material that all of them share.
pub struct TriangleMesh {
    pub node: BVHNode,
    pub mat: Material,
}

impl TriangleMesh {
    /// The mesh with the triangles below `node`, made of `mat`.
    pub fn new(node: BVHNode, mat: Material) -> (r: TriangleMesh)
        ensures
            r.node == node,
            r.mat == mat,
    {
        TriangleMesh { node, mat }
    }
}

/// The positions that three indices name among `count` entries, where
/// each of them names one.
fn resolve(a: usize, b: usize, c: usize, count: usize) -> (r: Option<(usize, usize, usize)>)
    ensures
        r is Some <==> name_entries(a, b, c, count as nat),
        r matches Some(p) ==> p == positions(a, b, c),
{
    if 1 <= a && a <= count && 1 <= b && b <= count && 1 <= c && c <= count {
        Some((a - 1, b - 1, c - 1))
    } else {
        None
    }
}

/// The triangle of a face, where the face has three corners and its
/// indices name entries of a mesh with `vers` vertices, `uvs` texture
/// coordinates and `normals` normals.
fn triangle(face: &FaceInfo, vers: usize, uvs: usize, normals: usize) -> (r: Option<Triangle>)
    ensures
        r is Some <==> face@.len() == 3 && indices_hold(
            face@,
            vers as nat,
            uvs as nat,
            normals as nat,
        ),
        r matches Some(t) ==> t == triangle_of(face@),
{
    if face.verts.len() != 3 {
        return None;
    }
    let c0 = face.verts[0];
    let c1 = face.verts[1];
    let c2 = face.verts[2];
    let vs = match resolve(c0.vert_idx, c1.vert_idx, c2.vert_idx, vers) {
        Some(p) => p,
        None => {
            return None;
        },
    };
    let uv = if c0.uv_idx != 0 {
        match resolve(c0.uv_idx, c1.uv_idx, c2.uv_idx, uvs) {
            Some(p) => Some(p),
            None => {
                return None;
            },
        }
    } else {
        None
    };
    let ns = if c0.normal_idx != 0 {
        match resolve(c0.normal_idx, c1.normal_idx, c2.normal_idx, normals) {
            Some(p) => Some(p),
            None => {
                return None;
            },
        }
    } else {
        None
    };
    Some(Triangle { vs, normals: ns, uvs: uv })
}

} // verus!
