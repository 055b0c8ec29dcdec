use vstd::prelude::*;

use crate::material::Lambertian;
use crate::mesh::Mesh;
use crate::triangle::Triangle;
use crate::vec3::Vec3;

verus! {

/// A material as a mesh data file declares it: a type tag and a color.
#[derive(Clone, Debug)]
pub struct MaterialDef {
    pub mat_type: String,
    pub color: [u8; 3],
}

impl MaterialDef {
    /// The Lambertian material of this color.
    pub fn build(&self) -> (r: Lambertian)
        ensures
            r.albedo@ == (self.color[0] as int, self.color[1] as int, self.color[2] as int),
            r.wf(),
    {
        Lambertian::new(self.color)
    }
}

/// A mesh as its data file holds it: vertex positions, index triples into
/// the vertex and normal lists, per-vertex normals, and a material.
#[derive(Clone, Debug)]
pub struct MeshDef {
    pub obj_type: String,
    pub vertices: Vec<Vec3>,
    pub indices: Vec<[usize; 3]>,
    pub normals: Vec<Vec3>,
    pub material: MaterialDef,
}

/// Why a mesh data file cannot be turned into a mesh.
#[derive(Clone, Copy, Debug, PartialEq, Eq, Structural)]
pub enum MeshError {
    /// The vertex and normal lists differ in length.
    LengthMismatch,
    /// Some index triple refers past the end of the vertex list.
    IndexOutOfRange,
}

/// Every index of every triple is below `n`.
pub open spec fn indices_below(indices: Seq<[usize; 3]>, n: int) -> bool {
    forall|i: int, k: int| 0 <= i < indices.len() && 0 <= k < 3 ==> (#[trigger] indices[i][k]) < n
}

/// Whether every index of every triple is below `n`.
pub fn check_indices(indices: &Vec<[usize; 3]>, n: usize) -> (r: bool)
    ensures
        r == indices_below(indices@, n as int),
{
    let mut i: usize = 0;
    while i < indices.len()
        invariant
            i <= indices@.len(),
            indices_below(indices@.subrange(0, i as int), n as int),
        decreases indices@.len() - i,
    {
        let ix = indices[i];
        if ix[0] >= n || ix[1] >= n || ix[2] >= n {
            assert(indices@[i as int][0] >= n || indices@[i as int][1] >= n || indices@[i as int][2] >= n);
            return false;
        }
        assert forall|a: int, k: int| 0 <= a < i + 1 && 0 <= k < 3 implies (#[trigger] indices@.subrange(0, i + 1)[a][k]) < n by {
            if a < i {
                assert(indices@.subrange(0, i + 1)[a] == indices@.subrange(0, i as int)[a]);
            }
        }
        i = i + 1;
    }
    assert(indices@.subrange(0, indices@.len() as int) == indices@);
    true
}

impl MeshDef {
    /// The mesh of this data file, its triangles using material `material`.
    /// Fails when the vertex and normal lists differ in length, or an index
    /// lies past their end.
    pub fn build(self, material: usize) -> (r: Result<Mesh, MeshError>)
        ensures
            self.vertices@.len() != self.normals@.len() ==> r == Err::<Mesh, MeshError>(MeshError::LengthMismatch),
            self.vertices@.len() == self.normals@.len() && !indices_below(self.indices@, self.vertices@.len() as int)
                ==> r == Err::<Mesh, MeshError>(MeshError::IndexOutOfRange),
            self.vertices@.len() == self.normals@.len() && indices_below(self.indices@, self.vertices@.len() as int)
                ==> r.is_ok() && {
                let m = r.unwrap();
                &&& m.triangles@.len() == self.indices@.len()
                &&& forall|i: int| 0 <= i < self.indices@.len() ==> {
                    let ix = #[trigger] self.indices@[i];
                    m.triangles@[i] == (Triangle {
                        v0: self.vertices@[ix[0] as int],
                        v1: self.vertices@[ix[1] as int],
                        v2: self.vertices@[ix[2] as int],
                        n0: self.normals@[ix[0] as int],
                        n1: self.normals@[ix[1] as int],
                        n2: self.normals@[ix[2] as int],
                        material,
                    })
                }
            },
    {
        if self.vertices.len() != self.normals.len() {
            return Err(MeshError::LengthMismatch);
        }
        if !check_indices(&self.indices, self.vertices.len()) {
            return Err(MeshError::IndexOutOfRange);
        }
        Ok(Mesh::new(self.vertices, self.indices, self.normals, material))
    }
}

} // verus!
