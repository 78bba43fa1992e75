use vstd::prelude::*;

use crate::geometry::RenderError;
use crate::geometry::Vec3;

verus! {

/// A face: exactly three object-space vertices, never partially filled.
#[derive(Clone, Copy, Debug)]
pub struct Triangle {
    pub vertices: [Vec3; 3],
}

/// An ordered sequence of triangles, in input face order.
pub struct SimpleMesh {
    pub triangles: Vec<Triangle>,
}

/// A well-formed indexed mesh: both flat arrays come in triples and every
/// index names an existing vertex.
pub open spec fn mesh_ok(positions: Seq<i64>, indices: Seq<u32>) -> bool {
    &&& positions.len() % 3 == 0
    &&& indices.len() % 3 == 0
    &&& forall|k: int|
        0 <= k < indices.len() ==> (indices[k] as int) * 3 + 2 < positions.len()
}

/// The vertex stored at position triple `vi`.
pub open spec fn vertex_at(positions: Seq<i64>, vi: int) -> Vec3 {
    Vec3 { x: positions[vi * 3], y: positions[vi * 3 + 1], z: positions[vi * 3 + 2] }
}

/// The triangle named by index triple `i`.
pub open spec fn tri_at(positions: Seq<i64>, indices: Seq<u32>, i: int) -> Triangle {
    Triangle {
        vertices: [
            vertex_at(positions, indices[i * 3] as int),
            vertex_at(positions, indices[i * 3 + 1] as int),
            vertex_at(positions, indices[i * 3 + 2] as int),
        ],
    }
}

/// Reads one vertex out of the flat position array.
fn gather_vertex(positions: &Vec<i64>, vi: u32) -> (r: Vec3)
    requires
        (vi as int) * 3 + 2 < positions@.len(),
    ensures
        r == vertex_at(positions@, vi as int),
{
    let n = positions.len();
    let base = ((vi as u64) * 3) as usize;
    assert(base + 2 < n);
    Vec3 { x: positions[base], y: positions[base + 1], z: positions[base + 2] }
}

/// Expands an indexed mesh into an explicit triangle list: triangle `i`
/// gathers the position triples named by index triple `i`.  A mesh whose
/// arrays are not in triples, or that points past the position array, is
/// rejected whole before anything is built.
pub fn to_simple_mesh(positions: &Vec<i64>, indices: &Vec<u32>) -> (r: Result<
    SimpleMesh,
    RenderError,
>)
    ensures
        r is Ok <==> mesh_ok(positions@, indices@),
        r is Err ==> r == Err::<SimpleMesh, RenderError>(RenderError::MalformedMesh),
        r is Ok ==> ({
            let m = r->Ok_0;
            &&& m.triangles@.len() == indices@.len() / 3
            &&& forall|i: int|
                0 <= i < m.triangles@.len() ==> m.triangles@[i] == tri_at(
                    positions@,
                    indices@,
                    i,
                )
        }),
{
    if positions.len() % 3 != 0 || indices.len() % 3 != 0 {
        return Err(RenderError::MalformedMesh);
    }
    let mut k: usize = 0;
    while k < indices.len()
        invariant
            k <= indices@.len(),
            forall|j: int| 0 <= j < k ==> (indices@[j] as int) * 3 + 2 < positions@.len(),
        decreases indices@.len() - k,
    {
        if (indices[k] as u64) * 3 + 2 >= positions.len() as u64 {
            return Err(RenderError::MalformedMesh);
        }
        k = k + 1;
    }
    let count = indices.len() / 3;
    let mut triangles: Vec<Triangle> = Vec::new();
    let mut i: usize = 0;
    while i < count
        invariant
            count == indices@.len() / 3,
            indices@.len() % 3 == 0,
            indices@.len() <= usize::MAX,
            i <= count,
            triangles@.len() == i,
            forall|k2: int| 0 <= k2 < indices@.len() ==> (indices@[k2] as int) * 3 + 2
                < positions@.len(),
            forall|j: int| 0 <= j < i ==> triangles@[j] == tri_at(positions@, indices@, j),
        decreases count - i,
    {
        let v0 = gather_vertex(positions, indices[3 * i]);
        let v1 = gather_vertex(positions, indices[3 * i + 1]);
        let v2 = gather_vertex(positions, indices[3 * i + 2]);
        triangles.push(Triangle { vertices: [v0, v1, v2] });
        i = i + 1;
    }
    Ok(SimpleMesh { triangles })
}

} // verus!
