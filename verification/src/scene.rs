//! Packing of the meshes of a scene into scene-wide index and position
//! buffers.
use vstd::prelude::*;
use crate::gpu_types::{MeshData, Range};

verus! {

/// The integer part of a mesh as loaded from a scene file: how many vertex
/// positions it has, and its triangles as triples of vertex indices (local to
/// the mesh).
pub struct MeshGeometry {
    pub vertex_count: usize,
    pub faces: Vec<[u32; 3]>,
}

/// Where one mesh's indices and positions sit in the scene-wide buffers.
#[derive(Debug)]
pub struct Mesh {
    pub indices: std::ops::Range<usize>,
    pub positions: std::ops::Range<usize>,
}

impl Clone for Mesh {
    fn clone(&self) -> (r: Self)
        ensures
            r == *self,
    {
        Mesh {
            indices: std::ops::Range { start: self.indices.start, end: self.indices.end },
            positions: std::ops::Range { start: self.positions.start, end: self.positions.end },
        }
    }
}

/// Number of vertex positions of the meshes before mesh `m`.
pub open spec fn vertex_offset(geoms: Seq<MeshGeometry>, m: int) -> int
    decreases m,
{
    if m <= 0 {
        0
    } else {
        vertex_offset(geoms, m - 1) + geoms[m - 1].vertex_count
    }
}

/// Number of indices (three per triangle) of the meshes before mesh `m`.
pub open spec fn index_offset(geoms: Seq<MeshGeometry>, m: int) -> int
    decreases m,
{
    if m <= 0 {
        0
    } else {
        index_offset(geoms, m - 1) + 3 * geoms[m - 1].faces@.len()
    }
}

proof fn lemma_offsets_monotone(geoms: Seq<MeshGeometry>, a: int, b: int)
    requires
        0 <= a <= b,
    ensures
        vertex_offset(geoms, a) <= vertex_offset(geoms, b),
        index_offset(geoms, a) <= index_offset(geoms, b),
    decreases b - a,
{
    if a < b {
        lemma_offsets_monotone(geoms, a, b - 1);
    }
}

/// Lays the meshes out one after the other: the indices of all triangles are
/// concatenated in mesh and face order, and each mesh gets the ranges of its
/// indices and of its vertex positions in the scene-wide buffers (positions
/// are appended in the same mesh order by the caller).
pub fn layout_meshes(geoms: &Vec<MeshGeometry>) -> (r: (Vec<u32>, Vec<Mesh>))
    requires
        vertex_offset(geoms@, geoms@.len() as int) <= usize::MAX,
    ensures
        r.0@.len() == index_offset(geoms@, geoms@.len() as int),
        r.1@.len() == geoms@.len(),
        forall|m: int|
            0 <= m < geoms@.len() ==> {
                let mesh = #[trigger] r.1@[m];
                &&& mesh.indices.start == index_offset(geoms@, m)
                &&& mesh.indices.end == index_offset(geoms@, m + 1)
                &&& mesh.positions.start == vertex_offset(geoms@, m)
                &&& mesh.positions.end == vertex_offset(geoms@, m + 1)
            },
        forall|m: int, t: int|
            0 <= m < geoms@.len() && 0 <= t < 3 * geoms@[m].faces@.len() ==> r.0@[index_offset(
                geoms@,
                m,
            ) + t] == #[trigger] geoms@[m].faces@[t / 3][t % 3],
        // each mesh's ranges are as long as its vertices and its indices
        forall|m: int|
            0 <= m < geoms@.len() ==> {
                &&& #[trigger] r.1@[m].positions.end - r.1@[m].positions.start == geoms@[m].vertex_count
                &&& r.1@[m].indices.end - r.1@[m].indices.start == 3 * geoms@[m].faces@.len()
            },
        // the ranges start at zero and follow each other without gaps
        geoms@.len() > 0 ==> r.1@[0].positions.start == 0 && r.1@[0].indices.start == 0,
        forall|m: int|
            0 < m < geoms@.len() ==> {
                &&& #[trigger] r.1@[m].positions.start == r.1@[m - 1].positions.end
                &&& r.1@[m].indices.start == r.1@[m - 1].indices.end
            },
        geoms@.len() > 0 ==> r.1@[geoms@.len() - 1].indices.end == r.0@.len(),
{
    let mut indices: Vec<u32> = Vec::new();
    let mut meshes: Vec<Mesh> = Vec::new();
    let mut positions_len: usize = 0;
    let mut m: usize = 0;
    while m < geoms.len()
        invariant
            m <= geoms@.len(),
            vertex_offset(geoms@, geoms@.len() as int) <= usize::MAX,
            positions_len == vertex_offset(geoms@, m as int),
            indices@.len() == index_offset(geoms@, m as int),
            meshes@.len() == m,
            forall|j: int|
                0 <= j < m ==> {
                    let mesh = #[trigger] meshes@[j];
                    &&& mesh.indices.start == index_offset(geoms@, j)
                    &&& mesh.indices.end == index_offset(geoms@, j + 1)
                    &&& mesh.positions.start == vertex_offset(geoms@, j)
                    &&& mesh.positions.end == vertex_offset(geoms@, j + 1)
                },
            forall|j: int, t: int|
                0 <= j < m && 0 <= t < 3 * geoms@[j].faces@.len() ==> indices@[index_offset(
                    geoms@,
                    j,
                ) + t] == #[trigger] geoms@[j].faces@[t / 3][t % 3],
        decreases geoms@.len() - m,
    {
        let geom = &geoms[m];
        proof {
            lemma_offsets_monotone(geoms@, m + 1, geoms@.len() as int);
        }
        let positions_offset = positions_len;
        positions_len = positions_len + geom.vertex_count;
        let indices_offset = indices.len();
        let ghost before = indices@;
        let mut f: usize = 0;
        while f < geom.faces.len()
            invariant
                f <= geom.faces@.len(),
                indices@.len() == indices_offset + 3 * f,
                indices_offset == index_offset(geoms@, m as int),
                indices@.subrange(0, indices_offset as int) == before,
                forall|t: int|
                    0 <= t < 3 * f ==> indices@[indices_offset + t] == #[trigger] geom.faces@[t
                        / 3][t % 3],
            decreases geom.faces@.len() - f,
        {
            let face = &geom.faces[f];
            indices.push(face[0]);
            indices.push(face[1]);
            indices.push(face[2]);
            proof {
                assert forall|t: int| 0 <= t < 3 * (f + 1) implies indices@[indices_offset + t]
                    == #[trigger] geom.faces@[t / 3][t % 3] by {
                    if t >= 3 * f {
                        assert(t / 3 == f);
                    }
                }
                assert(indices@.subrange(0, indices_offset as int) =~= before);
            }
            f = f + 1;
        }
        meshes.push(
            Mesh {
                indices: std::ops::Range { start: indices_offset, end: indices.len() },
                positions: std::ops::Range { start: positions_offset, end: positions_len },
            },
        );
        proof {
            assert forall|j: int, t: int|
                0 <= j < m + 1 && 0 <= t < 3 * geoms@[j].faces@.len() implies indices@[index_offset(
                geoms@,
                j,
            ) + t] == #[trigger] geoms@[j].faces@[t / 3][t % 3] by {
                if j < m {
                    lemma_offsets_monotone(geoms@, j + 1, m as int);
                    lemma_offsets_monotone(geoms@, 0, j);
                    let x = index_offset(geoms@, j) + t;
                    assert(x < indices_offset);
                    assert(indices@.subrange(0, indices_offset as int)[x] == indices@[x]);
                    assert(before[x] == geoms@[j].faces@[t / 3][t % 3]);
                }
            }
        }
        m = m + 1;
    }
    proof {
        assert forall|m: int| 0 <= m < geoms@.len() implies {
            &&& #[trigger] meshes@[m].positions.end - meshes@[m].positions.start == geoms@[m].vertex_count
            &&& meshes@[m].indices.end - meshes@[m].indices.start == 3 * geoms@[m].faces@.len()
        } by {
            lemma_offsets_step(geoms@, m);
        }
    }
    (indices, meshes)
}

/// Each mesh adds exactly its own vertex count to the position offset and
/// three indices per triangle to the index offset, starting from zero.
pub proof fn lemma_offsets_step(geoms: Seq<MeshGeometry>, m: int)
    requires
        0 <= m < geoms.len(),
    ensures
        vertex_offset(geoms, 0) == 0,
        index_offset(geoms, 0) == 0,
        vertex_offset(geoms, m + 1) == vertex_offset(geoms, m) + geoms[m].vertex_count,
        index_offset(geoms, m + 1) == index_offset(geoms, m) + 3 * geoms[m].faces@.len(),
{
}

/// The GPU-side description of each mesh: the same index and position
/// ranges, in the same order.
pub fn mesh_data(meshes: &Vec<Mesh>) -> (r: Vec<MeshData>)
    ensures
        r@.len() == meshes@.len(),
        forall|m: int|
            0 <= m < meshes@.len() ==> {
                let d = #[trigger] r@[m];
                &&& d.indices.start == meshes@[m].indices.start
                &&& d.indices.end == meshes@[m].indices.end
                &&& d.positions.start == meshes@[m].positions.start
                &&& d.positions.end == meshes@[m].positions.end
            },
{
    let mut out: Vec<MeshData> = Vec::new();
    let mut m: usize = 0;
    while m < meshes.len()
        invariant
            m <= meshes@.len(),
            out@.len() == m,
            forall|j: int|
                0 <= j < m ==> {
                    let d = #[trigger] out@[j];
                    &&& d.indices.start == meshes@[j].indices.start
                    &&& d.indices.end == meshes@[j].indices.end
                    &&& d.positions.start == meshes@[j].positions.start
                    &&& d.positions.end == meshes@[j].positions.end
                },
        decreases meshes@.len() - m,
    {
        let mesh = &meshes[m];
        out.push(
            MeshData {
                indices: Range { start: mesh.indices.start, end: mesh.indices.end },
                positions: Range { start: mesh.positions.start, end: mesh.positions.end },
            },
        );
        m = m + 1;
    }
    out
}

} // verus!
