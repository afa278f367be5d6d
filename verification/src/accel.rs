//! The counts that size a bottom-level acceleration structure.
use vstd::prelude::*;

verus! {

/// Triangle and vertex counts of a bottom-level acceleration structure built
/// over an index buffer of `index_bytes` bytes (of `u32` indices) and a
/// position buffer of `position_bytes` bytes with `vertex_stride` bytes per
/// vertex, computed as the build does: the triangle count is the index
/// buffer's size times the size of a `u32`, divided by three; the vertex
/// count is the position buffer's size times the stride.
pub fn geometry_counts(index_bytes: u64, position_bytes: u64, vertex_stride: usize) -> (r: (u64, u64))
    requires
        index_bytes * 4 <= u64::MAX,
        position_bytes * vertex_stride <= u64::MAX,
    ensures
        r.0 == index_bytes * 4 / 3,
        r.1 == position_bytes * vertex_stride,
{
    let triangle_count = index_bytes * 4 / 3;
    let vertex_count = position_bytes * (vertex_stride as u64);
    (triangle_count, vertex_count)
}

} // verus!
