//! Integer bookkeeping of the path tracing kernels.
use vstd::prelude::*;

verus! {

/// Row-major linear index of the invocation at `(x, y, z)` in a dispatch
/// grid of `size` invocations: `x * size.1 * size.2 + y * size.2 + z`. The
/// kernels seed one sampler per linear index.
pub fn invocation_index(idx3: (u32, u32, u32), size: (u32, u32, u32)) -> (r: usize)
    requires
        idx3.0 * size.1 <= usize::MAX,
        idx3.0 * size.1 * size.2 + idx3.1 * size.2 + idx3.2 <= usize::MAX,
    ensures
        r == idx3.0 * size.1 * size.2 + idx3.1 * size.2 + idx3.2,
{
    let x = idx3.0 as usize;
    let y = idx3.1 as usize;
    let z = idx3.2 as usize;
    let sy = size.1 as usize;
    let sz = size.2 as usize;
    proof {
        assert(0 <= x * sy) by (nonlinear_arith)
            requires
                0 <= x,
                0 <= sy,
        ;
        assert(0 <= x * sy * sz) by (nonlinear_arith)
            requires
                0 <= x * sy,
                0 <= sz,
        ;
        assert(0 <= y * sz) by (nonlinear_arith)
            requires
                0 <= y,
                0 <= sz,
        ;
    }
    let xy = x * sy * sz;
    let yz = y * sz;
    xy + yz + z
}

/// Slots, in a per-vertex buffer whose entries for the mesh start at
/// `base`, of the three corners of triangle `primitive` of a mesh whose
/// indices start at `first_index`: corner `k` is at
/// `base + indices[first_index + 3 * primitive + k]`. With `base` zero these
/// are the triangle's vertex indices themselves.
pub fn triangle_attribute_slots(indices: &[u32], first_index: usize, primitive: usize, base: usize) -> (r: [usize; 3])
    requires
        first_index + 3 * primitive + 2 < indices@.len(),
        forall|k: int| 0 <= k < 3 ==> base + #[trigger] indices@[first_index + 3 * primitive + k] <= usize::MAX,
    ensures
        forall|k: int| 0 <= k < 3 ==> #[trigger] r@[k] == base + indices@[first_index + 3 * primitive + k],
{
    proof {
        assert(indices@.len() == indices.len());
        assert(base + indices@[first_index + 3 * primitive + 0] <= usize::MAX);
        assert(base + indices@[first_index + 3 * primitive + 1] <= usize::MAX);
        assert(base + indices@[first_index + 3 * primitive + 2] <= usize::MAX);
    }
    let i = first_index + primitive * 3;
    let r = [base + indices[i] as usize, base + indices[i + 1] as usize, base + indices[i + 2] as usize];
    r
}

} // verus!
