//! The length arithmetic of reinterpreting a slice of one element type as a
//! slice of another.
use vstd::prelude::*;

verus! {

/// Size and alignment of an element type, in bytes.
#[derive(Clone, Copy)]
pub struct ElemLayout {
    pub size: usize,
    pub align: usize,
}

/// Can `len` elements of layout `from` at address `addr` be viewed as
/// elements of layout `to`? The address must suit the target's alignment
/// when the target is more strictly aligned, and the bytes must make up
/// whole target elements: either both element sizes are equal, or both are
/// nonzero and the target size divides the byte length.
pub open spec fn cast_allowed(addr: usize, len: usize, from: ElemLayout, to: ElemLayout) -> bool {
    &&& !(to.align > from.align && addr % to.align != 0)
    &&& (to.size == from.size || (from.size != 0 && to.size != 0 && (len * from.size) % (
    to.size as int) == 0))
}

/// Decides whether the `len` elements of layout `from` starting at address
/// `addr` can be viewed as elements of layout `to`, and how many there are.
pub fn try_cast_slice_len(addr: usize, len: usize, from: ElemLayout, to: ElemLayout) -> (r: Option<usize>)
    requires
        len * from.size <= usize::MAX,
    ensures
        r is Some <==> cast_allowed(addr, len, from, to),
        r matches Some(n) ==> n * to.size == len * from.size && (to.size == 0 ==> n == len),
        // a well aligned cast between nonzero sizes succeeds exactly when the
        // byte length divides into whole target elements
        !(to.align > from.align && addr % to.align != 0) && from.size != 0 && to.size != 0 ==> (r
            is Some <==> (len * from.size) % (to.size as int) == 0),
        // equal sizes always keep the length, once the alignment is right
        !(to.align > from.align && addr % to.align != 0) && to.size == from.size ==> r == Some(len),
        // a misaligned address for a more strictly aligned target is refused
        to.align > from.align && addr % to.align != 0 ==> r is None,
{
    if to.align > from.align && addr % to.align != 0 {
        None
    } else if to.size == from.size {
        proof {
            if to.size != 0 {
                let t = to.size as int;
                assert((len * from.size) % t == 0) by (nonlinear_arith)
                    requires
                        t > 0,
                        from.size == t,
                        len >= 0,
                ;
            }
        }
        Some(len)
    } else if from.size == 0 || to.size == 0 {
        None
    } else {
        let bytes = len * from.size;
        assert(bytes % to.size == (len * from.size) % (to.size as int));
        if bytes % to.size == 0 {
            let n = bytes / to.size;
            assert(n * to.size == bytes) by (nonlinear_arith)
                requires
                    n == bytes / to.size,
                    bytes % to.size == 0,
                    to.size > 0,
            ;
            Some(n)
        } else {
            None
        }
    }
}

/// The cast decision in terms of bytes: a well aligned view between element
/// types of nonzero size is allowed exactly when the slice's byte length is
/// a whole number of target elements; and then the new length times the
/// target size is that byte length.
pub proof fn lemma_cast_counts_bytes(addr: usize, len: usize, from: ElemLayout, to: ElemLayout, n: int)
    requires
        !(to.align > from.align && addr % to.align != 0),
        from.size != 0,
        to.size != 0,
    ensures
        cast_allowed(addr, len, from, to) <==> (len * from.size) % (to.size as int) == 0,
        (len * from.size) % (to.size as int) == 0 && n == (len * from.size) / (to.size as int) ==> n
            * to.size == len * from.size,
{
    if (len * from.size) % (to.size as int) == 0 && n == (len * from.size) / (to.size as int) {
        let b = len * from.size;
        let t = to.size as int;
        assert(n * t == b) by (nonlinear_arith)
            requires
                n == b / t,
                b % t == 0,
                t > 0,
        ;
    }
    if to.size == from.size {
        let t = to.size as int;
        assert((len * from.size) % t == 0) by (nonlinear_arith)
            requires
                t > 0,
                from.size == t,
                len >= 0,
        ;
    }
}

} // verus!
