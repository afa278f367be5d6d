//! The element layout of a typed GPU buffer.
use vstd::prelude::*;
use std::marker::PhantomData;

verus! {

/// How many elements of type `T` a buffer holds and how many bytes apart they
/// are; the whole buffer (`count * stride` bytes) is addressable.
pub struct TypedBuffer<T> {
    _ty: PhantomData<T>,
    count: usize,
    stride: usize,
}

impl<T> TypedBuffer<T> {
    #[verifier::type_invariant]
    spec fn size_fits(self) -> bool {
        self.count * self.stride <= usize::MAX
    }

    /// The element count and the stride.
    pub closed spec fn layout(self) -> (usize, usize) {
        (self.count, self.stride)
    }

    /// The layout of a buffer of `count` elements, `stride` bytes apart.
    pub fn with_layout(count: usize, stride: usize) -> (r: Self)
        requires
            count * stride <= usize::MAX,
        ensures
            r.layout() == (count, stride),
    {
        Self { _ty: PhantomData, count, stride }
    }

    /// Number of elements.
    pub fn count(&self) -> (r: usize)
        ensures
            r == self.layout().0,
    {
        self.count
    }

    /// Size of the buffer in bytes.
    pub fn size(&self) -> (r: usize)
        ensures
            r == self.layout().0 * self.layout().1,
    {
        proof {
            use_type_invariant(self);
        }
        self.count * self.stride
    }

    /// Distance between consecutive elements, in bytes.
    pub fn stride(&self) -> (r: usize)
        ensures
            r == self.layout().1,
    {
        self.stride
    }
}

} // verus!
