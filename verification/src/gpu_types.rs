//! Plain data shared with the GPU kernels.
use vstd::prelude::*;

verus! {

/// A half-open range `start..end` of element indices into a flat buffer.
#[derive(Copy, Clone)]
pub struct Range {
    pub start: usize,
    pub end: usize,
}

/// Where one mesh's indices and positions sit in the scene-wide buffers.
#[derive(Copy, Clone)]
pub struct MeshData {
    pub indices: Range,
    pub positions: Range,
}

/// A 64-bit GPU address, as laid out in uniform data.
#[allow(non_camel_case_types)]
#[derive(Debug, Clone, Copy)]
pub struct uint64_t(pub u64);

/// Material parameters; no field is read yet.
pub struct Material {}

} // verus!
