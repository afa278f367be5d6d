use path_tracer::accel::geometry_counts;
use path_tracer::buffer::TypedBuffer;

#[test]
fn buffer_layout_size_is_count_times_stride() {
    let buf: TypedBuffer<[f32; 3]> = TypedBuffer::with_layout(10, 12);
    assert_eq!(buf.count(), 10);
    assert_eq!(buf.stride(), 12);
    assert_eq!(buf.size(), 120);
}

#[test]
fn empty_buffer_has_size_zero() {
    let buf: TypedBuffer<u32> = TypedBuffer::with_layout(0, 4);
    assert_eq!(buf.size(), 0);
}

#[test]
fn blas_counts_follow_build_formula() {
    assert_eq!(geometry_counts(36, 96, 12), (48, 1152));
    assert_eq!(geometry_counts(0, 0, 12), (0, 0));
    assert_eq!(geometry_counts(1, 5, 1), (1, 5));
}
