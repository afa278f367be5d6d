use path_tracer::cast::{try_cast_slice_len, ElemLayout};

const U8: ElemLayout = ElemLayout { size: 1, align: 1 };
const U32: ElemLayout = ElemLayout { size: 4, align: 4 };
const UNIT: ElemLayout = ElemLayout { size: 0, align: 1 };

#[test]
fn widening_divides_bytes() {
    assert_eq!(try_cast_slice_len(0x1000, 8, U8, U32), Some(2));
}

#[test]
fn misaligned_address_is_refused() {
    assert_eq!(try_cast_slice_len(0x1001, 8, U8, U32), None);
}

#[test]
fn leftover_bytes_are_refused() {
    assert_eq!(try_cast_slice_len(0x1000, 6, U8, U32), None);
}

#[test]
fn narrowing_multiplies_length() {
    assert_eq!(try_cast_slice_len(0x1001, 3, U32, U8), Some(12));
}

#[test]
fn same_size_keeps_length() {
    assert_eq!(try_cast_slice_len(0x1000, 5, U32, U32), Some(5));
    assert_eq!(try_cast_slice_len(0x1000, 5, UNIT, UNIT), Some(5));
}

#[test]
fn zero_sized_side_is_refused() {
    assert_eq!(try_cast_slice_len(0x1000, 5, UNIT, U8), None);
    assert_eq!(try_cast_slice_len(0x1000, 5, U8, UNIT), None);
}
