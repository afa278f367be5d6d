use path_tracer::rand::{sample_tea_32, INIT_INC, INIT_STATE, PCG};

#[test]
fn tea_four_rounds() {
    assert_eq!(sample_tea_32(0, 0, 4), (0x05f25aaf, 0xad3de667));
    assert_eq!(sample_tea_32(1, 2, 4), (0xbb584046, 0x36f01a41));
}

#[test]
fn tea_zero_rounds_means_four() {
    assert_eq!(sample_tea_32(1, 2, 0), sample_tea_32(1, 2, 4));
}

#[test]
fn tea_second_word_is_not_used() {
    assert_eq!(sample_tea_32(1, 99, 4), sample_tea_32(1, 2, 4));
}

#[test]
fn tea_other_round_counts() {
    assert_eq!(sample_tea_32(12345, 0, 1), (0x4d31d599, 0xeb3bcace));
    assert_eq!(sample_tea_32(0xffff_ffff, 7, 8), (0xd985b66f, 0x42e0b005));
}

#[test]
fn pcg_default_sequence() {
    assert_eq!(INIT_STATE, 0x853c_49e6_748f_ea9b);
    assert_eq!(INIT_INC, 0xda3e_39cb_94b9_5bdb);
    let mut pcg = PCG::default();
    assert_eq!(pcg.next_u64(), 0x215f_b5f0_a1ff_b5f0);
    assert_eq!(pcg.next_u64(), 0x0019_0a81_b81d_5b81);
    assert_eq!(pcg.next_u64(), 0x005f_c872_367f_fa72);
}

#[test]
fn pcg_new_sequence() {
    let mut pcg = PCG::new(42, 54);
    assert_eq!(pcg.next_u64(), 0);
    assert_eq!(pcg.next_u32(), 0xbfe6_5b34);
}

#[test]
fn pcg_next_u32_is_low_half() {
    let mut pcg = PCG::default();
    assert_eq!(pcg.next_u32(), 0xa1ff_b5f0);
    assert_eq!(pcg.next_u32(), 0xb81d_5b81);
}

#[test]
fn pcg_float_bits() {
    let mut pcg = PCG::default();
    assert_eq!(pcg.next_f32_bits(), 0x3fd0_ffda);
    assert_eq!(pcg.next_f32_bits(), 0x3fdc_0ead);
    assert_eq!(pcg.next_f32_bits(), 0x3f9b_3ffd);
}

#[test]
fn pcg_copies_run_in_lockstep() {
    let mut a = PCG::new(7, 3);
    let mut b = a;
    for _ in 0..10 {
        assert_eq!(a.next_u64(), b.next_u64());
    }
}
