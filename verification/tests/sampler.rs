use path_tracer::integrator::invocation_index;
use path_tracer::rand::PCG;
use path_tracer::sampler::IndependentSampler;

#[test]
fn sampler_starts_from_tea_hash() {
    let mut s = IndependentSampler::new(1, 2);
    // state 0xbb584046, increment 0x6de03483
    let mut pcg = PCG::new(0xbb58_4046, 0x36f0_1a41);
    assert_eq!(s.next_1d_bits(), 0x3f80_0017);
    assert_eq!(pcg.next_f32_bits(), 0x3f80_0017);
    for _ in 0..5 {
        assert_eq!(s.next_1d_bits(), pcg.next_f32_bits());
    }
}

#[test]
fn reseeding_matches_fresh_sampler() {
    let mut reseeded = IndependentSampler::default();
    reseeded.next_1d_bits();
    reseeded.seed(17, 4);
    let mut fresh = IndependentSampler::new(17, 4);
    for _ in 0..8 {
        assert_eq!(reseeded.next_1d_bits(), fresh.next_1d_bits());
    }
}

#[test]
fn default_sampler_uses_default_generator() {
    let mut s = IndependentSampler::default();
    let mut pcg = PCG::default();
    for _ in 0..4 {
        assert_eq!(s.next_1d_bits(), pcg.next_f32_bits());
    }
}

#[test]
fn invocation_index_is_row_major() {
    assert_eq!(invocation_index((0, 0, 0), (4, 3, 2)), 0);
    assert_eq!(invocation_index((1, 2, 1), (4, 3, 2)), 1 * 3 * 2 + 2 * 2 + 1);
    assert_eq!(invocation_index((999, 999, 7), (1000, 1000, 8)), 999 * 8000 + 999 * 8 + 7);
}

#[test]
fn triangle_slots_offset_the_indices() {
    let indices = [9, 9, 0, 1, 2, 2, 3, 0];
    assert_eq!(path_tracer::integrator::triangle_attribute_slots(&indices, 2, 1, 0), [2, 3, 0]);
    assert_eq!(path_tracer::integrator::triangle_attribute_slots(&indices, 2, 0, 10), [10, 11, 12]);
}

#[test]
fn sampler_state_does_not_depend_on_index() {
    let mut a = IndependentSampler::new(5, 0);
    let mut b = IndependentSampler::new(5, 1234);
    for _ in 0..4 {
        assert_eq!(a.next_1d_bits(), b.next_1d_bits());
    }
}
