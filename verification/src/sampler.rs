//! A random number source seeded by hashing a pass seed and a sample index.
//! The hash reads only the seed (see `sample_tea_32`), so every sample index
//! of a pass starts from the same generator state.
use vstd::prelude::*;
use crate::rand::{sample_tea_32, tea_rounds, PCG};

verus! {

/// The generator state `(state, increment)` that a sampler seeded with
/// `seed` and `idx` starts from: the two words of a four-round TEA hash of
/// `seed`, widened to 64 bits, become the seed and the stream of a PCG. The
/// hash does not read `idx`, so the state is the same for every index.
pub open spec fn seeded_state(seed: u32, idx: u32) -> (u64, u64) {
    let (v0, v1) = tea_rounds(seed, seed, 0, 4);
    (v0 as u64, ((v1 as u64) << 1u64) | 1u64)
}

/// The starting state holds the first hash word as the generator's state
/// and twice the second hash word plus one as its increment: both words
/// are widened without sign, so the increment is odd and below 2^33.
pub proof fn lemma_seeded_state_words(seed: u32, idx: u32)
    ensures
        seeded_state(seed, idx).0 == tea_rounds(seed, seed, 0, 4).0,
        seeded_state(seed, idx).1 == 2 * tea_rounds(seed, seed, 0, 4).1 + 1,
        seeded_state(seed, idx).1 < 0x2_0000_0000,
{
    let v1 = tea_rounds(seed, seed, 0, 4).1;
    let w = v1 as u64;
    assert((w << 1u64) | 1u64 == 2 * w + 1) by (bit_vector)
        requires
            w < 0x1_0000_0000,
    ;
}

/// Uniform samples from a PCG seeded through a TEA hash.
#[derive(Clone, Copy)]
pub struct IndependentSampler {
    pcg: PCG,
}

impl View for IndependentSampler {
    /// The state and increment of the underlying generator.
    type V = (u64, u64);

    closed spec fn view(&self) -> (u64, u64) {
        self.pcg@
    }
}

impl IndependentSampler {
    /// A sampler for sample `idx` of the pass seeded with `seed`; its state
    /// depends on `seed` alone.
    pub fn new(seed: u32, idx: u32) -> (r: Self)
        ensures
            r@ == seeded_state(seed, idx),
            r@.0 == tea_rounds(seed, seed, 0, 4).0,
            r@.1 == 2 * tea_rounds(seed, seed, 0, 4).1 + 1,
    {
        proof {
            lemma_seeded_state_words(seed, idx);
        }
        let (v0, v1) = sample_tea_32(seed, idx, 4);
        Self { pcg: PCG::new(v0 as u64, v1 as u64) }
    }

    /// Reseeds the sampler in place, exactly as `new(seed, idx)` would.
    pub fn seed(&mut self, seed: u32, idx: u32)
        ensures
            final(self)@ == seeded_state(seed, idx),
            final(self)@.0 == tea_rounds(seed, seed, 0, 4).0,
            final(self)@.1 == 2 * tea_rounds(seed, seed, 0, 4).1 + 1,
    {
        proof {
            lemma_seeded_state_words(seed, idx);
        }
        let (v0, v1) = sample_tea_32(seed, idx, 4);
        self.pcg = PCG::new(v0 as u64, v1 as u64);
    }

    /// The bit pattern of the next one-dimensional sample, in the form
    /// `PCG::next_f32_bits` produces it.
    pub fn next_1d_bits(&mut self) -> (r: u32)
        ensures
            r == ((crate::rand::pcg_output(old(self)@.0) as u32) >> 9u32) | 0x3f800000u32,
            final(self)@ == (crate::rand::pcg_step(old(self)@.0, old(self)@.1), old(self)@.1),
    {
        self.pcg.next_f32_bits()
    }
}

impl Default for IndependentSampler {
    fn default() -> (r: Self)
        ensures
            r@ == (crate::rand::INIT_STATE, crate::rand::INIT_INC),
    {
        Self { pcg: PCG::default() }
    }
}

/// Reseeding a sampler and building a fresh one from the same seed and index
/// give the same generator state, whatever state the reseeded sampler had.
pub proof fn lemma_reseed_is_fresh(seed: u32, idx: u32, reseeded: IndependentSampler, fresh: IndependentSampler)
    requires
        reseeded@ == seeded_state(seed, idx),
        fresh@ == seeded_state(seed, idx),
    ensures
        reseeded@ == fresh@,
{
}

} // verus!
