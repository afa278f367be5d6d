//! Integer random number generation: the TEA block cipher used as a hash to
//! derive seeds, and a PCG generator.
use vstd::prelude::*;

verus! {

/// The round constant of TEA (the golden ratio, scaled to 32 bits).
pub const TEA_DELTA: u32 = 0x9e3779b9;

/// One half-round of TEA's mixing function on the word `v`.
pub open spec fn tea_mix(v: u32, sum: u32) -> u32 {
    v.wrapping_shl(4).wrapping_add(0xad90777du32) ^ v.wrapping_add(sum) ^ v.wrapping_shr(
        5,
    ).wrapping_add(0x7e95761eu32)
}

/// The state `(v0, v1)` after `n` more rounds of TEA, starting from the
/// running sum `sum`.
pub open spec fn tea_rounds(v0: u32, v1: u32, sum: u32, n: nat) -> (u32, u32)
    decreases n,
{
    if n == 0 {
        (v0, v1)
    } else {
        let sum = sum.wrapping_add(TEA_DELTA);
        let v0 = v0.wrapping_add(tea_mix(v1, sum));
        let v1 = v1.wrapping_add(tea_mix(v0, sum));
        tea_rounds(v0, v1, sum, (n - 1) as nat)
    }
}

/// The round count that `sample_tea_32` uses for a requested count: zero
/// stands for the default of four rounds.
pub open spec fn effective_rounds(rounds: usize) -> nat {
    if rounds == 0 {
        4
    } else {
        rounds as nat
    }
}

/// Hashes a seed with `rounds` rounds of TEA (zero means four). Both words of
/// the cipher state start from `v0`; `v1` does not take part. The arithmetic
/// wraps, as in the cipher's definition.
pub fn sample_tea_32(v0: u32, v1: u32, rounds: usize) -> (r: (u32, u32))
    ensures
        r == tea_rounds(v0, v0, 0, effective_rounds(rounds)),
        // a round count of zero stands for four rounds; any other is used as given
        rounds == 0 ==> r == tea_rounds(v0, v0, 0, 4),
        rounds > 0 ==> r == tea_rounds(v0, v0, 0, rounds as nat),
{
    let rounds = if rounds == 0 {
        4
    } else {
        rounds
    };
    let mut v0 = v0;
    let mut v1 = v0;
    let mut sum: u32 = 0;
    let ghost start = v0;
    let mut i: usize = 0;
    while i < rounds
        invariant
            i <= rounds,
            rounds == effective_rounds(rounds as usize),
            tea_rounds(v0, v1, sum, (rounds - i) as nat) == tea_rounds(start, start, 0, rounds as nat),
        decreases rounds - i,
    {
        sum = sum.wrapping_add(TEA_DELTA);
        v0 = v0.wrapping_add(
            v1.wrapping_shl(4).wrapping_add(0xad90777du32) ^ v1.wrapping_add(sum)
                ^ v1.wrapping_shr(5).wrapping_add(0x7e95761eu32),
        );
        v1 = v1.wrapping_add(
            v0.wrapping_shl(4).wrapping_add(0xad90777du32) ^ v0.wrapping_add(sum)
                ^ v0.wrapping_shr(5).wrapping_add(0x7e95761eu32),
        );
        i = i + 1;
    }
    (v0, v1)
}

/// The initial/default state to initialize the Pcg struct with
pub const INIT_STATE: u64 = 0x853c_49e6_748f_ea9b;

/// The initial/default incrementing value to initialize the Pcg struct with
pub const INIT_INC: u64 = 0xda3e_39cb_94b9_5bdb;

/// The value to multiply the state with when a random number is generated in order to
/// alter the random number generator's state
pub const INCREMENTOR: u64 = 6_364_136_223_846_793_005;

/// The state that follows `state` in the generator with increment `inc`.
pub open spec fn pcg_step(state: u64, inc: u64) -> u64 {
    state.wrapping_mul(INCREMENTOR).wrapping_add(inc)
}

/// The output drawn from the state `state`: a xorshift of the state, rotated
/// by the amount held in its top five bits.
pub open spec fn pcg_output(state: u64) -> u64 {
    let xor_shifted = (state >> 18u64) ^ (state >> 27u64);
    let rot = state >> 59u64;
    (xor_shifted >> rot) | (xor_shifted << (((32 - rot) % 32) as u64))
}

/// The output of a state rotates its xorshift by the top five bits of the
/// state: unchanged when they are zero, and otherwise shifted right by that
/// amount and left by its complement to 32 (a left shift never reaches 32).
pub proof fn lemma_pcg_output_rotation(state: u64)
    ensures
        state >> 59u64 < 32,
        state >> 59u64 == 0 ==> pcg_output(state) == (state >> 18u64) ^ (state >> 27u64),
        state >> 59u64 != 0 ==> pcg_output(state) == (((state >> 18u64) ^ (state >> 27u64)) >> (
        state >> 59u64)) | (((state >> 18u64) ^ (state >> 27u64)) << (32 - (state >> 59u64)) as u64),
{
    let xs = (state >> 18u64) ^ (state >> 27u64);
    let rot = state >> 59u64;
    assert(rot < 32) by (bit_vector)
        requires
            rot == state >> 59u64,
    ;
    if rot == 0 {
        assert((xs >> 0u64) | (xs << 0u64) == xs) by (bit_vector);
        assert(((32 - rot) % 32) as u64 == 0u64);
    } else {
        assert(((32 - rot) % 32) as u64 == (32 - rot) as u64);
    }
}

/// The state step is the affine map `state * INCREMENTOR + inc`, taken
/// modulo 2^64.
pub proof fn lemma_pcg_step_affine(state: u64, inc: u64)
    ensures
        pcg_step(state, inc) == (state * INCREMENTOR + inc) % 0x1_0000_0000_0000_0000,
{
    let m: int = 0x1_0000_0000_0000_0000;
    let p = (state * INCREMENTOR) % m;
    vstd::arithmetic::div_mod::lemma_add_mod_noop(state * INCREMENTOR, inc as int, m);
    vstd::arithmetic::div_mod::lemma_mod_bound(state * INCREMENTOR, m);
    vstd::arithmetic::div_mod::lemma_small_mod(inc as nat, m as nat);
    if p + inc >= m {
        assert((p + inc) % m == p + inc - m) by (nonlinear_arith)
            requires
                m <= p + inc < 2 * m,
                m == 0x1_0000_0000_0000_0000int,
        ;
    } else {
        vstd::arithmetic::div_mod::lemma_small_mod((p + inc) as nat, m as nat);
    }
}

/// A permuted congruential generator.
#[derive(Clone, Copy)]
pub struct PCG {
    state: u64,
    inc: u64,
}

impl View for PCG {
    /// The state and the increment.
    type V = (u64, u64);

    closed spec fn view(&self) -> (u64, u64) {
        (self.state, self.inc)
    }
}

impl PCG {
    /// A generator starting at state `seed` on the stream `seq`; the
    /// increment is `seq` shifted up by one with the low bit set, so it is
    /// always odd.
    pub fn new(seed: u64, seq: u64) -> (r: Self)
        ensures
            r@ == (seed, (seq << 1u64) | 1u64),
            r@.1 % 2 == 1,
            // the stream's low 63 bits, doubled, plus one
            r@.1 == 2 * (seq % 0x8000_0000_0000_0000) + 1,
    {
        assert((seq << 1u64) | 1u64 == 2 * (seq % 0x8000_0000_0000_0000) + 1) by (bit_vector);
        let inc = (seq << 1u64) | 1u64;
        assert(inc % 2 == 1) by (bit_vector)
            requires
                inc == (seq << 1u64) | 1u64,
        ;
        Self { state: seed, inc }
    }

    /// Advances the generator and returns the output of the state it left.
    pub fn next_u64(&mut self) -> (r: u64)
        ensures
            r == pcg_output(old(self)@.0),
            final(self)@ == (pcg_step(old(self)@.0, old(self)@.1), old(self)@.1),
            // the state advances by the affine step modulo 2^64
            final(self)@.0 == (old(self)@.0 * INCREMENTOR + old(self)@.1) % 0x1_0000_0000_0000_0000,
            // with no rotation the xorshift comes out unchanged
            old(self)@.0 >> 59u64 == 0 ==> r == (old(self)@.0 >> 18u64) ^ (old(self)@.0 >> 27u64),
            // otherwise it is shifted right by the rotation and left by its
            // complement to 32
            old(self)@.0 >> 59u64 != 0 ==> r == (((old(self)@.0 >> 18u64) ^ (old(self)@.0 >> 27u64))
                >> (old(self)@.0 >> 59u64)) | (((old(self)@.0 >> 18u64) ^ (old(self)@.0 >> 27u64))
                << (32 - (old(self)@.0 >> 59u64)) as u64),
    {
        proof {
            lemma_pcg_output_rotation(self.state);
            lemma_pcg_step_affine(self.state, self.inc);
        }
        let old_state = self.state;
        self.state = old_state.wrapping_mul(INCREMENTOR).wrapping_add(self.inc);
        let xor_shifted = (old_state >> 18u64) ^ (old_state >> 27u64);
        let rot: u64 = old_state >> 59u64;
        let left: u64 = 0u64.wrapping_sub(rot) & 31u64;
        assert(rot < 32 && left == ((32 - rot) % 32) as u64) by (bit_vector)
            requires
                rot == old_state >> 59u64,
                left == (if 0 - rot < 0 { (0 - rot + 0x1_0000_0000_0000_0000) as u64 } else { (0 - rot) as u64 }) & 31u64,
        ;
        (xor_shifted >> rot) | (xor_shifted << left)
    }

    /// The low 32 bits of the next 64-bit output.
    pub fn next_u32(&mut self) -> (r: u32)
        ensures
            r == pcg_output(old(self)@.0) as u32,
            final(self)@ == (pcg_step(old(self)@.0, old(self)@.1), old(self)@.1),
    {
        self.next_u64() as u32
    }

    /// The bit pattern of the next sample in [1, 2): the top 23 bits of the
    /// next 32-bit output as the mantissa of an `f32` with exponent zero.
    pub fn next_f32_bits(&mut self) -> (r: u32)
        ensures
            r == ((pcg_output(old(self)@.0) as u32) >> 9u32) | 0x3f800000u32,
            final(self)@ == (pcg_step(old(self)@.0, old(self)@.1), old(self)@.1),
    {
        self.next_u32().wrapping_shr(9) | 0x3f800000u32
    }
}

impl Default for PCG {
    fn default() -> (r: Self)
        ensures
            r@ == (INIT_STATE, INIT_INC),
    {
        Self { state: INIT_STATE, inc: INIT_INC }
    }
}

} // verus!
