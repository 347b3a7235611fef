use vstd::prelude::*;

verus! {

/// Multiplier of the 64-bit linear congruential step.
pub const PCG_MULTIPLIER: u64 = 0x5851_f42d_4c95_7f2d;

/// The abstract value of a generator: its 64-bit state and its increment.
pub struct PcgState {
    pub state: u64,
    pub inc: u64,
}

/// `x` rotated right by `r` bit positions, `r < 32`.
pub open spec fn rotate_right_32(x: u32, r: u32) -> u32 {
    if r == 0 {
        x
    } else {
        (x >> r) | (x << ((32 - r) as u32))
    }
}

/// The 32-bit output drawn from a generator whose state is `state`:
/// the xor-shifted high bits, rotated right by the top five bits.
pub open spec fn pcg_output(state: u64) -> u32 {
    rotate_right_32((((state >> 18) ^ state) >> 27) as u32, (state >> 59) as u32)
}

impl PcgState {
    /// The generator after one draw: `state * PCG_MULTIPLIER + inc`, wrapping at 64 bits.
    pub open spec fn step(self) -> PcgState {
        PcgState { state: self.state.wrapping_mul(PCG_MULTIPLIER).wrapping_add(self.inc), inc: self.inc }
    }

    /// The generator with `seed` added into its state, wrapping at 64 bits.
    pub open spec fn mixed_with(self, seed: u64) -> PcgState {
        PcgState { state: self.state.wrapping_add(seed), inc: self.inc }
    }

    /// The generator that `seed` and the stream selector `sequence` start:
    /// from state zero and the odd increment `2 * sequence + 1`, one draw,
    /// then the seed added, then a second draw.
    pub open spec fn seeded(seed: u64, sequence: u64) -> PcgState {
        PcgState { state: 0, inc: (sequence << 1) | 1 }.step().mixed_with(seed).step()
    }
}

/// A seeded generator has an odd increment, and drawing from it keeps the
/// increment.
pub proof fn lemma_increment_odd(seed: u64, sequence: u64)
    ensures
        PcgState::seeded(seed, sequence).inc % 2 == 1,
        PcgState::seeded(seed, sequence).step().inc == PcgState::seeded(seed, sequence).inc,
{
    assert(((sequence << 1) | 1) % 2 == 1) by (bit_vector);
}

/// A permuted congruential generator with 64 bits of state and 32 bits of output.
#[derive(Clone, Debug, PartialEq, Eq, Structural)]
pub struct Pcg32 {
    state: u64,
    inc: u64,
}

impl View for Pcg32 {
    type V = PcgState;

    closed spec fn view(&self) -> PcgState {
        PcgState { state: self.state, inc: self.inc }
    }
}

impl Default for Pcg32 {
    fn default() -> (r: Self)
        ensures
            r@ == (PcgState { state: 0, inc: 0 }),
    {
        Pcg32 { state: 0, inc: 0 }
    }
}

impl Pcg32 {
    /// Restarts the stream that `seed` and `sequence` select.
    pub fn reset(&mut self, seed: u64, sequence: u64)
        ensures
            final(self)@ == PcgState::seeded(seed, sequence),
    {
        self.state = 0;
        self.inc = (sequence << 1u64) | 1;
        self.generate();
        self.state = self.state.wrapping_add(seed);
        self.generate();
    }

    /// Draws the next 32-bit value and advances the state by one step.
    pub fn generate(&mut self) -> (r: u32)
        ensures
            r == pcg_output(old(self)@.state),
            final(self)@ == old(self)@.step(),
    {
        let old_state: u64 = self.state;
        self.state = old_state.wrapping_mul(PCG_MULTIPLIER).wrapping_add(self.inc);
        let xor_shifted: u32 = #[verifier::truncate]
        ((((old_state >> 18u64) ^ old_state) >> 27u64) as u32);
        let rot: u32 = #[verifier::truncate]
        ((old_state >> 59u64) as u32);
        proof {
            assert((old_state >> 59u64) < 32) by (bit_vector);
        }
        if rot == 0 {
            xor_shifted
        } else {
            (xor_shifted >> rot) | (xor_shifted << (32 - rot))
        }
    }
}

} // verus!
