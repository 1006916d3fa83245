//! The pseudo-random generator of the simulation. Its whole state is one
//! `u64` that travels with the game state, so that replaying a frame from a
//! snapshot draws the same numbers again.

use vstd::prelude::*;

verus! {

pub const MULTIPLIER: u64 = 6364136223846793005;

pub const INCREMENT: u64 = 1442695040888963407;

/// The state that follows `state`: one step of a linear congruential
/// generator modulo 2^64.
pub open spec fn next_state(state: u64) -> u64 {
    vstd::wrapping::u64_specs::wrapping_add(
        vstd::wrapping::u64_specs::wrapping_mul(state, MULTIPLIER),
        INCREMENT,
    )
}

/// The number drawn in `state`: the state's high bits, xor-shifted and then
/// rotated right by the amount that the top five bits give.
pub open spec fn output(state: u64) -> u32 {
    let xorshifted = (((state >> 18) ^ state) >> 27) as u32;
    let rot = (state >> 59) as u32;
    (xorshifted >> rot) | (xorshifted << ((32 - rot) as u32 & 31))
}

/// The state of a generator seeded with `seed`.
pub open spec fn seeded(seed: u64) -> u64 {
    next_state(vstd::wrapping::u64_specs::wrapping_add(next_state(0), seed))
}

/// The number in `[low, high)` that the draw `r` selects: `low` plus the
/// share `r / 2^32` of the span, rounded down. An empty range gives `low`.
pub open spec fn scale_to_range(low: int, high: int, r: u32) -> int {
    if high <= low {
        low
    } else {
        low + ((high - low) * r) / 0x1_0000_0000
    }
}

/// The number that `scale_to_range` selects lies in the range.
pub proof fn lemma_scale_to_range_bounds(low: int, high: int, r: u32)
    requires
        low < high,
    ensures
        low <= scale_to_range(low, high, r) < high,
{
    let span = high - low;
    assert(0 <= (span * r) / 0x1_0000_0000 < span) by (nonlinear_arith)
        requires
            span > 0,
            0 <= r < 0x1_0000_0000,
    ;
}

/// A permuted congruential generator with 64 bits of state and 32 bits of
/// output per draw.
#[derive(Clone, Copy, Debug, PartialEq, Eq, Structural)]
pub struct Rng {
    pub state: u64,
}

impl Rng {
    /// A generator seeded with `seed`.
    pub fn new(seed: u64) -> (rng: Rng)
        ensures
            rng.state == seeded(seed),
    {
        let mut rng = Rng { state: 0 };
        let _ = rng.rand();
        rng.state = rng.state.wrapping_add(seed);
        let _ = rng.rand();
        rng
    }

    /// Draws the next number and advances the state.
    pub fn rand(&mut self) -> (r: u32)
        ensures
            r == output(old(self).state),
            final(self).state == next_state(old(self).state),
    {
        let oldstate: u64 = self.state;
        self.state = oldstate.wrapping_mul(MULTIPLIER).wrapping_add(INCREMENT);
        let xorshifted: u32 = (((oldstate >> 18) ^ oldstate) >> 27) as u32;
        let rot: u32 = (oldstate >> 59) as u32;
        assert(rot < 32) by (bit_vector)
            requires
                rot == (oldstate >> 59) as u32,
        ;
        assert(((32 - rot) as u32 & 31) < 32) by (bit_vector);
        (xorshifted >> rot) | (xorshifted << ((32 - rot) & 31))
    }

    /// Draws a number in `[low, high)`. Where the range is empty the draw is
    /// still made and `low` is returned.
    pub fn gen_range(&mut self, low: i32, high: i32) -> (r: i32)
        ensures
            r == scale_to_range(low as int, high as int, output(old(self).state)),
            final(self).state == next_state(old(self).state),
            low < high ==> low <= r < high,
            high <= low ==> r == low,
    {
        let draw: u32 = self.rand();
        if high <= low {
            return low;
        }
        let span: u64 = (high as i64 - low as i64) as u64;
        assert(span * draw < 0x1_0000_0000 * 0x1_0000_0000) by (nonlinear_arith)
            requires
                span < 0x1_0000_0000,
                draw < 0x1_0000_0000,
        ;
        let part: u64 = (span * (draw as u64)) / 0x1_0000_0000;
        proof {
            lemma_scale_to_range_bounds(low as int, high as int, draw);
        }
        (low as i64 + part as i64) as i32
    }

    /// Draws an index into a collection of `len` items; `None` where there
    /// is nothing to choose from. A draw is made either way.
    pub fn choose_index(&mut self, len: usize) -> (r: Option<usize>)
        ensures
            final(self).state == next_state(old(self).state),
            len == 0 ==> r is None,
            len > 0 ==> r is Some && r->0 < len && r->0 as int == (len as int * output(
                old(self).state,
            )) / 0x1_0000_0000,
    {
        let draw: u32 = self.rand();
        if len == 0 {
            return None;
        }
        assert(len as u128 * draw as u128 <= 0xffff_ffff_ffff_ffff * 0x1_0000_0000) by (nonlinear_arith)
            requires
                len <= 0xffff_ffff_ffff_ffff,
                draw < 0x1_0000_0000,
        ;
        let part: u128 = (len as u128 * draw as u128) / 0x1_0000_0000;
        assert(part < len) by (nonlinear_arith)
            requires
                part == (len as int * draw as int) / 0x1_0000_0000,
                len > 0,
                0 <= draw < 0x1_0000_0000,
        ;
        Some(part as usize)
    }
}

} // verus!
