//! The random stream that drives sampling.
//!
//! Rendering needs many uniform draws per pixel.  Each pixel owns one
//! `SampleRng`, a small multiplicative congruential generator whose step is
//! stated exactly, so a stream is a pure function of its seed and two
//! streams seeded alike are provably equal.  Fresh entropy for seeding
//! comes from the `rand` crate through `entropy_seed`.

use vstd::prelude::*;
use crate::fixed::{ONE, iabs, fmul, div_t, lemma_tdiv_mag};
use vstd::arithmetic::div_mod::{lemma_div_is_ordered, lemma_multiply_divide_lt};

verus! {

/// The Lehmer modulus 2^31 - 1.
pub const RNG_MOD: u64 = 0x7fff_ffff;

/// The Lehmer multiplier.
pub const RNG_MUL: u64 = 48271;

/// One generator step.  A zero residue would stall the stream, so it is
/// nudged to 1 (unreachable from a well-formed state, but harmless to
/// define).
pub open spec fn rng_next(s: int) -> int {
    let t = (s * (RNG_MUL as int)) % (RNG_MOD as int);
    if t == 0 {
        1
    } else {
        t
    }
}

/// The fixed-point unit draw produced by stepping from state `s`: the top
/// 16 bits of the new 31-bit state, a value in [0, ONE).
pub open spec fn rng_unit(s: int) -> int {
    rng_next(s) / 32768
}

/// The state after `n` steps.
pub open spec fn rng_iter(s: int, n: nat) -> int
    decreases n,
{
    if n == 0 {
        s
    } else {
        rng_next(rng_iter(s, (n - 1) as nat))
    }
}

/// A deterministic, explicitly seeded stream of fixed-point draws in
/// [0, ONE).
pub struct SampleRng {
    pub state: u64,
}

impl SampleRng {
    pub open spec fn wf(self) -> bool {
        1 <= self.state < RNG_MOD
    }

    /// The stream determined by a seed: any two generators built from equal
    /// seeds have equal states, hence equal draws, forever.
    pub fn seed_from(seed: u64) -> (r: SampleRng)
        ensures
            r.wf(),
            r.state as int == (seed as int) % ((RNG_MOD as int) - 1) + 1,
    {
        SampleRng { state: seed % (RNG_MOD - 1) + 1 }
    }

    /// Advance once and return a fixed-point draw in [0, ONE).
    pub fn next_unit(&mut self) -> (r: i128)
        requires
            old(self).wf(),
        ensures
            final(self).wf(),
            final(self).state as int == rng_next(old(self).state as int),
            r as int == rng_unit(old(self).state as int),
            0 <= r < ONE,
    {
        let t: u64 = ((self.state as u128 * RNG_MUL as u128) % RNG_MOD as u128) as u64;
        let s2: u64 = if t == 0 { 1 } else { t };
        self.state = s2;
        let r: u64 = s2 / 32768;
        proof {
            assert(r < 65536);
        }
        r as i128
    }

    /// Advance once and return a draw in [min, max): min plus the unit draw
    /// scaled across the width of the interval.
    pub fn next_range(&mut self, min: i128, max: i128) -> (r: i128)
        requires
            old(self).wf(),
            min < max,
            iabs(min as int) <= 0x100_0000_0000,
            iabs(max as int) <= 0x100_0000_0000,
        ensures
            final(self).wf(),
            final(self).state as int == rng_next(old(self).state as int),
            r as int == min + fmul(rng_unit(old(self).state as int), max - min),
            min <= r < max,
    {
        let u: i128 = self.next_unit();
        let d: i128 = max - min;
        let ghost ui = u as int;
        let ghost di = d as int;
        proof {
            assert(0 <= ui * di <= 65535 * di) by (nonlinear_arith)
                requires
                    0 <= ui <= 65535,
                    0 < di,
            ;
            lemma_tdiv_mag(ui * di, ONE as int);
            lemma_div_is_ordered(ui * di, 65535 * di, ONE as int);
            assert(65535 * di < 65536 * di) by (nonlinear_arith)
                requires
                    di > 0,
            ;
            lemma_multiply_divide_lt(65535 * di, 65536, di);
        }
        min + div_t(u * d, ONE)
    }
}

/// Two streams from equal seeds stay equal: after any number of steps the
/// states, and therefore the draws, coincide.  This is the sense in which a
/// render with an explicitly seeded stream assignment is reproducible.
pub proof fn lemma_stream_deterministic(s1: int, s2: int, n: nat)
    requires
        s1 == s2,
    ensures
        rng_iter(s1, n) == rng_iter(s2, n),
        rng_unit(rng_iter(s1, n)) == rng_unit(rng_iter(s2, n)),
{
}

/// Relies on rand::random::<u64>: a fresh, unpredictable seed.  Nothing can
/// be promised of a random value.
#[verifier::external_body]
pub fn entropy_seed() -> (r: u64) {
    rand::random::<u64>()
}

} // verus!
