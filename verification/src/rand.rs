//! Randomness: one trusted wrapper around the process-global pseudo-random
//! generator, and verified samplers that turn its raw output into the
//! bounded quantities the engine needs.

use vstd::prelude::*;

use crate::fixed::TWO_PI_MR;

verus! {

/// Relies on `quad_rand::rand`: a pseudo-random 32-bit value from the
/// process-global generator (the same generator macroquad re-exports as its
/// `rand` module).  Nothing is promised about the value.
#[verifier::external_body]
pub(crate) fn random_u32() -> u32 {
    quad_rand::rand()
}

/// Maps a raw sample into `[lo, hi]` by remainder.
pub open spec fn spec_sample_range(sample: u32, lo: int, hi: int) -> int {
    lo + (sample as int) % (hi - lo + 1)
}

/// Computes the bounded sample.
pub fn sample_range(sample: u32, lo: i64, hi: i64) -> (r: i64)
    requires
        -1_000_000_000_000 <= lo <= hi <= 1_000_000_000_000,
    ensures
        r == spec_sample_range(sample, lo as int, hi as int),
        lo <= r <= hi,
{
    let span = ((hi - lo) as u64) + 1;
    let m = (sample as u64) % span;
    proof {
        vstd::arithmetic::div_mod::lemma_mod_bound(sample as int, span as int);
    }
    lo + (m as i64)
}

/// A spread angle drawn from `[-spread, spread]` milli-radians.
pub fn sample_spread(sample: u32, spread: i64) -> (r: i64)
    requires
        0 <= spread <= 1_000_000,
    ensures
        r == spec_sample_range(sample, -spread as int, spread as int),
        -spread <= r <= spread,
{
    sample_range(sample, -spread, spread)
}

/// A damage value drawn from a damage range (milli-points).
pub fn sample_damage(sample: u32, lo: i64, hi: i64) -> (r: i64)
    requires
        0 <= lo <= hi <= 1_000_000_000,
    ensures
        r == spec_sample_range(sample, lo as int, hi as int),
        lo <= r <= hi,
{
    sample_range(sample, lo, hi)
}

/// An angle drawn from one full turn of milli-radians.
pub fn sample_angle(sample: u32) -> (r: i64)
    ensures
        r == spec_sample_range(sample, 0, TWO_PI_MR - 1),
        0 <= r < TWO_PI_MR,
{
    sample_range(sample, 0, TWO_PI_MR - 1)
}

} // verus!
