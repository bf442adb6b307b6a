//! The pseudo-random sequence behind weather and geological events.
use vstd::prelude::*;

verus! {

/// The seed after `seed` in the linear congruential sequence.
pub open spec fn spec_next_seed(seed: u64) -> u64 {
    ((seed as int * 1103515245 + 12345) % 0x1_0000_0000_0000_0000) as u64
}

/// Advance the seed of the linear congruential generator
pub fn next_seed(seed: u64) -> (r: u64)
    ensures
        r == spec_next_seed(seed),
        r as int == (seed as int * 1103515245 + 12345) % 0x1_0000_0000_0000_0000,
{
    let m = seed.wrapping_mul(1103515245);
    let r = m.wrapping_add(12345);
    proof {
        vstd::arithmetic::div_mod::lemma_mod_adds((seed as int * 1103515245), 12345, 0x1_0000_0000_0000_0000);
    }
    r
}

} // verus!
