//! A linear-congruential pseudo-random-number generator.
//!
//! Kept deliberately separate from the wait orchestrator: the generator is
//! pure state-transition arithmetic, so the whole step is specified
//! exactly.  The seed cell itself lives with the embedding runtime; the
//! library works on seed values handed in and out.

use vstd::prelude::*;

verus! {

/// The next 48-bit seed of the linear congruential generator.
pub open spec fn lcg_next(seed: u64) -> u64 {
    (((seed * 25214903917) + 11) % 0x1_0000_0000_0000) as u64
}

/// Advances the linear congruential generator: returns the new seed and
/// the 32-bit pseudo-random value drawn from it (its low 32 bits).
pub fn random_lcg(seed: u64) -> (r: (u64, u32))
    ensures
        r.0 == lcg_next(seed),
        r.0 < 0x1_0000_0000_0000,
        r.1 == lcg_next(seed) as u32,
{
    let wide: u128 = (seed as u128) * 25214903917 + 11;
    let next: u64 = (wide % 0x1_0000_0000_0000) as u64;
    (next, next as u32)
}

} // verus!
