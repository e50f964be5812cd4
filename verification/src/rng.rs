//! The injected random source for tree generation: a small deterministic
//! xorshift stream behind an explicit state value, so that a fixed seed
//! reproduces a generation run exactly, plus an entropy seed taken from the
//! process-wide generator.

use vstd::prelude::*;

verus! {

/// One xorshift step of the stream's state.
pub open spec fn rng_step(s: u64) -> u64 {
    let a = s ^ (s << 13);
    let b = a ^ (a >> 7);
    b ^ (b << 17)
}

/// The fraction drawn from a state: a fixed-point value in `[0, 256)`,
/// standing for a uniform draw from `[0, 1)`.
pub open spec fn rng_unit_of(s: u64) -> u64 {
    (s >> 32) % 256
}

/// A seeded source of uniform fixed-point fractions.  The whole generation
/// stage draws from one such stream in a fixed traversal order, so a seed
/// determines the tree completely.
pub struct TreeRng {
    pub state: u64,
}

/// Relies on rand::random::<u64>: one value from the process-wide generator;
/// nothing is promised of it.
#[verifier::external_body]
fn random_seed() -> u64 {
    rand::random::<u64>()
}

impl TreeRng {
    /// A stream starting from the given seed.
    pub fn from_seed(seed: u64) -> (r: TreeRng)
        ensures
            r.state == seed,
    {
        TreeRng { state: seed }
    }

    /// A stream seeded from the process-wide generator.
    pub fn from_entropy() -> TreeRng {
        TreeRng { state: random_seed() }
    }

    /// The next uniform fraction, as a fixed-point value in `[0, 256)`.
    pub fn next_unit(&mut self) -> (r: u64)
        ensures
            final(self).state == rng_step(old(self).state),
            r == rng_unit_of(final(self).state),
            r < 256,
    {
        let s0 = self.state;
        let a = s0 ^ (s0 << 13u64);
        let b = a ^ (a >> 7u64);
        let s1 = b ^ (b << 17u64);
        self.state = s1;
        let r = (s1 >> 32u64) % 256;
        assert(r == rng_unit_of(s1) && r < 256) by (bit_vector)
            requires
                r == (s1 >> 32u64) % 256,
        ;
        r
    }
}

} // verus!
