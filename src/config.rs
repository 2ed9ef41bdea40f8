//! The settings a store is made with. Durations are in milliseconds.

use vstd::prelude::*;

verus! {

/// A fraction `numerator / denominator`, meant to lie in `[0, 1]`.
#[derive(Clone, Copy, Debug, PartialEq, Eq, Structural)]
pub struct Ratio {
    pub numerator: u64,
    pub denominator: u64,
}

/// Whether `removed / drawn` is above `r`. A round that drew nothing is never
/// above it, and neither is anything when the denominator is zero.
pub open spec fn exceeds(removed: int, drawn: int, r: Ratio) -> bool {
    drawn > 0 && removed * r.denominator > r.numerator * drawn
}

proof fn lemma_product_fits(a: int, b: int)
    requires
        0 <= a <= u64::MAX,
        0 <= b <= u64::MAX,
    ensures
        0 <= a * b <= u128::MAX,
{
    assert(0 <= a * b <= u64::MAX * u64::MAX) by (nonlinear_arith)
        requires
            0 <= a <= u64::MAX,
            0 <= b <= u64::MAX,
    ;
}

impl Ratio {
    pub fn new(numerator: u64, denominator: u64) -> (r: Ratio)
        ensures
            r.numerator == numerator,
            r.denominator == denominator,
    {
        Ratio { numerator, denominator }
    }

    /// Whether a sweep round that removed `removed` of the `drawn` keys it
    /// looked at found more expired keys than this fraction of them.
    pub fn exceeded_by(&self, removed: usize, drawn: usize) -> (r: bool)
        ensures
            r == exceeds(removed as int, drawn as int, *self),
    {
        if drawn == 0 {
            return false;
        }
        proof {
            lemma_product_fits(removed as int, self.denominator as int);
            lemma_product_fits(self.numerator as int, drawn as int);
        }
        let lhs: u128 = removed as u128 * self.denominator as u128;
        let rhs: u128 = self.numerator as u128 * drawn as u128;
        lhs > rhs
    }
}

/// The settings of a store and of the service around it.
#[derive(Clone, Copy, Debug, PartialEq, Eq, Structural)]
pub struct Config {
    /// How long an entry lives, in milliseconds.
    pub ttl: u64,
    /// The most keys the store holds at once, if bounded.
    pub capacity: Option<usize>,
    /// How many keys one sweep round looks at.
    pub eviction_number: usize,
    /// A sweep goes on to another round while the share of expired keys in
    /// the last round is above this.
    pub eviction_ratio: Ratio,
    /// How long the service waits between sweeps, in milliseconds.
    pub eviction_every: u64,
}

} // verus!
