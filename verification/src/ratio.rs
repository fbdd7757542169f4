//! Exact fractions: the scalar values that the statistic engine produces.

use vstd::prelude::*;

verus! {

/// An exact fraction `num / den`. Statistics return one of these instead of a
/// rounded scalar, so every contract can pin the value completely.
#[derive(Clone, Copy, Debug, PartialEq, Eq, Structural)]
pub struct Ratio {
    pub num: i128,
    pub den: u128,
}

impl Ratio {
    /// The whole number `n` as a fraction.
    pub fn from_int(n: i128) -> (r: Ratio)
        ensures
            r.num == n,
            r.den == 1,
    {
        Ratio { num: n, den: 1 }
    }
}

} // verus!
