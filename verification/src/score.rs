//! Exact rational scores.
//!
//! The scoring engines return exact rationals instead of floating-point
//! values: every result is pinned down precisely by its two integer parts. A
//! caller that wants a floating-point number divides the parts itself.

use vstd::prelude::*;

verus! {

/// An exact nonnegative rational score: `num / den`, with `den` positive.
#[derive(Clone, Copy, PartialEq, Eq, Structural, Debug)]
pub struct Ratio {
    pub num: u64,
    pub den: u64,
}

impl Ratio {
    pub open spec fn wf(&self) -> bool {
        self.den > 0
    }

    /// The exact zero score.
    pub fn zero() -> (r: Ratio)
        ensures
            r.num == 0,
            r.den == 1,
    {
        Ratio { num: 0, den: 1 }
    }
}

} // verus!
