use vstd::prelude::*;

verus! {

/// An exact nonnegative rational value, kept as a numerator over a
/// denominator. All analysis quantities (normalized positions, motion
/// magnitude, brightness, confidence) are rationals with small, known
/// denominators, so they are represented exactly instead of approximately.
#[derive(Clone, Copy, Debug, PartialEq, Eq, Structural)]
pub struct Ratio {
    pub num: u128,
    pub den: u128,
}

impl Ratio {
    /// A ratio is meaningful only with a nonzero denominator.
    pub open spec fn valid(self) -> bool {
        self.den > 0
    }

    /// The rational zero, written 0/1.
    pub fn zero() -> (r: Ratio)
        ensures
            r.num == 0,
            r.den == 1,
    {
        Ratio { num: 0, den: 1 }
    }
}

} // verus!
