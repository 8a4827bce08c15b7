//! Edge probabilities, stored without floating point.

use vstd::prelude::*;

verus! {

/// The number of equal units the unit interval is divided into. One unit is
/// `2^-53` wide, the granularity of a uniform draw of 53 random bits.
pub const PROB_ONE: u64 = 1u64 << 53;

/// An edge probability, stored as a count of `2^-53`-wide units of the unit
/// interval. A Bernoulli trial succeeds exactly when a uniform 53-bit draw
/// falls strictly below `units`, so `0` means never and any count of
/// `PROB_ONE` or more means always.
#[derive(Clone, Copy, Debug, PartialEq, Eq, Structural)]
pub struct Probability {
    pub units: u64,
}

impl Probability {
    /// A probability of `units` units out of `PROB_ONE`.
    pub fn from_units(units: u64) -> (r: Probability)
        ensures
            r.units == units,
    {
        Probability { units }
    }

    /// The probability under which no trial succeeds.
    pub fn never() -> (r: Probability)
        ensures
            r.units == 0,
    {
        Probability { units: 0 }
    }

    /// The probability under which every trial succeeds.
    pub fn always() -> (r: Probability)
        ensures
            r.units == PROB_ONE,
    {
        Probability { units: PROB_ONE }
    }
}

} // verus!
