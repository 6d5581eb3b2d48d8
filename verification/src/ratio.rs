//! Exact ratios of two counts, used where the original reasons with
//! fractions: similarity thresholds and the ratios of a score report.

use vstd::prelude::*;

verus! {

/// A ratio held exactly as `num / den`; a zero denominator stands for zero.
#[derive(Clone, Copy, Debug, PartialEq, Eq, Structural)]
pub struct Ratio {
    pub num: u64,
    pub den: u64,
}

} // verus!
