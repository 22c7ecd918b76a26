//! Dice-roll simulation: repeated rolls of a configurable number of N-sided
//! dice, tabulated into per-face and per-sum frequency histograms, with
//! exact-arithmetic statistics and histogram-row rendering.

use vstd::prelude::*;

pub mod histogram;
pub mod labels;
mod rng;
pub mod sim;
pub mod stats;

verus! {

/// Sum of the elements of a sequence of counts, as a mathematical integer.
pub open spec fn sum_total(s: Seq<u64>) -> int
    decreases s.len(),
{
    if s.len() == 0 {
        0
    } else {
        sum_total(s.drop_last()) + s.last()
    }
}

} // verus!
