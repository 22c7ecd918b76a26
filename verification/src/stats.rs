//! Statistics over a sum histogram, kept in exact integer arithmetic.
//!
//! The theoretical mean of one fair die with `sides` sides is
//! `(sides + 1) / 2`, so the expected sum of `dice` dice is
//! `dice * (sides + 1) / 2`: a rational with fixed denominator two. The
//! empirical mean of a histogram is its weighted total divided by the
//! number of rolls. Both are exposed here as their exact integer
//! numerators; the final division is the caller's presentation step.

use vstd::prelude::*;
use crate::sum_total;

verus! {

/// Twice the theoretical expected sum of `dice` fair dice with `sides`
/// sides: the exact numerator of `dice * (sides + 1) / 2` over the
/// fixed denominator two.
pub open spec fn expected_sum_numerator(dice: int, sides: int) -> int {
    dice * (sides + 1)
}

/// Twice the theoretical expected sum of `dice` fair dice with `sides`
/// sides. Dividing by two gives the expected sum itself.
pub fn expected_sum_times_two(dice: u32, sides: u32) -> (r: u64)
    ensures
        r == expected_sum_numerator(dice as int, sides as int),
{
    assert(dice as int * (sides as int + 1) <= u32::MAX as int * (u32::MAX as int + 1))
        by (nonlinear_arith)
        requires 0 <= dice <= u32::MAX, 0 <= sides <= u32::MAX;
    (dice as u64) * (sides as u64 + 1)
}

/// The expected sum is linear in the number of dice: doubling the dice
/// doubles the numerator, hence the mean of the sum.
pub proof fn lemma_expected_sum_linear(k: int, sides: int)
    ensures
        expected_sum_numerator(2 * k, sides) == 2 * expected_sum_numerator(k, sides),
{
    assert((2 * k) * (sides + 1) == 2 * (k * (sides + 1))) by (nonlinear_arith);
}

/// The weighted total of a sum histogram:
/// the sum over every index `i` of `(min_sum + i) * counts[i]`.
/// Divided by the number of rolls it is the empirical mean sum.
pub open spec fn weighted_total(counts: Seq<u64>, min_sum: int) -> int
    decreases counts.len(),
{
    if counts.len() == 0 {
        0
    } else {
        weighted_total(counts.drop_last(), min_sum) + (min_sum + counts.len() - 1)
            * counts.last() as int
    }
}

proof fn lemma_sum_total_nonneg(counts: Seq<u64>)
    ensures
        sum_total(counts) >= 0,
    decreases counts.len(),
{
    if counts.len() > 0 {
        lemma_sum_total_nonneg(counts.drop_last());
    }
}

proof fn lemma_sum_total_take_le(counts: Seq<u64>, i: int)
    requires
        0 <= i <= counts.len(),
    ensures
        sum_total(counts.take(i)) <= sum_total(counts),
    decreases counts.len(),
{
    if i == counts.len() {
        assert(counts.take(i) =~= counts);
    } else {
        assert(counts.take(i) =~= counts.drop_last().take(i));
        lemma_sum_total_take_le(counts.drop_last(), i);
    }
}

proof fn lemma_weighted_total_bound(counts: Seq<u64>, min_sum: int, hi: int)
    requires
        0 <= min_sum,
        min_sum + counts.len() - 1 <= hi,
    ensures
        0 <= weighted_total(counts, min_sum) <= hi * sum_total(counts),
    decreases counts.len(),
{
    if counts.len() == 0 {
    } else {
        lemma_weighted_total_bound(counts.drop_last(), min_sum, hi);
        assert((min_sum + counts.len() - 1) * counts.last() as int <= hi * counts.last() as int)
            by (nonlinear_arith)
            requires 0 <= min_sum + counts.len() - 1 <= hi, counts.last() as int >= 0;
        assert(0 <= (min_sum + counts.len() - 1) * counts.last() as int) by (nonlinear_arith)
            requires 0 <= min_sum + counts.len() - 1, counts.last() as int >= 0;
        assert(hi * sum_total(counts.drop_last()) + hi * counts.last() as int == hi * (
        sum_total(counts.drop_last()) + counts.last() as int)) by (nonlinear_arith);
    }
}

/// The weighted total of a sum histogram, computed exactly. The bound
/// on `sum_total` is the histogram's own invariant (the buckets add up
/// to the number of rolls, a `u64`); the bound on `min_sum` plus the
/// length says that every sum value the histogram covers fits a `u32`,
/// as every achievable sum does.
pub fn weighted_sum_total(sum_counts: &Vec<u64>, min_sum: u32) -> (t: u128)
    requires
        min_sum as int + sum_counts@.len() <= u32::MAX as int + 1,
        sum_total(sum_counts@) <= u64::MAX,
    ensures
        t == weighted_total(sum_counts@, min_sum as int),
{
    let n = sum_counts.len();
    let mut acc: u128 = 0;
    let mut i: usize = 0;
    proof {
        assert(sum_counts@.take(0) =~= Seq::<u64>::empty());
    }
    while i < n
        invariant
            i <= n,
            n == sum_counts@.len(),
            min_sum as int + n <= u32::MAX as int + 1,
            sum_total(sum_counts@) <= u64::MAX,
            acc == weighted_total(sum_counts@.take(i as int), min_sum as int),
        decreases n - i,
    {
        let c = sum_counts[i];
        let v: u32 = min_sum + (i as u32);
        proof {
            let next = sum_counts@.take(i as int + 1);
            assert(next.drop_last() =~= sum_counts@.take(i as int));
            assert(next.last() == sum_counts@[i as int]);
            lemma_weighted_total_bound(next, min_sum as int, u32::MAX as int);
            lemma_sum_total_take_le(sum_counts@, i as int + 1);
            lemma_sum_total_nonneg(next);
            assert(u32::MAX as int * sum_total(next) <= u32::MAX as int * u64::MAX as int)
                by (nonlinear_arith)
                requires 0 <= sum_total(next) <= u64::MAX as int;
            assert(v as int * c as int <= u32::MAX as int * u64::MAX as int) by (nonlinear_arith)
                requires 0 <= v as int <= u32::MAX as int, 0 <= c as int <= u64::MAX as int;
        }
        acc = acc + (v as u128) * (c as u128);
        i = i + 1;
    }
    proof {
        assert(sum_counts@.take(n as int) =~= sum_counts@);
    }
    acc
}

proof fn lemma_weighted_total_all_zero(counts: Seq<u64>, min_sum: int)
    requires
        forall|i: int| 0 <= i < counts.len() ==> #[trigger] counts[i] == 0,
    ensures
        weighted_total(counts, min_sum) == 0,
    decreases counts.len(),
{
    if counts.len() > 0 {
        lemma_weighted_total_all_zero(counts.drop_last(), min_sum);
    }
}

/// A histogram with all its mass in one bucket `j` has weighted total
/// exactly `(min_sum + j) * mass`: dividing by `mass` rolls, the
/// empirical mean sum is exactly the value that bucket stands for.
pub proof fn lemma_point_mass_total(counts: Seq<u64>, min_sum: int, j: int, mass: u64)
    requires
        0 <= j < counts.len(),
        counts[j] == mass,
        forall|i: int| 0 <= i < counts.len() && i != j ==> #[trigger] counts[i] == 0,
    ensures
        weighted_total(counts, min_sum) == (min_sum + j) * mass as int,
    decreases counts.len(),
{
    if j == counts.len() - 1 {
        lemma_weighted_total_all_zero(counts.drop_last(), min_sum);
    } else {
        lemma_point_mass_total(counts.drop_last(), min_sum, j, mass);
    }
}

} // verus!
