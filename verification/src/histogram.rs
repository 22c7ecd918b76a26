//! Histogram rendering: one row per count, carrying the label, the raw
//! count, the count's share of a caller-supplied total in hundredths of
//! a percent, and a bar width proportional to the largest count.
//!
//! All row arithmetic is exact: shares and bar widths are rationals
//! rounded half up, stated as integer formulas.

use vstd::prelude::*;
use crate::labels::{dec_chars, decimal_string};

verus! {

/// Maximum bar width, in block glyphs: the bar of the largest count.
pub const BAR_MAX: u64 = 50;

/// How rows are labelled: by caller-supplied names, one per count, or
/// by each row's own index.
pub enum Labeling {
    Names(Vec<String>),
    Indexed,
}

/// One rendered histogram row.
pub struct HistRow {
    /// The supplied name, or the decimal string of the row's index.
    pub label: String,
    /// The raw count.
    pub count: u64,
    /// The count's share of the caller-supplied total, in hundredths of
    /// a percent, rounded half up; `None` when the total is zero and
    /// the share is undefined.
    pub pct_hundredths: Option<u128>,
    /// The bar width: `BAR_MAX` scaled by the count's share of the
    /// largest count, rounded half up.
    pub bar_len: u64,
}

/// The largest entry of `s`, or zero if `s` is empty.
pub open spec fn max_count(s: Seq<u64>) -> int
    decreases s.len(),
{
    if s.len() == 0 {
        0
    } else if s.last() as int >= max_count(s.drop_last()) {
        s.last() as int
    } else {
        max_count(s.drop_last())
    }
}

/// `a / b` as a rational, rounded half up, for `b > 0`.
pub open spec fn div_round_half_up(a: int, b: int) -> int {
    (2 * a + b) / (2 * b)
}

/// The bar width for count `c` when the largest count is `m`:
/// `c / m * BAR_MAX` rounded half up, and zero when every count is
/// zero (`m == 0`), so that a degenerate histogram still renders.
pub open spec fn bar_width(c: int, m: int) -> int {
    if m <= 0 {
        0
    } else {
        div_round_half_up(c * BAR_MAX as int, m)
    }
}

/// The share of `c` in `total`, in hundredths of a percent:
/// `c / total * 100` to two decimals, rounded half up.
pub open spec fn pct_hundredths_of(c: int, total: int) -> int {
    div_round_half_up(c * 10000, total)
}

proof fn lemma_max_count_ge(s: Seq<u64>, i: int)
    requires
        0 <= i < s.len(),
    ensures
        s[i] as int <= max_count(s),
    decreases s.len(),
{
    if i < s.len() - 1 {
        lemma_max_count_ge(s.drop_last(), i);
    }
}

/// The largest count of a sequence.
fn max_of(counts: &Vec<u64>) -> (m: u64)
    ensures
        m == max_count(counts@),
        forall|i: int| 0 <= i < counts@.len() ==> counts@[i] as int <= m as int,
{
    let n = counts.len();
    let mut m: u64 = 0;
    let mut i: usize = 0;
    proof {
        assert(counts@.take(0) =~= Seq::<u64>::empty());
    }
    while i < n
        invariant
            i <= n,
            n == counts@.len(),
            m == max_count(counts@.take(i as int)),
        decreases n - i,
    {
        proof {
            let next = counts@.take(i as int + 1);
            assert(next.drop_last() =~= counts@.take(i as int));
            assert(next.last() == counts@[i as int]);
        }
        let c = counts[i];
        if c > m {
            m = c;
        }
        i = i + 1;
    }
    proof {
        assert(counts@.take(n as int) =~= counts@);
        assert forall|j: int| 0 <= j < counts@.len() implies counts@[j] as int <= m as int by {
            lemma_max_count_ge(counts@, j);
        }
    }
    m
}

/// The bar width for count `c` when the largest count is `m`.
fn bar_len(c: u64, m: u64) -> (r: u64)
    requires
        c <= m,
    ensures
        r == bar_width(c as int, m as int),
        r <= BAR_MAX,
{
    if m == 0 {
        0
    } else {
        let wide: u128 = (2 * (c as u128) * (BAR_MAX as u128) + (m as u128)) / (2 * (m as u128));
        assert(wide as int == div_round_half_up(c as int * BAR_MAX as int, m as int));
        assert(wide <= BAR_MAX) by (nonlinear_arith)
            requires
                wide as int == (2 * (c as int) * 50 + m as int) / (2 * (m as int)),
                0 <= c as int <= m as int,
                m as int >= 1;
        wide as u64
    }
}

/// The share of `c` in `total`, in hundredths of a percent.
fn pct_value(c: u64, total: u64) -> (r: u128)
    requires
        total >= 1,
    ensures
        r == pct_hundredths_of(c as int, total as int),
{
    (2 * (c as u128) * 10000 + (total as u128)) / (2 * (total as u128))
}

/// Render a histogram: one row per count, in order. Each row carries
/// the count, its share of `total` in hundredths of a percent (`None`
/// when `total` is zero), a bar width scaling the largest count to
/// `BAR_MAX`, and its label: the caller's name for that index, or the
/// decimal string of the index itself.
pub fn render_histogram(counts: &Vec<u64>, labeling: &Labeling, total: u64) -> (rows: Vec<HistRow>)
    requires
        labeling matches Labeling::Names(names) ==> names@.len() == counts@.len(),
    ensures
        rows@.len() == counts@.len(),
        forall|i: int|
            0 <= i < rows@.len() ==> {
                let row = #[trigger] rows@[i];
                &&& row.count == counts@[i]
                &&& row.bar_len == bar_width(counts@[i] as int, max_count(counts@))
                &&& (total == 0 ==> row.pct_hundredths is None)
                &&& (total > 0 ==> row.pct_hundredths == Some(
                    pct_hundredths_of(counts@[i] as int, total as int) as u128,
                ))
                &&& (labeling matches Labeling::Names(names) ==> row.label@ == names@[i]@)
                &&& (labeling is Indexed ==> row.label@ == dec_chars(i as nat))
            },
{
    let n = counts.len();
    let m = max_of(counts);
    let mut rows: Vec<HistRow> = Vec::new();
    let mut i: usize = 0;
    while i < n
        invariant
            i <= n,
            n == counts@.len(),
            m == max_count(counts@),
            forall|j: int| 0 <= j < counts@.len() ==> counts@[j] as int <= m as int,
            labeling matches Labeling::Names(names) ==> names@.len() == counts@.len(),
            rows@.len() == i,
            forall|j: int|
                0 <= j < i ==> {
                    let row = #[trigger] rows@[j];
                    &&& row.count == counts@[j]
                    &&& row.bar_len == bar_width(counts@[j] as int, max_count(counts@))
                    &&& (total == 0 ==> row.pct_hundredths is None)
                    &&& (total > 0 ==> row.pct_hundredths == Some(
                        pct_hundredths_of(counts@[j] as int, total as int) as u128,
                    ))
                    &&& (labeling matches Labeling::Names(names) ==> row.label@ == names@[j]@)
                    &&& (labeling is Indexed ==> row.label@ == dec_chars(j as nat))
                },
        decreases n - i,
    {
        let c = counts[i];
        let label: String = match labeling {
            Labeling::Names(names) => names[i].clone(),
            Labeling::Indexed => decimal_string(i as u64),
        };
        let pct_hundredths: Option<u128> = if total == 0 {
            None
        } else {
            Some(pct_value(c, total))
        };
        let bar = bar_len(c, m);
        rows.push(HistRow { label, count: c, pct_hundredths, bar_len: bar });
        i = i + 1;
    }
    rows
}

} // verus!
