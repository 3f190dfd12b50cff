//! What the queries ask and answer: the rank of a quantile, the bins that a
//! query falls between, and the cumulative counts that decide it.

use vstd::prelude::*;
use crate::bin::Bin;
use crate::histogram::HistogramView;
use crate::order::{
    insertion_point, lemma_splits_monotone, lemma_total_take_monotone, splits, total,
};

verus! {

/// The place in the distribution that a quantile is asked for.
#[derive(Debug, Copy, Clone, PartialEq, Eq)]
pub enum Rank {
    /// The fraction 0: the least value.
    Lowest,
    /// The fraction 1: the greatest value.
    Highest,
    /// A fraction strictly between 0 and 1, given as twice the product of the
    /// total count and the fraction, rounded up to a whole number.
    Target(u128),
}

/// What a histogram knows of a quantile.
#[derive(Debug, Copy, Clone, PartialEq, Eq)]
pub enum Quantile {
    /// The quantile is this value exactly.
    Exact(i64),
    /// The quantile lies between the values of `left` and `right`;
    /// `doubled_passed` is twice the cumulative count that lies before `left`.
    Between { left: Bin, right: Bin, doubled_passed: u128 },
}

/// What a histogram knows of the number of values up to a given one.
#[derive(Debug, Copy, Clone, PartialEq, Eq)]
pub enum Count {
    /// The number is this one exactly.
    Exact(u64),
    /// The given value lies between the values of `left` and `right`, and
    /// `below` observations lie in the bins before `left`.
    Between { below: u64, left: Bin, right: Bin },
}

/// Twice the cumulative count up to the middle of bin `k`: every bin before
/// it counted twice, the bin itself once.
pub open spec fn doubled_cumulative(bins: Seq<Bin>, k: int) -> nat {
    2 * total(bins.take(k)) + bins[k].count as nat
}

/// The first index from `k` on at which the doubled cumulative count is not
/// below `target`, or the number of bins if there is none.
pub open spec fn leading_below(bins: Seq<Bin>, target: int, k: int) -> int
    decreases bins.len() - k,
{
    if 0 <= k < bins.len() && doubled_cumulative(bins, k) < target {
        leading_below(bins, target, k + 1)
    } else {
        k
    }
}

/// The number of leading bins whose doubled cumulative count is below
/// `target`.
pub open spec fn cumulative_index(bins: Seq<Bin>, target: int) -> int {
    leading_below(bins, target, 0)
}

/// Twice the cumulative count that lies before index `i`.
pub open spec fn doubled_passed(bins: Seq<Bin>, i: int) -> nat {
    if i <= 0 {
        0
    } else {
        doubled_cumulative(bins, i - 1)
    }
}

/// The two bins on either side of index `i`. Before the first bin stands a
/// weightless bin at the tracked minimum, after the last one a weightless
/// bin at the tracked maximum.
pub open spec fn bordering(h: HistogramView, i: int) -> (Bin, Bin) {
    if i == 0 {
        (Bin { value: h.min->0, count: 0 }, h.bins[0])
    } else if i == h.bins.len() {
        (h.bins[i - 1], Bin { value: h.max->0, count: 0 })
    } else {
        (h.bins[i - 1], h.bins[i])
    }
}

/// What `quantile` answers.
pub open spec fn spec_quantile(h: HistogramView, rank: Rank) -> Option<Quantile> {
    match rank {
        Rank::Lowest => match h.min {
            Some(least) => Some(Quantile::Exact(least)),
            None => None,
        },
        Rank::Highest => match h.max {
            Some(greatest) => Some(Quantile::Exact(greatest)),
            None => None,
        },
        Rank::Target(target) => if total(h.bins) == 0 {
            None
        } else {
            let i = cumulative_index(h.bins, target as int);
            let pair = bordering(h, i);
            Some(
                Quantile::Between {
                    left: pair.0,
                    right: pair.1,
                    doubled_passed: doubled_passed(h.bins, i) as u128,
                },
            )
        },
    }
}

/// The two bins on either side of index `pos`, with the number of
/// observations in the bins before the left one.
pub open spec fn around(h: HistogramView, pos: int) -> Count {
    let left = if pos >= 1 { pos - 1 } else { 0 };
    let pair = bordering(h, pos);
    Count::Between { below: total(h.bins.take(left)) as u64, left: pair.0, right: pair.1 }
}

/// What `count_less_than_or_equal_to` answers.
pub open spec fn spec_count_less_than_or_equal_to(h: HistogramView, value: i64) -> Count {
    if total(h.bins) == 0 || (h.min is Some && value < h.min->0) {
        Count::Exact(0)
    } else if h.max is Some && value >= h.max->0 {
        Count::Exact(total(h.bins) as u64)
    } else {
        around(h, insertion_point(h.bins, Bin { value, count: 0 }))
    }
}

/// Where the total count fits in 64 bits, the place that parts the list
/// around a weightless bin never moves left as the bin's value grows, and the
/// number of observations before the left neighbour never falls.
pub proof fn lemma_around_monotone(h: HistogramView, low: i64, high: i64, p: int, q: int)
    requires
        total(h.bins) <= u64::MAX,
        low <= high,
        splits(h.bins, Bin { value: low, count: 0 }, p),
        splits(h.bins, Bin { value: high, count: 0 }, q),
    ensures
        p <= q,
        around(h, p)->below <= around(h, q)->below,
{
    lemma_splits_monotone(
        h.bins,
        Bin { value: low, count: 0 },
        Bin { value: high, count: 0 },
        p,
        q,
    );
    let left_p = if p >= 1 { p - 1 } else { 0 };
    let left_q = if q >= 1 { q - 1 } else { 0 };
    lemma_total_take_monotone(h.bins, left_p, left_q);
    lemma_total_take_monotone(h.bins, left_q, h.bins.len() as int);
    assert(h.bins.take(h.bins.len() as int) =~= h.bins);
}

} // verus!
