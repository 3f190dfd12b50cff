//! Which two neighbours are closest, and what folding them into one bin does
//! to the list.

use vstd::prelude::*;
use crate::bin::Bin;
use crate::order::{
    lemma_total_concat, lemma_total_insert, lemma_total_one, lemma_total_pair, sorted, total,
};

verus! {

/// The pair of neighbours that starts at `a` is closer than the one that
/// starts at `b`: its gap is smaller, or the gaps are equal and it holds fewer
/// observations.
pub open spec fn closer(bins: Seq<Bin>, gaps: Seq<i64>, a: int, b: int) -> bool {
    gaps[a] < gaps[b] || (gaps[a] == gaps[b] && bins[a].count + bins[a + 1].count < bins[b].count
        + bins[b + 1].count)
}

/// The start of the closest pair among the first `n` pairs of neighbours.
pub open spec fn closest_among(bins: Seq<Bin>, gaps: Seq<i64>, n: nat) -> int
    decreases n,
{
    if n <= 1 {
        0
    } else {
        let best = closest_among(bins, gaps, (n - 1) as nat);
        if closer(bins, gaps, n - 1, best) {
            n - 1
        } else {
            best
        }
    }
}

/// The start of the closest pair of neighbours, where `gaps[i]` is the key of
/// the distance between the values of bins `i` and `i + 1`.
pub open spec fn closest(bins: Seq<Bin>, gaps: Seq<i64>) -> int {
    closest_among(bins, gaps, gaps.len())
}

/// No pair among the first `n` is closer than the one at `left`, and every
/// pair before `left` is farther.
pub open spec fn is_closest_among(bins: Seq<Bin>, gaps: Seq<i64>, n: nat, left: int) -> bool {
    &&& 0 <= left < n
    &&& forall|j: int| 0 <= j < left ==> closer(bins, gaps, left, j)
    &&& forall|j: int| left < j < n ==> !closer(bins, gaps, j, left)
}

/// The bin that takes the place of the neighbours at `left` and `left + 1`.
pub open spec fn merged_bin(bins: Seq<Bin>, left: int, mean: i64) -> Bin {
    Bin { value: mean, count: (bins[left].count + bins[left + 1].count) as u64 }
}

/// The bins after the neighbours at `left` and `left + 1` were folded into
/// one bin at `mean`.
pub open spec fn merged_at(bins: Seq<Bin>, left: int, mean: i64) -> Seq<Bin> {
    bins.update(left, merged_bin(bins, left, mean)).remove(left + 1)
}

/// The bin `merged` sorts between the neighbours of the pair at `left`.
pub open spec fn fits(bins: Seq<Bin>, left: int, merged: Bin) -> bool {
    &&& left == 0 || bins[left - 1].le(merged)
    &&& left + 2 == bins.len() || merged.le(bins[left + 2])
}

/// The closest pair is the first among those with the smallest gap and,
/// there, the smallest combined count.
pub proof fn lemma_closest_among(bins: Seq<Bin>, gaps: Seq<i64>, n: nat)
    requires
        1 <= n <= gaps.len(),
    ensures
        is_closest_among(bins, gaps, n, closest_among(bins, gaps, n)),
    decreases n,
{
    if n > 1 {
        lemma_closest_among(bins, gaps, (n - 1) as nat);
        let best = closest_among(bins, gaps, (n - 1) as nat);
        let last = n - 1;
        if closer(bins, gaps, last, best) {
            assert forall|j: int| 0 <= j < last implies closer(bins, gaps, last, j) by {
                if j < best {
                    assert(closer(bins, gaps, best, j));
                } else if j > best {
                    assert(!closer(bins, gaps, j, best));
                }
            }
        } else {
            assert forall|j: int| best < j < n implies !closer(bins, gaps, j, best) by {
                if j < last {
                    assert(!closer(bins, gaps, j, best));
                }
            }
        }
    }
}

/// Folding two neighbours into one leaves the total count as it was.
pub proof fn lemma_total_merged(bins: Seq<Bin>, left: int, mean: i64)
    requires
        0 <= left,
        left + 1 < bins.len(),
        bins[left].count + bins[left + 1].count <= u64::MAX,
    ensures
        total(merged_at(bins, left, mean)) == total(bins),
{
    let merged = merged_bin(bins, left, mean);
    let front = bins.take(left);
    let back = bins.skip(left + 2);
    assert(bins =~= (front + seq![bins[left]]) + (seq![bins[left + 1]] + back));
    assert(merged_at(bins, left, mean) =~= (front + seq![merged]) + back);
    lemma_total_concat(front + seq![bins[left]], seq![bins[left + 1]] + back);
    lemma_total_concat(front, seq![bins[left]]);
    lemma_total_concat(seq![bins[left + 1]], back);
    lemma_total_concat(front + seq![merged], back);
    lemma_total_concat(front, seq![merged]);
    lemma_total_one(bins[left]);
    lemma_total_one(bins[left + 1]);
    lemma_total_one(merged);
}

/// Folding two neighbours of an ascending list into a bin that sorts between
/// their own neighbours leaves the list ascending.
pub proof fn lemma_sorted_merged(bins: Seq<Bin>, left: int, mean: i64)
    requires
        0 <= left,
        left + 1 < bins.len(),
        sorted(bins),
        fits(bins, left, merged_bin(bins, left, mean)),
    ensures
        sorted(merged_at(bins, left, mean)),
{
    let merged = merged_bin(bins, left, mean);
    let after = merged_at(bins, left, mean);
    assert forall|i: int, j: int| 0 <= i < j < after.len() implies (#[trigger] after[i]).le(
        #[trigger] after[j],
    ) by {
        if j < left {
            assert(after[i] == bins[i] && after[j] == bins[j]);
        } else if j == left {
            assert(after[i] == bins[i]);
            assert(bins[i].le(bins[left - 1]) || i == left - 1);
        } else if i < left {
            assert(after[i] == bins[i] && after[j] == bins[j + 1]);
        } else if i == left {
            assert(after[j] == bins[j + 1]);
            assert(bins[left + 2].le(bins[j + 1]) || j + 1 == left + 2);
        } else {
            assert(after[i] == bins[i + 1] && after[j] == bins[j + 1]);
        }
    }
}

/// A bin that enters a list and is followed by a fold leaves the list as
/// long as it was, and the total larger by the bin's count: an insertion into
/// a full histogram, once `shrink` has finished it, never outgrows the size.
pub proof fn lemma_insert_then_fold(bins: Seq<Bin>, pos: int, bin: Bin, left: int, mean: i64)
    requires
        0 <= pos <= bins.len(),
        0 <= left < bins.len(),
        total(bins) + bin.count <= u64::MAX,
    ensures
        merged_at(bins.insert(pos, bin), left, mean).len() == bins.len(),
        total(merged_at(bins.insert(pos, bin), left, mean)) == total(bins) + bin.count,
{
    let placed = bins.insert(pos, bin);
    lemma_total_insert(bins, pos, bin);
    lemma_total_pair(placed, left);
    lemma_total_merged(placed, left, mean);
}

} // verus!
