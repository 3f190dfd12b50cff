//! Sequences of bins: their order, their total count, and the place at which
//! a new bin enters.

use vstd::prelude::*;
use superslice::Ext;
use crate::bin::Bin;

verus! {

/// The bins ascend in their total order (value first, count second).
pub open spec fn sorted(bins: Seq<Bin>) -> bool {
    forall|i: int, j: int| 0 <= i < j < bins.len() ==> (#[trigger] bins[i]).le(#[trigger] bins[j])
}

/// The number of observations that the bins hold together.
pub open spec fn total(bins: Seq<Bin>) -> nat
    decreases bins.len(),
{
    if bins.len() == 0 {
        0
    } else {
        total(bins.drop_last()) + bins.last().count as nat
    }
}

/// The bins as the pairs of integers by which they are ordered.
pub open spec fn pairs(bins: Seq<Bin>) -> Seq<(i64, u64)> {
    bins.map_values(|bin: Bin| (bin.value, bin.count))
}

/// The index that the upper-bound search of `superslice` returns for `probe`
/// in `items`. On a sequence that does not ascend the index depends on the
/// path of the search, which is why it has a name and no definition.
pub uninterp spec fn upper_bound_of(items: Seq<(i64, u64)>, probe: (i64, u64)) -> int;

/// The index at which a histogram with these bins places `probe`.
pub open spec fn insertion_point(bins: Seq<Bin>, probe: Bin) -> int {
    upper_bound_of(pairs(bins), (probe.value, probe.count))
}

/// `pos` parts the bins into those not greater than `probe`, before it, and
/// those greater, from it on.
pub open spec fn splits(bins: Seq<Bin>, probe: Bin, pos: int) -> bool {
    &&& 0 <= pos <= bins.len()
    &&& forall|i: int| 0 <= i < pos ==> (#[trigger] bins[i]).le(probe)
    &&& forall|i: int| pos <= i < bins.len() ==> probe.lt(#[trigger] bins[i])
}

/// Calls `superslice::Ext::upper_bound_by_key` on the bins, each keyed by its
/// `(value, count)` pair, whose order is that of the bins.
///
/// Not proved, taken from the crate's source: the search is a function of the
/// slice and the probe alone, it never returns an index past the end, and on
/// an ascending slice it returns the index of the first element greater than
/// the probe.
#[verifier::external_body]
pub(crate) fn upper_bound(bins: &Vec<Bin>, probe: &Bin) -> (pos: usize)
    ensures
        pos == upper_bound_of(pairs(bins@), (probe.value, probe.count)),
        pos <= bins@.len(),
        sorted(bins@) ==> splits(bins@, *probe, pos as int),
{
    bins.upper_bound_by_key(&(probe.value, probe.count), |bin| (bin.value, bin.count))
}

/// The total of two runs of bins laid end to end is the sum of their totals.
pub proof fn lemma_total_concat(front: Seq<Bin>, back: Seq<Bin>)
    ensures
        total(front + back) == total(front) + total(back),
    decreases back.len(),
{
    if back.len() == 0 {
        assert(front + back =~= front);
    } else {
        assert((front + back).drop_last() =~= front + back.drop_last());
        lemma_total_concat(front, back.drop_last());
    }
}

/// The total of a single bin is its count.
pub proof fn lemma_total_one(bin: Bin)
    ensures
        total(seq![bin]) == bin.count,
{
    let one = seq![bin];
    assert(one.drop_last() =~= Seq::<Bin>::empty());
    assert(total(one.drop_last()) == 0);
    assert(one.last() == bin);
}

/// The totals of the prefixes grow bin by bin and never pass the whole.
pub proof fn lemma_total_take(bins: Seq<Bin>, k: int)
    requires
        0 <= k <= bins.len(),
    ensures
        total(bins.take(k)) <= total(bins),
        k < bins.len() ==> total(bins.take(k + 1)) == total(bins.take(k)) + bins[k].count,
        k < bins.len() ==> total(bins.take(k)) + bins[k].count <= total(bins),
{
    assert(bins =~= bins.take(k) + bins.skip(k));
    lemma_total_concat(bins.take(k), bins.skip(k));
    if k < bins.len() {
        assert(bins.take(k + 1).drop_last() =~= bins.take(k));
        assert(bins =~= bins.take(k + 1) + bins.skip(k + 1));
        lemma_total_concat(bins.take(k + 1), bins.skip(k + 1));
    }
}

/// Two neighbours never hold more than all the bins together.
pub proof fn lemma_total_pair(bins: Seq<Bin>, k: int)
    requires
        0 <= k,
        k + 1 < bins.len(),
    ensures
        bins[k].count + bins[k + 1].count <= total(bins),
{
    lemma_total_take(bins, k);
    lemma_total_take(bins, k + 1);
}

/// A bin that enters adds its count to the total, wherever it enters.
pub proof fn lemma_total_insert(bins: Seq<Bin>, pos: int, bin: Bin)
    requires
        0 <= pos <= bins.len(),
    ensures
        total(bins.insert(pos, bin)) == total(bins) + bin.count,
{
    assert(bins =~= bins.take(pos) + bins.skip(pos));
    assert(bins.insert(pos, bin) =~= (bins.take(pos) + seq![bin]) + bins.skip(pos));
    lemma_total_concat(bins.take(pos), bins.skip(pos));
    lemma_total_concat(bins.take(pos) + seq![bin], bins.skip(pos));
    lemma_total_concat(bins.take(pos), seq![bin]);
    lemma_total_one(bin);
}

/// A bin that enters at the place that parts an ascending sequence leaves it
/// ascending.
pub proof fn lemma_sorted_insert(bins: Seq<Bin>, pos: int, bin: Bin)
    requires
        sorted(bins),
        splits(bins, bin, pos),
    ensures
        sorted(bins.insert(pos, bin)),
{
    let after = bins.insert(pos, bin);
    assert forall|i: int, j: int| 0 <= i < j < after.len() implies (#[trigger] after[i]).le(
        #[trigger] after[j],
    ) by {
        if j < pos {
            assert(after[i] == bins[i] && after[j] == bins[j]);
        } else if j == pos {
            assert(after[i] == bins[i]);
        } else if i < pos {
            assert(after[i] == bins[i] && after[j] == bins[j - 1]);
        } else if i == pos {
            assert(after[j] == bins[j - 1]);
        } else {
            assert(after[i] == bins[i - 1] && after[j] == bins[j - 1]);
        }
    }
}

/// On an ascending sequence only one place parts the bins around a probe.
pub proof fn lemma_splits_unique(bins: Seq<Bin>, probe: Bin, p: int, q: int)
    requires
        splits(bins, probe, p),
        splits(bins, probe, q),
    ensures
        p == q,
{
    if p < q {
        assert(bins[p].le(probe) && probe.lt(bins[p]));
    } else if q < p {
        assert(bins[q].le(probe) && probe.lt(bins[q]));
    }
}

/// The place that parts an ascending sequence never moves left as the probe
/// grows.
pub proof fn lemma_splits_monotone(bins: Seq<Bin>, low: Bin, high: Bin, p: int, q: int)
    requires
        low.le(high),
        splits(bins, low, p),
        splits(bins, high, q),
    ensures
        p <= q,
{
    if q < p {
        assert(bins[q].le(low) && high.lt(bins[q]));
    }
}

/// A longer prefix never holds fewer observations.
pub proof fn lemma_total_take_monotone(bins: Seq<Bin>, i: int, j: int)
    requires
        0 <= i <= j <= bins.len(),
    ensures
        total(bins.take(i)) <= total(bins.take(j)),
{
    assert(bins.take(j).take(i) =~= bins.take(i));
    lemma_total_take(bins.take(j), i);
}

} // verus!
