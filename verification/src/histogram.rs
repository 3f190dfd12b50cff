//! The histogram: a bounded, ordered list of bins with the exact extremes of
//! everything that entered it.

use vstd::prelude::*;
use crate::bin::Bin;
use crate::key::{spec_is_finite, spec_is_number};
use crate::closest::{
    closest, closest_among, fits, is_closest_among, lemma_closest_among, lemma_sorted_merged,
    lemma_total_merged, merged_at, merged_bin,
};
use crate::order::{
    insertion_point, lemma_sorted_insert, lemma_total_insert, lemma_total_pair, lemma_total_take,
    sorted, splits, total, upper_bound,
};
use crate::query::{
    around, bordering, cumulative_index, doubled_cumulative, doubled_passed, leading_below,
    spec_count_less_than_or_equal_to, spec_quantile, Count, Quantile, Rank,
};

verus! {

/// What a histogram holds, as mathematics.
pub struct HistogramView {
    /// The number of bins that the histogram keeps.
    pub size: nat,
    /// The bins, in the order in which the histogram lists them.
    pub bins: Seq<Bin>,
    /// The least value that ever entered, if any did.
    pub min: Option<i64>,
    /// The greatest value that ever entered, if any did.
    pub max: Option<i64>,
}

/// A fixed-size list of bins that approximates the distribution of the values
/// inserted into it.
///
/// `insert` may leave the list one bin longer than the size; `shrink` then
/// folds the two closest neighbours into one. Between the two calls the caller
/// measures the gaps between neighbours and the mean of the pair that
/// `find_closest_bins` picks.
#[derive(Debug)]
pub struct Histogram {
    size: usize,
    bins: Vec<Bin>,
    min_value: Option<i64>,
    max_value: Option<i64>,
}

impl View for Histogram {
    type V = HistogramView;

    closed spec fn view(&self) -> HistogramView {
        HistogramView {
            size: self.size as nat,
            bins: self.bins@,
            min: self.min_value,
            max: self.max_value,
        }
    }
}

/// The tracked minimum after `value` has entered.
pub open spec fn lower(current: Option<i64>, value: i64) -> Option<i64> {
    match current {
        Some(least) => Some(if value < least { value } else { least }),
        None => Some(value),
    }
}

/// The tracked maximum after `value` has entered.
pub open spec fn upper(current: Option<i64>, value: i64) -> Option<i64> {
    match current {
        Some(greatest) => Some(if value > greatest { value } else { greatest }),
        None => Some(value),
    }
}

/// The bins after each of `others` has been placed, one after another.
pub open spec fn placed_all(bins: Seq<Bin>, others: Seq<Bin>) -> Seq<Bin>
    decreases others.len(),
{
    if others.len() == 0 {
        bins
    } else {
        let before = placed_all(bins, others.drop_last());
        before.insert(insertion_point(before, others.last()), others.last())
    }
}

/// The tracked minimum after the value of each of `bins` has entered.
pub open spec fn lowest_of(current: Option<i64>, bins: Seq<Bin>) -> Option<i64>
    decreases bins.len(),
{
    if bins.len() == 0 {
        current
    } else {
        lower(lowest_of(current, bins.drop_last()), bins.last().value)
    }
}

/// The tracked maximum after the value of each of `bins` has entered.
pub open spec fn highest_of(current: Option<i64>, bins: Seq<Bin>) -> Option<i64>
    decreases bins.len(),
{
    if bins.len() == 0 {
        current
    } else {
        upper(highest_of(current, bins.drop_last()), bins.last().value)
    }
}

/// The number of bins of `other`, from index `from` on, that `h` takes in
/// before it has to shrink: all that are left, or as many as it takes to
/// make the list one bin longer than the size.
pub open spec fn taken(h: HistogramView, other: HistogramView, from: int) -> int {
    let room = h.size + 1 - h.bins.len();
    let left = other.bins.len() - from;
    if left < room {
        left
    } else {
        room
    }
}

/// The bins of `other` that `h` places in the turn that starts at `from`.
pub open spec fn turn(h: HistogramView, other: HistogramView, from: int) -> Seq<Bin> {
    other.bins.subrange(from, from + taken(h, other, from))
}

impl Histogram {
    /// The size is positive, the list is at most one bin longer than the
    /// size, the total count fits in 64 bits, every bin holds a finite value,
    /// and the extremes are tracked exactly when a bin is held.
    pub open spec fn wf(self) -> bool {
        &&& 0 < self@.size < usize::MAX
        &&& self@.bins.len() <= self@.size + 1
        &&& total(self@.bins) <= u64::MAX
        &&& forall|i: int| 0 <= i < self@.bins.len() ==> (#[trigger] self@.bins[i]).wf()
        &&& self@.min is Some <==> self@.bins.len() > 0
        &&& self@.max is Some <==> self@.bins.len() > 0
        &&& self@.min is Some ==> spec_is_finite(self@.min->0) && spec_is_finite(self@.max->0)
            && self@.min->0 <= self@.max->0
    }

    /// Every bin's value lies between the tracked extremes.
    pub open spec fn bounded(self) -> bool {
        forall|i: int|
            0 <= i < self@.bins.len() ==> self@.min->0 <= (#[trigger] self@.bins[i]).value
                <= self@.max->0
    }

    /// An empty histogram that keeps `size` bins.
    pub fn new(size: usize) -> (h: Histogram)
        requires
            0 < size < usize::MAX,
        ensures
            h.wf(),
            h.bounded(),
            h@.size == size,
            h@.bins == Seq::<Bin>::empty(),
            h@.min is None,
            h@.max is None,
    {
        let h = Histogram {
            size,
            bins: Vec::with_capacity(size + 1),
            min_value: None,
            max_value: None,
        };
        assert(total(h@.bins) == 0);
        h
    }

    /// The number of bins that the histogram keeps.
    pub fn size(&self) -> (size: usize)
        ensures
            size == self@.size,
    {
        self.size
    }

    /// The bins, in order.
    pub fn bins(&self) -> (bins: &[Bin])
        ensures
            bins@ == self@.bins,
    {
        self.bins.as_slice()
    }

    /// Tells whether the list is longer than the size, so that `shrink` has
    /// work to do.
    pub fn overflows(&self) -> (over: bool)
        ensures
            over == (self@.bins.len() > self@.size),
    {
        self.bins.len() > self.size
    }

    /// The least value that ever entered, or `None` if none did.
    pub fn min(&self) -> (min: Option<i64>)
        ensures
            min == self@.min,
    {
        self.min_value
    }

    /// The greatest value that ever entered, or `None` if none did.
    pub fn max(&self) -> (max: Option<i64>)
        ensures
            max == self@.max,
    {
        self.max_value
    }

    /// The number of observations that entered: the sum of the bins' counts.
    pub fn count(&self) -> (count: u64)
        requires
            self.wf(),
        ensures
            count == total(self@.bins),
    {
        let mut count: u64 = 0;
        let mut i: usize = 0;
        while i < self.bins.len()
            invariant
                i <= self.bins.len(),
                count == total(self.bins@.take(i as int)),
                total(self.bins@) <= u64::MAX,
            decreases self.bins.len() - i,
        {
            proof {
                lemma_total_take(self.bins@, i as int);
            }
            count = count + self.bins[i].count;
            i = i + 1;
        }
        assert(self.bins@.take(i as int) =~= self.bins@);
        count
    }

    /// Places `bin` at index `pos` of the list and widens the tracked
    /// extremes to its value. The list may then be one bin longer than the
    /// size: see `shrink`.
    pub fn place(&mut self, pos: usize, bin: Bin)
        requires
            old(self).wf(),
            bin.wf(),
            old(self)@.bins.len() <= old(self)@.size,
            pos <= old(self)@.bins.len(),
            total(old(self)@.bins) + bin.count <= u64::MAX,
        ensures
            final(self).wf(),
            final(self)@.size == old(self)@.size,
            final(self)@.bins == old(self)@.bins.insert(pos as int, bin),
            final(self)@.min == lower(old(self)@.min, bin.value),
            final(self)@.max == upper(old(self)@.max, bin.value),
            total(final(self)@.bins) == total(old(self)@.bins) + bin.count,
            sorted(old(self)@.bins) && splits(old(self)@.bins, bin, pos as int) ==> sorted(
                final(self)@.bins,
            ),
            old(self).bounded() ==> final(self).bounded(),
    {
        proof {
            lemma_total_insert(self.bins@, pos as int, bin);
            if sorted(self.bins@) && splits(self.bins@, bin, pos as int) {
                lemma_sorted_insert(self.bins@, pos as int, bin);
            }
        }
        self.bins.insert(pos, bin);
        self.min_value = Some(lowest(self.min_value, bin.value));
        self.max_value = Some(highest(self.max_value, bin.value));
    }

    /// Places `bin` in the list, at the index that the upper-bound search
    /// gives for it, and widens the tracked extremes to its value. In an
    /// ascending list that index is behind every bin that is not greater than
    /// `bin`, so the list stays ascending. The list may then be one bin longer
    /// than the size: see `shrink`.
    pub fn insert(&mut self, bin: Bin)
        requires
            old(self).wf(),
            bin.wf(),
            old(self)@.bins.len() <= old(self)@.size,
            total(old(self)@.bins) + bin.count <= u64::MAX,
        ensures
            final(self).wf(),
            final(self)@.size == old(self)@.size,
            0 <= insertion_point(old(self)@.bins, bin) <= old(self)@.bins.len(),
            final(self)@.bins == old(self)@.bins.insert(
                insertion_point(old(self)@.bins, bin),
                bin,
            ),
            final(self)@.min == lower(old(self)@.min, bin.value),
            final(self)@.max == upper(old(self)@.max, bin.value),
            total(final(self)@.bins) == total(old(self)@.bins) + bin.count,
            sorted(old(self)@.bins) ==> splits(
                old(self)@.bins,
                bin,
                insertion_point(old(self)@.bins, bin),
            ) && sorted(final(self)@.bins),
            old(self).bounded() ==> final(self).bounded(),
    {
        let pos = upper_bound(&self.bins, &bin);
        self.place(pos, bin);
    }

    /// Widens the tracked extremes to `value`, which no bin needs to hold:
    /// this is how the exact extremes of another histogram are taken over
    /// after its bins were inserted.
    pub fn track_min_max(&mut self, value: i64)
        requires
            old(self).wf(),
            old(self)@.bins.len() > 0,
            spec_is_finite(value),
        ensures
            final(self).wf(),
            final(self)@.size == old(self)@.size,
            final(self)@.bins == old(self)@.bins,
            final(self)@.min == lower(old(self)@.min, value),
            final(self)@.max == upper(old(self)@.max, value),
            old(self).bounded() ==> final(self).bounded(),
    {
        self.min_value = Some(lowest(self.min_value, value));
        self.max_value = Some(highest(self.max_value, value));
    }

    /// Picks the two neighbours that are closest to each other: those with
    /// the smallest gap, among these the pair with the smallest combined
    /// count, among these the leftmost. `gaps[i]` is the key of the distance
    /// between the values of bins `i` and `i + 1`.
    pub fn find_closest_bins(&self, gaps: &Vec<i64>) -> (pair: (usize, usize))
        requires
            self.wf(),
            self@.bins.len() >= 2,
            gaps@.len() + 1 == self@.bins.len(),
        ensures
            pair.0 == closest(self@.bins, gaps@),
            pair.1 == pair.0 + 1,
            is_closest_among(self@.bins, gaps@, gaps@.len(), pair.0 as int),
    {
        let mut best: usize = 0;
        let mut i: usize = 1;
        while i < gaps.len()
            invariant
                1 <= i <= gaps.len(),
                gaps@.len() + 1 == self.bins@.len(),
                total(self.bins@) <= u64::MAX,
                0 <= best < i,
                best == closest_among(self.bins@, gaps@, i as nat),
            decreases gaps.len() - i,
        {
            proof {
                lemma_total_pair(self.bins@, i as int);
                lemma_total_pair(self.bins@, best as int);
            }
            let gap = gaps[i];
            let count = self.bins[i].count + self.bins[i + 1].count;
            let best_gap = gaps[best];
            let best_count = self.bins[best].count + self.bins[best + 1].count;
            if gap < best_gap || (gap == best_gap && count < best_count) {
                best = i;
            }
            i = i + 1;
        }
        proof {
            lemma_closest_among(self.bins@, gaps@, gaps@.len());
        }
        (best, best + 1)
    }

    /// Restores the size: where the list is longer than the size, folds the
    /// closest pair of neighbours into one bin, whose count is the sum of
    /// theirs and whose value is `mean`, the key of their count-weighted mean.
    /// Where the list is not too long, nothing changes.
    pub fn shrink(&mut self, gaps: &Vec<i64>, mean: i64)
        requires
            old(self).wf(),
            old(self)@.bins.len() > old(self)@.size ==> {
                &&& gaps@.len() + 1 == old(self)@.bins.len()
                &&& spec_is_finite(mean)
                &&& old(self)@.bins[closest(old(self)@.bins, gaps@)].count
                    + old(self)@.bins[closest(old(self)@.bins, gaps@) + 1].count > 0
            },
        ensures
            final(self).wf(),
            final(self)@.size == old(self)@.size,
            final(self)@.min == old(self)@.min,
            final(self)@.max == old(self)@.max,
            final(self)@.bins.len() <= final(self)@.size,
            total(final(self)@.bins) == total(old(self)@.bins),
            old(self)@.bins.len() <= old(self)@.size ==> final(self)@.bins == old(self)@.bins,
            old(self)@.bins.len() > old(self)@.size ==> final(self)@.bins == merged_at(
                old(self)@.bins,
                closest(old(self)@.bins, gaps@),
                mean,
            ),
            sorted(old(self)@.bins) && fits(
                old(self)@.bins,
                closest(old(self)@.bins, gaps@),
                merged_bin(old(self)@.bins, closest(old(self)@.bins, gaps@), mean),
            ) ==> sorted(final(self)@.bins),
            old(self).bounded() && old(self)@.min->0 <= mean <= old(self)@.max->0
                ==> final(self).bounded(),
    {
        if self.bins.len() > self.size {
            let (left, right) = self.find_closest_bins(gaps);
            proof {
                lemma_total_pair(self.bins@, left as int);
                lemma_total_merged(self.bins@, left as int, mean);
                if sorted(self.bins@) && fits(
                    self.bins@,
                    left as int,
                    merged_bin(self.bins@, left as int, mean),
                ) {
                    lemma_sorted_merged(self.bins@, left as int, mean);
                }
            }
            let merged = Bin::merge(&self.bins[left], &self.bins[right], mean);
            self.bins.set(left, merged);
            self.bins.remove(right);
        }
    }

    /// Finds where a cumulative count falls. Going through the bins, each with
    /// the cumulative count up to its middle, it stops at the first whose
    /// count is not below the target. It returns that bin's index (the number
    /// of bins if none stops it) and the cumulative count of the bin before
    /// it, both counts doubled to stay whole.
    pub fn index_of_cumulative_count_less_than(&self, doubled_target: u128) -> (found: (
        usize,
        u128,
    ))
        requires
            self.wf(),
        ensures
            found.0 == cumulative_index(self@.bins, doubled_target as int),
            found.1 == doubled_passed(self@.bins, found.0 as int),
            found.0 <= self@.bins.len(),
            forall|k: int|
                0 <= k < found.0 ==> #[trigger] doubled_cumulative(self@.bins, k) < doubled_target,
            found.0 < self@.bins.len() ==> doubled_cumulative(self@.bins, found.0 as int)
                >= doubled_target,
    {
        let mut i: usize = 0;
        let mut before: u128 = 0;
        let mut passed: u128 = 0;
        while i < self.bins.len() && doubled_target > 2 * before + self.bins[i].count as u128
            invariant
                i <= self.bins.len(),
                total(self.bins@) <= u64::MAX,
                before == total(self.bins@.take(i as int)),
                before <= u64::MAX,
                passed == doubled_passed(self.bins@, i as int),
                cumulative_index(self.bins@, doubled_target as int) == leading_below(
                    self.bins@,
                    doubled_target as int,
                    i as int,
                ),
                forall|k: int|
                    0 <= k < i ==> #[trigger] doubled_cumulative(self.bins@, k) < doubled_target,
            decreases self.bins.len() - i,
        {
            proof {
                lemma_total_take(self.bins@, i as int);
            }
            passed = 2 * before + self.bins[i].count as u128;
            before = before + self.bins[i].count as u128;
            i = i + 1;
        }
        (i, passed)
    }

    /// The two bins on either side of index `i`, with a weightless bin at the
    /// tracked minimum before the first bin and one at the tracked maximum
    /// after the last.
    pub fn get_bordering_bins(&self, i: usize) -> (pair: (Bin, Bin))
        requires
            self.wf(),
            self@.bins.len() > 0,
            i <= self@.bins.len(),
        ensures
            pair == bordering(self@, i as int),
    {
        if i == 0 {
            (Bin::empty(self.min_value.unwrap()), self.bins[0])
        } else if i == self.bins.len() {
            (self.bins[i - 1], Bin::empty(self.max_value.unwrap()))
        } else {
            (self.bins[i - 1], self.bins[i])
        }
    }

    /// What the histogram knows of a quantile: the tracked minimum for the
    /// lowest rank and the tracked maximum for the highest; for a rank
    /// between, the two bins that the target count falls between and the
    /// cumulative count before them. `None` where nothing has been counted.
    /// The caller interpolates between the two bins.
    pub fn quantile(&self, rank: Rank) -> (found: Option<Quantile>)
        requires
            self.wf(),
        ensures
            found == spec_quantile(self@, rank),
            rank is Lowest ==> (found is Some <==> self@.min is Some) && (found is Some
                ==> found->0 == Quantile::Exact(self@.min->0)),
            rank is Highest ==> (found is Some <==> self@.max is Some) && (found is Some
                ==> found->0 == Quantile::Exact(self@.max->0)),
            self@.bins.len() == 0 ==> found is None,
            total(self@.bins) > 0 ==> found is Some,
    {
        match rank {
            Rank::Lowest => match self.min_value {
                Some(least) => Some(Quantile::Exact(least)),
                None => None,
            },
            Rank::Highest => match self.max_value {
                Some(greatest) => Some(Quantile::Exact(greatest)),
                None => None,
            },
            Rank::Target(target) => {
                if self.count() == 0 {
                    assert(self@.bins.len() == 0 ==> total(self@.bins) == 0);
                    None
                } else {
                    let (i, passed) = self.index_of_cumulative_count_less_than(target);
                    let (left, right) = self.get_bordering_bins(i);
                    Some(Quantile::Between { left, right, doubled_passed: passed })
                }
            },
        }
    }

    /// What the histogram knows of the number of values that are less than or
    /// equal to `value`: 0 where nothing has been counted or `value` is below
    /// the tracked minimum, the total count where it is not below the tracked
    /// maximum. Otherwise the two bins on either side of the place where a
    /// weightless bin at `value` would enter, and the number of observations
    /// in the bins before the left one. The caller interpolates between the
    /// two bins.
    pub fn count_less_than_or_equal_to(&self, value: i64) -> (found: Count)
        requires
            self.wf(),
            spec_is_number(value),
        ensures
            found == spec_count_less_than_or_equal_to(self@, value),
            self@.min is Some && value < self@.min->0 ==> found == Count::Exact(0),
            self@.max is Some && value >= self@.max->0 ==> found == Count::Exact(
                total(self@.bins) as u64,
            ),
            found is Between ==> found->below + found->left.count <= total(self@.bins),
            found is Between && sorted(self@.bins) ==> splits(
                self@.bins,
                Bin { value, count: 0 },
                insertion_point(self@.bins, Bin { value, count: 0 }),
            ),
    {
        let total_count = self.count();
        let below_min = match self.min_value {
            Some(least) => value < least,
            None => false,
        };
        let reaches_max = match self.max_value {
            Some(greatest) => value >= greatest,
            None => false,
        };
        if total_count == 0 || below_min {
            Count::Exact(0)
        } else if reaches_max {
            Count::Exact(total_count)
        } else {
            assert(self@.bins.len() > 0) by {
                if self@.bins.len() == 0 {
                    assert(total(self@.bins) == 0);
                }
            }
            let pos = upper_bound(&self.bins, &Bin::empty(value));
            self.count_around(pos)
        }
    }

    /// The two bins on either side of index `pos`, and the number of
    /// observations in the bins before the left one.
    pub fn count_around(&self, pos: usize) -> (found: Count)
        requires
            self.wf(),
            self@.bins.len() > 0,
            pos <= self@.bins.len(),
        ensures
            found == around(self@, pos as int),
            found is Between,
            found->below + found->left.count <= total(self@.bins),
    {
        let left = if pos >= 1 { pos - 1 } else { 0 };
        let mut below: u64 = 0;
        let mut i: usize = 0;
        while i < left
            invariant
                i <= left < self.bins.len(),
                below == total(self.bins@.take(i as int)),
                total(self.bins@) <= u64::MAX,
            decreases left - i,
        {
            proof {
                lemma_total_take(self.bins@, i as int);
            }
            below = below + self.bins[i].count;
            i = i + 1;
        }
        let (left_bin, right_bin) = self.get_bordering_bins(pos);
        proof {
            lemma_total_take(self.bins@, left as int);
        }
        Count::Between { below, left: left_bin, right: right_bin }
    }

    /// Takes in another histogram, in turns. A turn places the bins of
    /// `other`, from index `from` on, until the list is one bin longer than
    /// the size or none is left. Where the list is too long it returns the
    /// index of the next bin: the caller shrinks the list and takes the next
    /// turn from there. Where the list is not too long, every bin is in: the
    /// turn widens the tracked extremes to those of `other`, which its bins
    /// may no longer show, and returns `None`.
    ///
    /// The first turn starts from 0. Over all turns the count grows by the
    /// count of `other`: each turn adds the counts of the bins it places, and
    /// `shrink` leaves the total as it is.
    pub fn merge(&mut self, other: &Histogram, from: usize) -> (next: Option<usize>)
        requires
            old(self).wf(),
            other.wf(),
            old(self)@.bins.len() <= old(self)@.size,
            from <= other@.bins.len(),
            from > 0 ==> old(self)@.bins.len() > 0,
            total(old(self)@.bins) + total(other@.bins) - total(other@.bins.take(from as int))
                <= u64::MAX,
        ensures
            final(self).wf(),
            final(self)@.size == old(self)@.size,
            final(self)@.bins == placed_all(
                old(self)@.bins,
                turn(old(self)@, other@, from as int),
            ),
            final(self)@.bins.len() == old(self)@.bins.len()
                + taken(old(self)@, other@, from as int),
            next == if old(self)@.bins.len() + taken(old(self)@, other@, from as int)
                > old(self)@.size {
                Some((from + taken(old(self)@, other@, from as int)) as usize)
            } else {
                None
            },
            next is None ==> from + taken(old(self)@, other@, from as int) == other@.bins.len(),
            final(self)@.min == if next is None && other@.min is Some {
                lower(
                    lowest_of(old(self)@.min, turn(old(self)@, other@, from as int)),
                    other@.min->0,
                )
            } else {
                lowest_of(old(self)@.min, turn(old(self)@, other@, from as int))
            },
            final(self)@.max == if next is None && other@.max is Some {
                upper(
                    highest_of(old(self)@.max, turn(old(self)@, other@, from as int)),
                    other@.max->0,
                )
            } else {
                highest_of(old(self)@.max, turn(old(self)@, other@, from as int))
            },
            total(final(self)@.bins) + total(other@.bins.take(from as int))
                == total(old(self)@.bins)
                + total(other@.bins.take(from + taken(old(self)@, other@, from as int))),
            next is None ==> total(final(self)@.bins) + total(other@.bins.take(from as int))
                == total(old(self)@.bins) + total(other@.bins),
            other.bounded() && other@.min is Some ==> {
                &&& lower(final(self)@.min, other@.min->0) == lower(old(self)@.min, other@.min->0)
                &&& upper(final(self)@.max, other@.max->0) == upper(old(self)@.max, other@.max->0)
            },
            next is None && other.bounded() && other@.min is Some ==> {
                &&& final(self)@.min == lower(old(self)@.min, other@.min->0)
                &&& final(self)@.max == upper(old(self)@.max, other@.max->0)
            },
            next is None && other@.min is None ==> final(self)@ == old(self)@,
            sorted(old(self)@.bins) ==> sorted(final(self)@.bins),
            old(self).bounded() ==> final(self).bounded(),
    {
        let mut i: usize = from;
        proof {
            assert(other.bins@.subrange(from as int, from as int) =~= Seq::<Bin>::empty());
            lemma_total_take(other.bins@, from as int);
        }
        while i < other.bins.len() && self.bins.len() <= self.size
            invariant
                from <= i <= other.bins.len(),
                self.wf(),
                other.wf(),
                self@.size == old(self)@.size,
                old(self)@.bins.len() <= old(self)@.size,
                self@.bins.len() == old(self)@.bins.len() + (i - from),
                i > from || old(self)@.bins.len() > 0 ==> self@.bins.len() > 0,
                self@.bins == placed_all(
                    old(self)@.bins,
                    other.bins@.subrange(from as int, i as int),
                ),
                self@.min == lowest_of(
                    old(self)@.min,
                    other.bins@.subrange(from as int, i as int),
                ),
                self@.max == highest_of(
                    old(self)@.max,
                    other.bins@.subrange(from as int, i as int),
                ),
                total(self@.bins) + total(other.bins@.take(from as int)) == total(
                    old(self)@.bins,
                ) + total(other.bins@.take(i as int)),
                total(old(self)@.bins) + total(other.bins@) - total(
                    other.bins@.take(from as int),
                ) <= u64::MAX,
                other.bounded() && other@.min is Some ==> lower(self@.min, other@.min->0)
                    == lower(old(self)@.min, other@.min->0) && upper(self@.max, other@.max->0)
                    == upper(old(self)@.max, other@.max->0),
                sorted(old(self)@.bins) ==> sorted(self@.bins),
                old(self).bounded() ==> self.bounded(),
            decreases other.bins.len() - i,
        {
            proof {
                lemma_total_take(other.bins@, i as int);
                let next_run = other.bins@.subrange(from as int, i + 1);
                assert(next_run.drop_last() =~= other.bins@.subrange(from as int, i as int));
                assert(next_run.last() == other.bins@[i as int]);
                assert(other@.bins[i as int].wf());
            }
            self.insert(other.bins[i]);
            i = i + 1;
        }
        if self.bins.len() > self.size {
            Some(i)
        } else {
            assert(other.bins@.take(i as int) =~= other.bins@);
            match other.min_value {
                Some(least) => {
                    self.track_min_max(least);
                },
                None => {},
            }
            match other.max_value {
                Some(greatest) => {
                    self.track_min_max(greatest);
                },
                None => {},
            }
            None
        }
    }
}

/// The smaller of the tracked minimum and `value`.
fn lowest(current: Option<i64>, value: i64) -> (least: i64)
    ensures
        Some(least) == lower(current, value),
{
    match current {
        Some(least) => if value < least { value } else { least },
        None => value,
    }
}

/// The larger of the tracked maximum and `value`.
fn highest(current: Option<i64>, value: i64) -> (greatest: i64)
    ensures
        Some(greatest) == upper(current, value),
{
    match current {
        Some(greatest) => if value > greatest { value } else { greatest },
        None => value,
    }
}

} // verus!
