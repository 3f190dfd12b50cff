//! One bin of a histogram: a value and the number of observations it stands
//! for.

use vstd::prelude::*;
use crate::key::spec_is_finite;

verus! {

/// A `(value, count)` pair. The value is the key of a finite number, the
/// count-weighted mean of the observations folded into the bin.
///
/// Bins order by value first and by count second; two bins are equal when
/// both fields are.
#[derive(Debug, Copy, Clone, PartialEq, Eq, PartialOrd, Ord, Structural)]
pub struct Bin {
    pub value: i64,
    pub count: u64,
}

impl Bin {
    /// The value is the key of a finite number.
    pub open spec fn wf(self) -> bool {
        spec_is_finite(self.value)
    }

    /// `self` sorts before `other`, or is equal to it.
    pub open spec fn le(self, other: Bin) -> bool {
        self.value < other.value || (self.value == other.value && self.count <= other.count)
    }

    /// `self` sorts strictly before `other`.
    pub open spec fn lt(self, other: Bin) -> bool {
        self.value < other.value || (self.value == other.value && self.count < other.count)
    }

    /// A bin of `count` observations at `value`.
    pub fn new(value: i64, count: u64) -> (bin: Bin)
        requires
            spec_is_finite(value),
        ensures
            bin == (Bin { value, count }),
            bin.wf(),
    {
        Bin { value, count }
    }

    /// A weightless bin at `value`: the placeholder that stands at either end
    /// of a histogram, and the probe that a rank query searches with.
    pub fn empty(value: i64) -> (bin: Bin)
        requires
            spec_is_finite(value),
        ensures
            bin == (Bin { value, count: 0 }),
            bin.wf(),
    {
        Bin { value, count: 0 }
    }

    /// The bin that replaces `left` and `right` when they are folded into
    /// one. Its count is the sum of theirs; `mean` is the key of their
    /// count-weighted mean, which the caller has computed.
    pub fn merge(left: &Bin, right: &Bin, mean: i64) -> (bin: Bin)
        requires
            spec_is_finite(mean),
            0 < left.count + right.count <= u64::MAX,
        ensures
            bin == (Bin { value: mean, count: (left.count + right.count) as u64 }),
            bin.wf(),
    {
        Bin { value: mean, count: left.count + right.count }
    }

    /// The key of the bin's value.
    pub fn value(&self) -> (value: i64)
        ensures
            value == self.value,
    {
        self.value
    }

    /// The number of observations in the bin.
    pub fn count(&self) -> (count: u64)
        ensures
            count == self.count,
    {
        self.count
    }
}

} // verus!
