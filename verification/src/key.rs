//! Ordered integer keys for binary64 numbers.
//!
//! A key is the number's magnitude bits, negated when the sign bit is set. Two
//! keys compare as the numbers they stand for do, both zeros share the key 0,
//! and a NaN has no key.

use vstd::prelude::*;

verus! {

/// The key of positive infinity. Its negation is the key of negative infinity.
pub const INFINITY: i64 = 0x7FF0_0000_0000_0000;

/// The sign bit of a binary64 bit pattern.
pub const SIGN_BIT: u64 = 0x8000_0000_0000_0000;

/// `key` stands for a number, finite or infinite.
pub open spec fn spec_is_number(key: i64) -> bool {
    -INFINITY <= key <= INFINITY
}

/// `key` stands for a finite number.
pub open spec fn spec_is_finite(key: i64) -> bool {
    -INFINITY < key < INFINITY
}

/// The key of a bit pattern, if the pattern is not a NaN.
pub open spec fn spec_from_bits(bits: u64) -> Option<i64> {
    let magnitude = if bits >= SIGN_BIT { bits - SIGN_BIT } else { bits as int };
    if magnitude > INFINITY {
        None
    } else if bits >= SIGN_BIT {
        Some((-magnitude) as i64)
    } else {
        Some(magnitude as i64)
    }
}

/// The bit pattern of a key. Key 0 gives positive zero.
pub open spec fn spec_to_bits(key: i64) -> u64 {
    if key >= 0 {
        key as u64
    } else {
        (SIGN_BIT - key) as u64
    }
}

/// Tells whether `key` stands for a number, finite or infinite.
#[verifier::when_used_as_spec(spec_is_number)]
pub fn is_number(key: i64) -> (r: bool)
    ensures
        r == spec_is_number(key),
{
    -INFINITY <= key && key <= INFINITY
}

/// Tells whether `key` stands for a finite number.
#[verifier::when_used_as_spec(spec_is_finite)]
pub fn is_finite(key: i64) -> (r: bool)
    ensures
        r == spec_is_finite(key),
{
    -INFINITY < key && key < INFINITY
}

/// Turns a bit pattern into its key; `None` exactly for the NaN patterns.
#[verifier::when_used_as_spec(spec_from_bits)]
pub fn from_bits(bits: u64) -> (key: Option<i64>)
    ensures
        key == spec_from_bits(bits),
        key is Some ==> spec_is_number(key->0),
{
    let negative = bits >= SIGN_BIT;
    let magnitude: u64 = if negative { bits - SIGN_BIT } else { bits };
    if magnitude > 0x7FF0_0000_0000_0000 {
        None
    } else if negative {
        Some(-(magnitude as i64))
    } else {
        Some(magnitude as i64)
    }
}

/// Turns a key back into a bit pattern.
#[verifier::when_used_as_spec(spec_to_bits)]
pub fn to_bits(key: i64) -> (bits: u64)
    requires
        spec_is_number(key),
    ensures
        bits == spec_to_bits(key),
        spec_from_bits(bits) == Some(key),
{
    if key >= 0 {
        key as u64
    } else {
        let magnitude: u64 = (-key) as u64;
        SIGN_BIT + magnitude
    }
}

/// A key survives the trip through its bit pattern, and so does every bit
/// pattern that is neither a NaN nor negative zero.
pub proof fn lemma_round_trip(key: i64, bits: u64)
    ensures
        spec_is_number(key) ==> spec_from_bits(spec_to_bits(key)) == Some(key),
        spec_from_bits(bits) is Some && bits != SIGN_BIT ==> spec_to_bits(spec_from_bits(bits)->0)
            == bits,
{
}

/// Keys order as magnitudes do: among patterns without the sign bit the
/// larger pattern has the larger key, among those with it the smaller key.
pub proof fn lemma_order(a: u64, b: u64)
    requires
        spec_from_bits(a) is Some,
        spec_from_bits(b) is Some,
        a < b,
    ensures
        b < SIGN_BIT ==> spec_from_bits(a)->0 < spec_from_bits(b)->0,
        a >= SIGN_BIT ==> spec_from_bits(a)->0 > spec_from_bits(b)->0,
        a < SIGN_BIT <= b ==> spec_from_bits(a)->0 >= spec_from_bits(b)->0,
{
}

} // verus!
