//! Similarity scores between a query and a file name.
//!
//! A score is a double between zero and one. It is carried as the bit
//! pattern of that double: for doubles that are not negative, the order of
//! the bit patterns, read as unsigned integers, is the order of the numbers.
//! That integer is the key by which candidates are ordered, so no two
//! doubles are ever compared as such.

use vstd::prelude::*;

verus! {

/// Bit pattern of the cutoff, the double nearest to six tenths. A candidate
/// is kept only if its score is strictly greater.
pub const THRESHOLD_BITS: u64 = 0x3FE3_3333_3333_3333;

/// Bit pattern of positive infinity. Every larger pattern with a clear sign
/// bit is a NaN, and every pattern with the sign bit set is larger still.
pub const INFINITY_BITS: u64 = 0x7FF0_0000_0000_0000;

/// Whether the double with this bit pattern is a number strictly greater
/// than the cutoff.
pub open spec fn above_threshold(bits: u64) -> bool {
    THRESHOLD_BITS < bits <= INFINITY_BITS
}

/// A similarity score, as the bit pattern of a double.
#[derive(Clone, Copy, Debug)]
pub struct Similarity {
    pub bits: u64,
}

impl Similarity {
    /// The score with the given bit pattern.
    pub fn from_bits(bits: u64) -> (s: Similarity)
        ensures
            s.bits == bits,
    {
        Similarity { bits }
    }

    /// The bit pattern of this score.
    pub fn to_bits(&self) -> (bits: u64)
        ensures
            bits == self.bits,
    {
        self.bits
    }

    /// Whether this score is strictly greater than the cutoff.
    pub fn exceeds_threshold(&self) -> (yes: bool)
        ensures
            yes == above_threshold(self.bits),
    {
        THRESHOLD_BITS < self.bits && self.bits <= INFINITY_BITS
    }
}

/// The bit pattern of the Jaro-Winkler similarity of two strings.
pub uninterp spec fn jaro_winkler_bits(query: Seq<char>, name: Seq<char>) -> u64;

/// Calls `strsim::jaro_winkler` and hands back the bits of the double it
/// returns. The contract only names that result: the same two strings
/// always give the same score.
#[verifier::external_body]
pub(crate) fn jaro_winkler(query: &str, name: &str) -> (bits: u64)
    ensures
        bits == jaro_winkler_bits(query@, name@),
{
    strsim::jaro_winkler(query, name).to_bits()
}

/// The similarity of a file name to the query.
pub fn name_similarity(query: &str, name: &str) -> (s: Similarity)
    ensures
        s.bits == jaro_winkler_bits(query@, name@),
{
    Similarity::from_bits(jaro_winkler(query, name))
}

} // verus!
