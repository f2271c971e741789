//! Similarity scores and the order in which they rank.
//!
//! A score is the bit pattern of an IEEE 754 binary32 number: one sign bit,
//! eight exponent bits, twenty-three fraction bits. Dropping the sign bit
//! leaves the magnitude, and magnitudes of numbers compare as the numbers'
//! absolute values do. A magnitude above that of infinity is not a number.

use vstd::prelude::*;

verus! {

/// The sign bit of a binary32 pattern.
pub const SIGN_BIT: u32 = 0x8000_0000;

/// The pattern of positive infinity: all exponent bits set, no fraction bit.
pub const INFINITY_BITS: u32 = 0x7f80_0000;

/// A similarity score, as the bit pattern of a binary32 number.
#[derive(Clone, Copy, Debug)]
pub struct Similarity {
    pub bits: u32,
}

impl Similarity {
    /// The pattern without its sign bit.
    pub open spec fn magnitude(self) -> int {
        if self.bits >= SIGN_BIT {
            self.bits - SIGN_BIT
        } else {
            self.bits as int
        }
    }

    /// Whether the pattern stands for no number.
    pub open spec fn spec_is_nan(self) -> bool {
        self.magnitude() > INFINITY_BITS
    }

    /// An integer that orders the numbers as their values do: of two patterns
    /// that are numbers, the greater number has the greater key, and the two
    /// zeros share the key 0.
    pub open spec fn order_key(self) -> int {
        if self.bits >= SIGN_BIT {
            -self.magnitude()
        } else {
            self.magnitude()
        }
    }

    /// Whether `self` must stand ahead of `other` in a ranking: a number
    /// stands ahead of every smaller number and of everything that is not a
    /// number.
    pub open spec fn spec_ranks_before(self, other: Similarity) -> bool {
        !self.spec_is_nan() && (other.spec_is_nan() || self.order_key()
            > other.order_key())
    }

    /// Whether neither of the two must stand ahead of the other.
    pub open spec fn spec_ties_with(self, other: Similarity) -> bool {
        !self.spec_ranks_before(other) && !other.spec_ranks_before(self)
    }

    pub fn from_bits(bits: u32) -> (s: Similarity)
        ensures
            s.bits == bits,
    {
        Similarity { bits }
    }

    pub fn to_bits(self) -> (bits: u32)
        ensures
            bits == self.bits,
    {
        self.bits
    }

    fn magnitude_bits(self) -> (m: u32)
        ensures
            m == self.magnitude(),
    {
        if self.bits >= SIGN_BIT {
            self.bits - SIGN_BIT
        } else {
            self.bits
        }
    }

    #[verifier::when_used_as_spec(spec_is_nan)]
    pub fn is_nan(self) -> (nan: bool)
        ensures
            nan == self.spec_is_nan(),
    {
        self.magnitude_bits() > INFINITY_BITS
    }

    /// The order key as a machine integer.
    pub fn key(self) -> (key: i64)
        ensures
            key == self.order_key(),
    {
        let magnitude: u32 = self.magnitude_bits();
        if self.bits >= SIGN_BIT {
            -(magnitude as i64)
        } else {
            magnitude as i64
        }
    }

    #[verifier::when_used_as_spec(spec_ranks_before)]
    pub fn ranks_before(self, other: Similarity) -> (before: bool)
        ensures
            before == self.spec_ranks_before(other),
    {
        !self.is_nan() && (other.is_nan() || self.key() > other.key())
    }

    #[verifier::when_used_as_spec(spec_ties_with)]
    pub fn ties_with(self, other: Similarity) -> (tie: bool)
        ensures
            tie == self.spec_ties_with(other),
    {
        !self.ranks_before(other) && !other.ranks_before(self)
    }
}

/// Nothing stands ahead of itself, and of two scores at most one stands ahead
/// of the other.
pub proof fn lemma_ranks_before_is_strict(a: Similarity, b: Similarity)
    ensures
        !a.ranks_before(a),
        a.ranks_before(b) ==> !b.ranks_before(a),
{
}

/// Standing ahead carries over: ahead of a score that is itself ahead of a
/// third means ahead of the third.
pub proof fn lemma_ranks_before_is_transitive(a: Similarity, b: Similarity, c: Similarity)
    requires
        a.ranks_before(b),
        b.ranks_before(c),
    ensures
        a.ranks_before(c),
{
}

/// No score ties with both of two scores of which one stands ahead of the
/// other: if `a` stands ahead of `b`, then `a` stands ahead of `c` as well,
/// or `c` stands ahead of `b`.
pub proof fn lemma_ranks_before_splits(a: Similarity, b: Similarity, c: Similarity)
    requires
        a.ranks_before(b),
    ensures
        a.ranks_before(c) || c.ranks_before(b),
{
}

/// Tying is an equivalence: every score ties with itself, ties go both ways,
/// and two scores that tie with a third tie with each other.
pub proof fn lemma_ties_with_is_equivalence(a: Similarity, b: Similarity, c: Similarity)
    ensures
        a.ties_with(a),
        a.ties_with(b) == b.ties_with(a),
        a.ties_with(b) && b.ties_with(c) ==> a.ties_with(c),
{
}

/// What is not a number ranks after every number and ties with everything
/// else that is not a number.
pub proof fn lemma_nan_ranks_last(a: Similarity, b: Similarity)
    requires
        b.is_nan(),
    ensures
        !b.ranks_before(a),
        !a.is_nan() ==> a.ranks_before(b),
        a.is_nan() ==> a.ties_with(b),
{
}

} // verus!
