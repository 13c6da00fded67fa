//! Similarity scores and the order in which they rank.
//!
//! A score is kept as the 64 bits of an IEEE 754 double-precision number: one
//! sign bit, eleven exponent bits, fifty-two fraction bits. The order of two
//! numbers can be read from these bits alone, which is all the ranking needs.

use vstd::prelude::*;

verus! {

/// The bit that holds the sign.
pub const SIGN_BIT: u64 = 0x8000_0000_0000_0000;

/// The bits of positive infinity: every bit pattern whose magnitude is larger
/// is not a number.
pub const INFINITY_BITS: u64 = 0x7FF0_0000_0000_0000;

/// A similarity score, held as the bits of a double-precision number.
#[derive(Clone, Copy, Debug)]
pub struct Score {
    pub bits: u64,
}

impl Score {
    /// The bits without the sign.
    pub open spec fn magnitude(self) -> int {
        if self.bits >= SIGN_BIT {
            self.bits - SIGN_BIT
        } else {
            self.bits as int
        }
    }

    /// Whether the sign bit is set.
    pub open spec fn is_negative(self) -> bool {
        self.bits >= SIGN_BIT
    }

    /// Whether the bits stand for no number.
    pub open spec fn is_nan(self) -> bool {
        self.magnitude() > INFINITY_BITS
    }

    /// An integer that orders scores as their numbers are ordered: a positive
    /// number has its magnitude as key, a negative one the negated magnitude,
    /// so both zeros have the key 0 and rank alike. What is not a number has a
    /// key below that of every number, negative infinity included.
    pub open spec fn rank_key(self) -> int {
        if self.is_nan() {
            -(SIGN_BIT as int)
        } else if self.is_negative() {
            -self.magnitude()
        } else {
            self.magnitude()
        }
    }

    /// Whether this score ranks strictly above `other`.
    pub open spec fn outranks(self, other: Score) -> bool {
        self.rank_key() > other.rank_key()
    }

    /// The score with the given bits.
    pub fn from_bits(bits: u64) -> (score: Score)
        ensures
            score.bits == bits,
    {
        Score { bits }
    }

    /// The bits of the score.
    pub fn to_bits(&self) -> (bits: u64)
        ensures
            bits == self.bits,
    {
        self.bits
    }

    /// Tells whether the bits stand for no number.
    pub fn not_a_number(&self) -> (b: bool)
        ensures
            b == self.is_nan(),
    {
        let magnitude: u64 = if self.bits >= SIGN_BIT {
            self.bits - SIGN_BIT
        } else {
            self.bits
        };
        magnitude > INFINITY_BITS
    }

    /// Computes the key by which the score is ranked.
    pub fn key(&self) -> (key: i64)
        ensures
            key == self.rank_key(),
    {
        let magnitude: u64 = if self.bits >= SIGN_BIT {
            self.bits - SIGN_BIT
        } else {
            self.bits
        };
        if magnitude > INFINITY_BITS {
            i64::MIN
        } else if self.bits >= SIGN_BIT {
            -(magnitude as i64)
        } else {
            magnitude as i64
        }
    }

    /// Tells whether this score ranks strictly above `other`.
    pub fn beats(&self, other: &Score) -> (b: bool)
        ensures
            b == self.outranks(*other),
    {
        self.key() > other.key()
    }
}

/// Scores rank like their keys, so ranking is a total preorder: of two scores
/// at most one outranks the other, and outranking carries over a chain.
pub proof fn lemma_outranks_is_strict_order(a: Score, b: Score, c: Score)
    ensures
        !a.outranks(a),
        a.outranks(b) ==> !b.outranks(a),
        a.outranks(b) && b.outranks(c) ==> a.outranks(c),
        !a.outranks(b) && !b.outranks(c) ==> !a.outranks(c),
{
}

/// How the keys lie: numbers between the two infinities, both zeros at 0, and
/// whatever is not a number below all of them.
pub proof fn lemma_key_layout(s: Score)
    ensures
        s.is_nan() <==> s.rank_key() == -(SIGN_BIT as int),
        !s.is_nan() ==> -(INFINITY_BITS as int) <= s.rank_key() <= INFINITY_BITS,
        s.bits == 0 || s.bits == SIGN_BIT ==> s.rank_key() == 0,
        !s.is_nan() && !s.is_negative() ==> s.rank_key() == s.bits,
{
}

} // verus!
