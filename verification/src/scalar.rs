//! Order keys of IEEE-754 doubles.
//!
//! A double's bit pattern is a sign bit over a 63-bit magnitude, and among the
//! numbers a larger magnitude is a larger absolute value. Folding the sign into
//! the integer gives a key with `key(a) < key(b)` exactly when `a < b`, and
//! with one key for both zeros. Keys beyond the two infinities stand for the
//! patterns that are not numbers; as with the doubles, a comparison that
//! involves one of them is false.

use vstd::prelude::*;

verus! {

/// The bit that holds a double's sign.
pub const SIGN_BIT: u64 = 0x8000_0000_0000_0000;

/// The key of positive infinity.
pub const INFINITY_KEY: i64 = 0x7FF0_0000_0000_0000;

/// The key of negative infinity.
pub const NEG_INFINITY_KEY: i64 = -0x7FF0_0000_0000_0000;

/// The key of the double 1.
pub const ONE_KEY: i64 = 0x3FF0_0000_0000_0000;

/// A double, held by its order key.
#[derive(Clone, Copy, Debug, PartialEq, Eq, Structural)]
pub struct Scalar {
    pub key: i64,
}

/// The key of a bit pattern: the magnitude, negated where the sign bit is set.
pub open spec fn key_of_bits(bits: u64) -> int {
    if bits < SIGN_BIT {
        bits as int
    } else {
        SIGN_BIT - bits
    }
}

/// The bit pattern of a key: the magnitude, with the sign bit for a negative
/// key. The least key has a magnitude of one bit too many; it shares the
/// pattern of the key above it, which is no number either.
pub open spec fn bits_of_key(key: i64) -> u64 {
    if key >= 0 {
        key as u64
    } else if key == i64::MIN {
        u64::MAX
    } else {
        (SIGN_BIT - key) as u64
    }
}

impl Scalar {
    /// The key is that of a bit pattern: every key but the least.
    pub open spec fn has_bits(self) -> bool {
        self.key > i64::MIN
    }

    /// The key stands for a number: it lies between the two infinities.
    pub open spec fn is_number(self) -> bool {
        NEG_INFINITY_KEY <= self.key <= INFINITY_KEY
    }

    /// The scalar of a double's bit pattern.
    pub fn from_bits(bits: u64) -> (s: Scalar)
        ensures
            s.key == key_of_bits(bits),
            s.has_bits(),
    {
        if bits < SIGN_BIT {
            Scalar { key: bits as i64 }
        } else {
            let magnitude: u64 = bits - SIGN_BIT;
            Scalar { key: 0 - (magnitude as i64) }
        }
    }

    /// The bit pattern of the double that the scalar stands for; the zero key
    /// gives positive zero.
    pub fn to_bits(self) -> (bits: u64)
        ensures
            bits == bits_of_key(self.key),
    {
        if self.key >= 0 {
            self.key as u64
        } else if self.key == i64::MIN {
            u64::MAX
        } else {
            let magnitude: i64 = 0 - self.key;
            SIGN_BIT + (magnitude as u64)
        }
    }

    /// The double 0.
    pub fn zero() -> (s: Scalar)
        ensures
            s.key == 0,
    {
        Scalar { key: 0 }
    }

    /// The double 1.
    pub fn one() -> (s: Scalar)
        ensures
            s.key == ONE_KEY,
    {
        Scalar { key: ONE_KEY }
    }

    /// Positive infinity.
    pub fn infinity() -> (s: Scalar)
        ensures
            s.key == INFINITY_KEY,
    {
        Scalar { key: INFINITY_KEY }
    }

    /// Negative infinity.
    pub fn neg_infinity() -> (s: Scalar)
        ensures
            s.key == NEG_INFINITY_KEY,
    {
        Scalar { key: NEG_INFINITY_KEY }
    }

    /// `self < other` as the doubles compare.
    pub fn lt(self, other: Scalar) -> (b: bool)
        ensures
            b == less(self, other),
    {
        self.numeric() && other.numeric() && self.key < other.key
    }

    /// `self <= other` as the doubles compare.
    pub fn le(self, other: Scalar) -> (b: bool)
        ensures
            b == less_eq(self, other),
    {
        self.numeric() && other.numeric() && self.key <= other.key
    }

    /// Whether the scalar stands for a number.
    pub fn numeric(self) -> (b: bool)
        ensures
            b == self.is_number(),
    {
        NEG_INFINITY_KEY <= self.key && self.key <= INFINITY_KEY
    }

    /// The scalar of the opposite sign.
    pub fn neg(self) -> (s: Scalar)
        ensures
            s == negated(self),
    {
        if self.key == i64::MIN {
            self
        } else {
            Scalar { key: 0 - self.key }
        }
    }

    /// The absolute value.
    pub fn abs(self) -> (s: Scalar)
        ensures
            s == (if self.key < 0 {
                negated(self)
            } else {
                self
            }),
    {
        if self.key < 0 {
            self.neg()
        } else {
            self
        }
    }

    /// The smaller of two scalars; `self` where they do not compare.
    pub fn min(self, other: Scalar) -> (s: Scalar)
        ensures
            s == lesser(self, other),
    {
        if other.lt(self) {
            other
        } else {
            self
        }
    }

    /// The larger of two scalars; `self` where they do not compare.
    pub fn max(self, other: Scalar) -> (s: Scalar)
        ensures
            s == greater(self, other),
    {
        if self.lt(other) {
            other
        } else {
            self
        }
    }
}

/// `a < b` as the doubles compare: both are numbers and the keys are in order.
pub open spec fn less(a: Scalar, b: Scalar) -> bool {
    a.is_number() && b.is_number() && a.key < b.key
}

/// `a <= b` as the doubles compare.
pub open spec fn less_eq(a: Scalar, b: Scalar) -> bool {
    a.is_number() && b.is_number() && a.key <= b.key
}

/// The scalar of the opposite sign: the negated key. The least key, which is
/// that of no bit pattern, stays as it is.
pub open spec fn negated(a: Scalar) -> Scalar {
    if a.key == i64::MIN {
        a
    } else {
        Scalar { key: (-a.key) as i64 }
    }
}

/// The smaller of two scalars; the first where they do not compare.
pub open spec fn lesser(a: Scalar, b: Scalar) -> Scalar {
    if less(b, a) {
        b
    } else {
        a
    }
}

/// The larger of two scalars; the first where they do not compare.
pub open spec fn greater(a: Scalar, b: Scalar) -> Scalar {
    if less(a, b) {
        b
    } else {
        a
    }
}

/// A bit pattern comes back from its key unchanged, negative zero apart, which
/// comes back as positive zero.
pub proof fn lemma_bits_round_trip(bits: u64)
    ensures
        bits != SIGN_BIT ==> bits_of_key(key_of_bits(bits) as i64) == bits,
        bits == SIGN_BIT ==> bits_of_key(key_of_bits(bits) as i64) == 0,
{
}

/// A key with a bit pattern comes back from that pattern unchanged.
pub proof fn lemma_key_round_trip(s: Scalar)
    requires
        s.has_bits(),
    ensures
        key_of_bits(bits_of_key(s.key)) == s.key,
{
}

/// Among patterns of one sign the key keeps or reverses the order of the
/// magnitudes, and every pattern with the sign bit has a key at or below every
/// pattern without it.
pub proof fn lemma_key_order(a: u64, b: u64)
    ensures
        a < SIGN_BIT && b < SIGN_BIT ==> (key_of_bits(a) < key_of_bits(b) <==> a < b),
        a >= SIGN_BIT && b >= SIGN_BIT ==> (key_of_bits(a) < key_of_bits(b) <==> a > b),
        a >= SIGN_BIT && b < SIGN_BIT ==> key_of_bits(a) <= key_of_bits(b),
{
}

} // verus!
