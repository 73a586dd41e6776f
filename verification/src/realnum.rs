use vstd::prelude::*;

verus! {

/// Bit mask of the sign bit of an IEEE-754 double.
pub const SIGN_MASK: u64 = 0x8000_0000_0000_0000;

/// Bit mask of the magnitude (exponent and fraction) of an IEEE-754 double.
pub const MAG_MASK: u64 = 0x7FFF_FFFF_FFFF_FFFF;

/// Bit mask of the exponent of an IEEE-754 double.
pub const EXP_MASK: u64 = 0x7FF0_0000_0000_0000;

/// Bit mask of the fraction of an IEEE-754 double.
pub const FRAC_MASK: u64 = 0x000F_FFFF_FFFF_FFFF;

/// Bit pattern of 1.0.
pub const ONE_BITS: u64 = 0x3FF0_0000_0000_0000;

/// Bit pattern of positive infinity.
pub const INF_BITS: u64 = 0x7FF0_0000_0000_0000;

/// The magnitude of a double: its bits with the sign bit cleared.
pub open spec fn mag_of(b: u64) -> u64 {
    b & MAG_MASK
}

/// A double is NaN when its exponent bits are all ones and its fraction is not zero.
pub open spec fn is_nan_bits(b: u64) -> bool {
    b & EXP_MASK == EXP_MASK && b & FRAC_MASK != 0
}

/// The order key of a double: non-NaN doubles compare like their keys, and the two
/// zeroes share the key 0, so equal keys mean equal numeric values.
pub open spec fn key_of(b: u64) -> int {
    if b & SIGN_MASK == SIGN_MASK {
        -(mag_of(b) as int)
    } else {
        mag_of(b) as int
    }
}

/// The `<=` relation of doubles: false whenever either side is NaN, and otherwise
/// the order of the keys.
pub open spec fn real_le(a: u64, b: u64) -> bool {
    &&& !is_nan_bits(a)
    &&& !is_nan_bits(b)
    &&& key_of(a) <= key_of(b)
}

/// The `<` relation of doubles: false whenever either side is NaN.
pub open spec fn real_lt(a: u64, b: u64) -> bool {
    &&& !is_nan_bits(a)
    &&& !is_nan_bits(b)
    &&& key_of(a) < key_of(b)
}

/// A double is infinite when its magnitude holds all exponent ones and a zero
/// fraction.
pub open spec fn is_infinite_bits(b: u64) -> bool {
    mag_of(b) == INF_BITS
}

/// The `==` relation of doubles: false whenever either side is NaN, and true of the
/// two zeroes.
pub open spec fn real_eq(a: u64, b: u64) -> bool {
    &&& !is_nan_bits(a)
    &&& !is_nan_bits(b)
    &&& key_of(a) == key_of(b)
}

/// A real number, held as the bit pattern of an IEEE-754 double. The numeric
/// behaviour the library depends on (ordering, NaN-ness) is defined exactly over
/// the bits; arithmetic on the encoded values is left to the callers that own it.
#[derive(Clone, Copy, Debug)]
pub struct Real {
    pub bits: u64,
}

impl Real {
    /// The real with the given double bit pattern.
    pub fn from_bits(bits: u64) -> (r: Real)
        ensures
            r.bits == bits,
    {
        Real { bits }
    }

    /// The bit pattern of this real.
    pub fn to_bits(&self) -> (r: u64)
        ensures
            r == self.bits,
    {
        self.bits
    }

    /// The real holding 0.0.
    pub fn zero() -> (r: Real)
        ensures
            r.bits == 0u64,
            key_of(r.bits) == 0,
            !is_nan_bits(r.bits),
    {
        let r = Real { bits: 0u64 };
        proof {
            assert(0u64 & EXP_MASK == 0u64) by (bit_vector);
            assert(0u64 & SIGN_MASK == 0u64) by (bit_vector);
            assert(0u64 & MAG_MASK == 0u64) by (bit_vector);
        }
        r
    }

    /// The real holding 1.0.
    pub fn one() -> (r: Real)
        ensures
            r.bits == ONE_BITS,
    {
        Real { bits: ONE_BITS }
    }

    /// The real holding positive infinity.
    pub fn infinity() -> (r: Real)
        ensures
            r.bits == INF_BITS,
    {
        Real { bits: INF_BITS }
    }

    /// Whether this real is NaN.
    pub fn is_nan(&self) -> (r: bool)
        ensures
            r == is_nan_bits(self.bits),
    {
        (self.bits & EXP_MASK) == EXP_MASK && (self.bits & FRAC_MASK) != 0
    }

    /// Whether this real is one of the two infinities.
    pub fn is_infinite(&self) -> (r: bool)
        ensures
            r == is_infinite_bits(self.bits),
    {
        (self.bits & MAG_MASK) == INF_BITS
    }

    /// The `<=` test of doubles.
    pub fn le(&self, other: &Real) -> (r: bool)
        ensures
            r == real_le(self.bits, other.bits),
    {
        if self.is_nan() || other.is_nan() {
            return false;
        }
        let ma: u64 = self.bits & MAG_MASK;
        let mb: u64 = other.bits & MAG_MASK;
        if (self.bits & SIGN_MASK) == SIGN_MASK {
            if (other.bits & SIGN_MASK) == SIGN_MASK {
                mb <= ma
            } else {
                true
            }
        } else {
            if (other.bits & SIGN_MASK) == SIGN_MASK {
                ma == 0 && mb == 0
            } else {
                ma <= mb
            }
        }
    }

    /// The `<` test of doubles.
    pub fn lt(&self, other: &Real) -> (r: bool)
        ensures
            r == real_lt(self.bits, other.bits),
    {
        if self.is_nan() || other.is_nan() {
            return false;
        }
        let ma: u64 = self.bits & MAG_MASK;
        let mb: u64 = other.bits & MAG_MASK;
        if (self.bits & SIGN_MASK) == SIGN_MASK {
            if (other.bits & SIGN_MASK) == SIGN_MASK {
                mb < ma
            } else {
                ma != 0 || mb != 0
            }
        } else {
            if (other.bits & SIGN_MASK) == SIGN_MASK {
                false
            } else {
                ma < mb
            }
        }
    }

    /// The `==` test of doubles: value equality, not bit equality.
    pub fn eq_value(&self, other: &Real) -> (r: bool)
        ensures
            r == real_eq(self.bits, other.bits),
    {
        if self.is_nan() || other.is_nan() {
            return false;
        }
        let ma: u64 = self.bits & MAG_MASK;
        let mb: u64 = other.bits & MAG_MASK;
        if (self.bits & SIGN_MASK) == SIGN_MASK {
            if (other.bits & SIGN_MASK) == SIGN_MASK {
                ma == mb
            } else {
                ma == 0 && mb == 0
            }
        } else {
            if (other.bits & SIGN_MASK) == SIGN_MASK {
                ma == 0 && mb == 0
            } else {
                ma == mb
            }
        }
    }
}

} // verus!
