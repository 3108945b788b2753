//! Single-precision numbers held by their IEEE 754 binary32 encoding.
//!
//! The arithmetic of these numbers is left to the host.  What is done with
//! them here is exact and reads only the encoding: two of them are ordered,
//! the sign is tested, one is truncated to a byte.  Each of these is stated
//! over the exact value that the encoding stands for.

use vstd::prelude::*;
use vstd::arithmetic::mul::{
    lemma_mul_inequality,
    lemma_mul_is_commutative,
    lemma_mul_strict_inequality,
};
use vstd::arithmetic::power2::{
    lemma2_to64,
    lemma_pow2_adds,
    lemma_pow2_pos,
    lemma_pow2_strictly_increases,
    pow2,
};

verus! {

/// The sign bit of an encoding.
pub const SIGN_BIT: u32 = 0x8000_0000;

/// The encoding of positive infinity; every larger magnitude is a NaN.
pub const INFINITY_BITS: u32 = 0x7f80_0000;

/// The implicit leading bit of a normal significand, two to the power 23.
pub const HIDDEN_BIT: u32 = 0x0080_0000;

/// A binary32 number, by its bits.
#[derive(Clone, Copy, Debug)]
pub struct Scalar {
    pub bits: u32,
}

impl Scalar {
    /// The sign bit is set (also true of negative zero and of some NaNs).
    pub open spec fn sign_negative(self) -> bool {
        self.bits >= SIGN_BIT
    }

    /// The encoding without its sign bit.
    pub open spec fn magnitude(self) -> int {
        if self.bits >= SIGN_BIT {
            self.bits - SIGN_BIT
        } else {
            self.bits as int
        }
    }

    /// Not a number: the exponent field is all ones and the fraction is not zero.
    pub open spec fn is_nan(self) -> bool {
        self.magnitude() > INFINITY_BITS
    }

    /// The biased exponent field, from 0 to 255.
    pub open spec fn exponent(self) -> int {
        self.magnitude() / (HIDDEN_BIT as int)
    }

    /// The fraction field, below two to the power 23.
    pub open spec fn fraction(self) -> int {
        self.magnitude() % (HIDDEN_BIT as int)
    }

    /// The significand as an integer: the fraction, with the hidden bit for a
    /// normal number.
    pub open spec fn significand(self) -> int {
        if self.exponent() == 0 {
            self.fraction()
        } else {
            HIDDEN_BIT + self.fraction()
        }
    }

    /// The absolute value times two to the power 149, which is an integer:
    /// the least positive binary32 number is two to the power -149.  Infinity
    /// is given the value its encoding would have as a normal number, above
    /// every finite one.
    pub open spec fn scaled_magnitude(self) -> int {
        if self.exponent() == 0 {
            self.significand()
        } else {
            self.significand() * pow2((self.exponent() - 1) as nat)
        }
    }

    /// The value times two to the power 149.  Both zeros give 0.
    pub open spec fn scaled(self) -> int {
        if self.sign_negative() {
            -self.scaled_magnitude()
        } else {
            self.scaled_magnitude()
        }
    }

    /// `self < other` as IEEE 754 orders them: false when either is a NaN.
    pub open spec fn less_than(self, other: Scalar) -> bool {
        !self.is_nan() && !other.is_nan() && self.scaled() < other.scaled()
    }

    /// `self <= other` as IEEE 754 orders them: false when either is a NaN.
    pub open spec fn at_most(self, other: Scalar) -> bool {
        !self.is_nan() && !other.is_nan() && self.scaled() <= other.scaled()
    }

    /// The number is greater than zero (and so not a NaN).
    pub open spec fn is_positive(self) -> bool {
        !self.is_nan() && self.scaled() > 0
    }
}

/// A larger magnitude encodes a larger absolute value.
pub proof fn lemma_magnitude_orders_value(a: Scalar, b: Scalar)
    requires
        a.magnitude() < b.magnitude(),
    ensures
        a.scaled_magnitude() < b.scaled_magnitude(),
{
    let ea = a.exponent();
    let eb = b.exponent();
    let fa = a.fraction();
    let fb = b.fraction();
    let h = HIDDEN_BIT as int;
    assert(a.magnitude() == h * ea + fa && b.magnitude() == h * eb + fb) by {
        vstd::arithmetic::div_mod::lemma_fundamental_div_mod(a.magnitude(), h);
        vstd::arithmetic::div_mod::lemma_fundamental_div_mod(b.magnitude(), h);
    }
    assert(0 <= fa < h && 0 <= fb < h);
    assert(0 <= ea && ea <= eb) by {
        vstd::arithmetic::div_mod::lemma_div_is_ordered(a.magnitude(), b.magnitude(), h);
    }
    if ea == eb {
        assert(fa < fb);
        if ea > 0 {
            let p = pow2((ea - 1) as nat) as int;
            lemma_pow2_pos((ea - 1) as nat);
            lemma_mul_strict_inequality(h + fa, h + fb, p);
        }
    } else {
        let q = pow2((eb - 1) as nat) as int;
        lemma_pow2_pos((eb - 1) as nat);
        assert(b.scaled_magnitude() >= h * q) by {
            lemma_mul_inequality(h, h + fb, q);
        }
        if ea == 0 {
            assert(h * q >= h) by (nonlinear_arith)
                requires
                    q >= 1,
                    h > 0,
            ;
        } else {
            let p = pow2((ea - 1) as nat) as int;
            lemma_pow2_pos((ea - 1) as nat);
            assert(a.scaled_magnitude() < (2 * h) * p) by {
                lemma_mul_strict_inequality(h + fa, 2 * h, p);
            }
            assert(2 * p <= q) by {
                lemma_pow2_adds((ea - 1) as nat, 1);
                lemma2_to64();
                if ea < eb - 1 {
                    lemma_pow2_strictly_increases(ea as nat, (eb - 1) as nat);
                }
            }
            assert((2 * h) * p <= h * q) by (nonlinear_arith)
                requires
                    2 * p <= q,
                    h > 0,
            ;
        }
    }
}

/// The encoding orders absolute values: magnitudes compare as the values do,
/// and no absolute value is negative.
pub proof fn lemma_magnitude_order(a: Scalar, b: Scalar)
    ensures
        a.magnitude() < b.magnitude() <==> a.scaled_magnitude() < b.scaled_magnitude(),
        a.magnitude() == b.magnitude() <==> a.scaled_magnitude() == b.scaled_magnitude(),
        a.scaled_magnitude() >= 0,
        a.magnitude() == 0 <==> a.scaled_magnitude() == 0,
{
    if a.magnitude() < b.magnitude() {
        lemma_magnitude_orders_value(a, b);
    } else if b.magnitude() < a.magnitude() {
        lemma_magnitude_orders_value(b, a);
    }
    let zero = Scalar { bits: 0 };
    assert(zero.scaled_magnitude() == 0);
    if a.magnitude() > 0 {
        lemma_magnitude_orders_value(zero, a);
    }
}

impl Scalar {
    /// The number with the given encoding.
    pub fn from_bits(bits: u32) -> (s: Scalar)
        ensures
            s.bits == bits,
    {
        Scalar { bits }
    }

    /// The encoding of the number.
    pub fn to_bits(self) -> (bits: u32)
        ensures
            bits == self.bits,
    {
        self.bits
    }

    fn magnitude_bits(self) -> (m: u32)
        ensures
            m == self.magnitude(),
    {
        if self.bits >= SIGN_BIT {
            self.bits - SIGN_BIT
        } else {
            self.bits
        }
    }

    /// Whether the number is a NaN.
    pub fn nan(self) -> (r: bool)
        ensures
            r == self.is_nan(),
    {
        self.magnitude_bits() > INFINITY_BITS
    }

    /// Whether `self < other`; false when either is a NaN.
    pub fn lt(self, other: Scalar) -> (r: bool)
        ensures
            r == self.less_than(other),
    {
        if self.nan() || other.nan() {
            return false;
        }
        proof {
            lemma_magnitude_order(self, other);
            lemma_magnitude_order(other, self);
        }
        let a: u32 = self.magnitude_bits();
        let b: u32 = other.magnitude_bits();
        if self.bits >= SIGN_BIT {
            if other.bits >= SIGN_BIT {
                b < a
            } else {
                a != 0 || b != 0
            }
        } else {
            if other.bits >= SIGN_BIT {
                false
            } else {
                a < b
            }
        }
    }

    /// Whether `self <= other`; false when either is a NaN.
    pub fn le(self, other: Scalar) -> (r: bool)
        ensures
            r == self.at_most(other),
    {
        if self.nan() || other.nan() {
            return false;
        }
        !other.lt(self)
    }

    /// Whether the number is greater than zero.
    pub fn positive(self) -> (r: bool)
        ensures
            r == self.is_positive(),
    {
        proof {
            lemma_magnitude_order(self, self);
        }
        0 < self.bits && self.bits <= INFINITY_BITS
    }
}

/// Two to the power 149: the factor between a value and its scaled form.
pub open spec fn unit() -> int {
    pow2(149) as int
}

impl Scalar {
    /// The integer part of the absolute value.
    pub open spec fn truncated(self) -> int {
        self.scaled_magnitude() / unit()
    }

    /// The value truncated toward zero and clamped to the range of a byte;
    /// a NaN gives 0.
    pub open spec fn byte_value(self) -> int {
        if self.is_nan() || self.sign_negative() {
            0
        } else if self.truncated() > 255 {
            255
        } else {
            self.truncated()
        }
    }

    /// Truncates the number toward zero and clamps it to `0..=255`.
    pub fn to_byte(self) -> (b: u8)
        ensures
            b == self.byte_value(),
    {
        if self.bits >= SIGN_BIT || self.bits > INFINITY_BITS {
            return 0;
        }
        let e: u32 = self.bits / HIDDEN_BIT;
        let sig: u32 = HIDDEN_BIT + self.bits % HIDDEN_BIT;
        if e < 127 {
            proof {
                lemma_truncated_below_one(self);
            }
            0
        } else if e >= 135 {
            proof {
                lemma_truncated_above_byte(self);
            }
            255
        } else {
            let shift: u32 = 150 - e;
            let t: u32 = sig >> shift;
            proof {
                lemma_truncated_is_shift(self);
                vstd::bits::lemma_u32_shr_is_div(sig, shift);
                lemma_pow2_values();
                assert(t < 256) by {
                    assert(pow2(shift as nat) >= 0x10000) by {
                        if shift > 16 {
                            lemma_pow2_strictly_increases(16, shift as nat);
                        }
                    }
                    assert(sig < 0x100_0000);
                    vstd::arithmetic::div_mod::lemma_div_is_ordered_by_denominator(
                        sig as int,
                        0x10000,
                        pow2(shift as nat) as int,
                    );
                }
            }
            t as u8
        }
    }
}

proof fn lemma_pow2_values()
    ensures
        pow2(0) == 1,
        pow2(8) == 0x100,
        pow2(16) == 0x10000,
        pow2(23) == 0x80_0000,
        pow2(24) == 0x100_0000,
{
    lemma2_to64();
}

/// With an exponent field below 127 the absolute value is below one.
proof fn lemma_truncated_below_one(s: Scalar)
    requires
        s.exponent() < 127,
    ensures
        s.truncated() == 0,
{
    let e = s.exponent();
    let sig = s.significand();
    lemma_pow2_values();
    lemma_pow2_pos(149);
    assert(0 <= sig < 0x100_0000);
    assert(s.scaled_magnitude() < unit()) by {
        if e == 0 {
            lemma_pow2_strictly_increases(23, 149);
        } else {
            let p = pow2((e - 1) as nat) as int;
            lemma_pow2_pos((e - 1) as nat);
            lemma_mul_strict_inequality(sig, 0x100_0000, p);
            lemma_pow2_adds(24, (e - 1) as nat);
            if e + 23 < 149 {
                lemma_pow2_strictly_increases((e + 23) as nat, 149);
            }
        }
    }
    lemma_magnitude_order(s, s);
    vstd::arithmetic::div_mod::lemma_basic_div(s.scaled_magnitude(), unit());
}

/// With an exponent field of 135 or more the absolute value is at least 256.
proof fn lemma_truncated_above_byte(s: Scalar)
    requires
        s.exponent() >= 135,
    ensures
        s.truncated() > 255,
{
    let e = s.exponent();
    let sig = s.significand();
    let p = pow2((e - 1) as nat) as int;
    lemma_pow2_values();
    lemma_pow2_pos(149);
    lemma_pow2_pos((e - 1) as nat);
    assert(sig >= 0x80_0000);
    assert(s.scaled_magnitude() >= 0x80_0000 * p) by {
        lemma_mul_inequality(0x80_0000, sig, p);
    }
    assert(0x80_0000 * p >= 256 * unit()) by {
        lemma_pow2_adds(23, (e - 1) as nat);
        lemma_pow2_adds(8, 149);
        if e + 22 > 157 {
            lemma_pow2_strictly_increases(157, (e + 22) as nat);
        }
    }
    vstd::arithmetic::div_mod::lemma_div_is_ordered(256 * unit(), s.scaled_magnitude(), unit());
    vstd::arithmetic::div_mod::lemma_div_multiples_vanish(256, unit());
}

/// Between the two, the integer part is the significand shifted right.
proof fn lemma_truncated_is_shift(s: Scalar)
    requires
        127 <= s.exponent() < 135,
    ensures
        s.truncated() == s.significand() / (pow2((150 - s.exponent()) as nat) as int),
{
    let e = s.exponent();
    let sig = s.significand();
    let p = pow2((e - 1) as nat) as int;
    let q = pow2((150 - e) as nat) as int;
    lemma_pow2_pos((e - 1) as nat);
    lemma_pow2_pos((150 - e) as nat);
    lemma_pow2_adds((e - 1) as nat, (150 - e) as nat);
    assert(p * q == unit());
    assert(sig >= 0);
    vstd::arithmetic::div_mod::lemma_div_multiples_vanish_quotient(p, sig, q);
    lemma_mul_is_commutative(sig, p);
}

} // verus!
