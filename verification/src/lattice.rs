//! The wrap of a coordinate into the unit cell of the sphere lattice.
//!
//! A coordinate is wrapped to the fractional part of its absolute value, so
//! that the lattice is the same on both sides of zero.

use vstd::prelude::*;
use vstd::arithmetic::power2::{
    lemma2_to64,
    lemma_pow2_adds,
    lemma_pow2_pos,
    lemma_pow2_strictly_increases,
    pow2,
};
use crate::scalar::{lemma_magnitude_order, unit, Scalar, HIDDEN_BIT, INFINITY_BITS, SIGN_BIT};

verus! {

/// Encoding of the NaN that wrapping an infinity or a NaN gives.
pub const NAN_BITS: u32 = 0x7fc0_0000;

/// `wrapped` is the wrap of `coordinate`: the fractional part of its
/// absolute value, which a binary32 number holds exactly; a NaN where the
/// coordinate is infinite or a NaN.
pub open spec fn wraps_to(coordinate: Scalar, wrapped: Scalar) -> bool {
    if coordinate.magnitude() >= INFINITY_BITS {
        wrapped.is_nan()
    } else {
        &&& !wrapped.is_nan()
        &&& !wrapped.sign_negative()
        &&& wrapped.scaled() == coordinate.scaled_magnitude() % unit()
    }
}

/// Wraps a coordinate into the unit cell.
pub fn wrap(coordinate: Scalar) -> (wrapped: Scalar)
    ensures
        wraps_to(coordinate, wrapped),
        coordinate.magnitude() >= INFINITY_BITS ==> wrapped.bits == NAN_BITS,
{
    let m: u32 = if coordinate.bits >= SIGN_BIT {
        coordinate.bits - SIGN_BIT
    } else {
        coordinate.bits
    };
    if m >= INFINITY_BITS {
        return Scalar { bits: NAN_BITS };
    }
    let e: u32 = m / HIDDEN_BIT;
    if e < 127 {
        proof {
            lemma_below_one_is_kept(coordinate, Scalar { bits: m });
        }
        return Scalar { bits: m };
    }
    if e >= 150 {
        proof {
            lemma_whole_number(coordinate);
        }
        return Scalar { bits: 0 };
    }
    let sig: u32 = HIDDEN_BIT + m % HIDDEN_BIT;
    let shift: u32 = 150 - e;
    let cell: u32 = 1u32 << shift;
    proof {
        lemma2_to64();
        lemma_pow2_pos(shift as nat);
        if shift < 23 {
            lemma_pow2_strictly_increases(shift as nat, 23);
        }
        vstd::bits::lemma_u32_shl_is_mul(1, shift);
    }
    let part: u32 = sig % cell;
    proof {
        lemma_fraction_of(coordinate, part as int);
    }
    if part == 0 {
        assert(part * pow2((e - 1) as nat) == 0) by (nonlinear_arith)
            requires
                part == 0,
        ;
        return Scalar { bits: 0 };
    }
    let mut f: u32 = part;
    let mut ex: u32 = e;
    let ghost mut n: nat = 0;
    proof {
        lemma2_to64();
    }
    while f < HIDDEN_BIT
        invariant
            127 <= e < 150,
            1 <= part < HIDDEN_BIT,
            n <= 23,
            f == part * pow2(n),
            1 <= f,
            ex + n == e,
            f < 2 * HIDDEN_BIT,
        decreases 2 * HIDDEN_BIT - f,
    {
        proof {
            lemma_pow2_adds(n, 1);
            lemma2_to64();
            assert(part * pow2(n + 1) == 2 * (part * pow2(n))) by (nonlinear_arith)
                requires
                    pow2(n + 1) == pow2(n) * 2,
            ;
            if n >= 23 {
                lemma_pow2_pos(n);
                if n > 23 {
                    lemma_pow2_strictly_increases(23, n);
                }
                assert(part * pow2(n) >= pow2(n)) by (nonlinear_arith)
                    requires
                        part >= 1,
                        pow2(n) > 0,
                ;
            }
            n = n + 1;
        }
        f = f * 2;
        ex = ex - 1;
    }
    let wrapped = Scalar { bits: ex * HIDDEN_BIT + (f - HIDDEN_BIT) };
    proof {
        lemma_normalised(wrapped, part as int, e as int, n);
    }
    wrapped
}

/// The wrap does not depend on the sign of the coordinate: the lattice is
/// symmetric about zero.
pub proof fn lemma_wrap_is_symmetric(left: Scalar, right: Scalar, wrapped: Scalar)
    requires
        left.magnitude() == right.magnitude(),
    ensures
        wraps_to(left, wrapped) == wraps_to(right, wrapped),
{
    lemma_magnitude_order(left, right);
}

/// A wrapped finite coordinate lies in the unit cell: it is at least zero and
/// less than one, and differs from the absolute value of the coordinate by a
/// whole number.
pub proof fn lemma_wrap_is_in_cell(coordinate: Scalar, wrapped: Scalar)
    requires
        coordinate.magnitude() < INFINITY_BITS,
        wraps_to(coordinate, wrapped),
    ensures
        0 <= wrapped.scaled() < unit(),
        coordinate.scaled_magnitude() == coordinate.truncated() * unit() + wrapped.scaled(),
{
    lemma_pow2_pos(149);
    lemma_magnitude_order(coordinate, coordinate);
    vstd::arithmetic::div_mod::lemma_fundamental_div_mod(coordinate.scaled_magnitude(), unit());
    vstd::arithmetic::div_mod::lemma_mod_bound(coordinate.scaled_magnitude(), unit());
    assert(unit() * coordinate.truncated() == coordinate.truncated() * unit()) by (nonlinear_arith);
}

/// An absolute value below one is its own fractional part.
proof fn lemma_below_one_is_kept(coordinate: Scalar, kept: Scalar)
    requires
        kept.bits == coordinate.magnitude(),
        coordinate.exponent() < 127,
    ensures
        wraps_to(coordinate, kept),
{
    lemma2_to64();
    lemma_pow2_pos(149);
    assert(kept.magnitude() == coordinate.magnitude());
    lemma_magnitude_order(coordinate, kept);
    let limit = Scalar { bits: 0x3f80_0000 };
    assert(limit.exponent() == 127 && limit.fraction() == 0);
    assert(limit.scaled_magnitude() == unit()) by {
        lemma_pow2_adds(23, 126);
    }
    lemma_magnitude_order(coordinate, limit);
    vstd::arithmetic::div_mod::lemma_small_mod(
        coordinate.scaled_magnitude() as nat,
        unit() as nat,
    );
}

/// From two to the power 23 on, every finite number is whole.
proof fn lemma_whole_number(coordinate: Scalar)
    requires
        150 <= coordinate.exponent(),
    ensures
        coordinate.scaled_magnitude() % unit() == 0,
{
    let e = coordinate.exponent();
    let p = pow2((e - 150) as nat) as int;
    lemma_pow2_adds((e - 150) as nat, 149);
    lemma_pow2_pos(149);
    let sig = coordinate.significand();
    assert(coordinate.scaled_magnitude() == (sig * p) * unit()) by (nonlinear_arith)
        requires
            coordinate.scaled_magnitude() == sig * pow2((e - 1) as nat),
            pow2((e - 1) as nat) == p * unit(),
    ;
    vstd::arithmetic::div_mod::lemma_mod_multiples_basic(sig * p, unit());
}

/// Between one and two to the power 23, the fractional part is the low bits
/// of the significand.
proof fn lemma_fraction_of(coordinate: Scalar, part: int)
    requires
        127 <= coordinate.exponent() < 150,
        part == coordinate.significand() % (pow2((150 - coordinate.exponent()) as nat) as int),
    ensures
        coordinate.scaled_magnitude() % unit() == part * pow2((coordinate.exponent() - 1) as nat),
{
    let e = coordinate.exponent();
    let sig = coordinate.significand();
    let p = pow2((e - 1) as nat) as int;
    let q = pow2((150 - e) as nat) as int;
    lemma_pow2_pos((e - 1) as nat);
    lemma_pow2_pos((150 - e) as nat);
    lemma_pow2_adds((e - 1) as nat, (150 - e) as nat);
    vstd::arithmetic::div_mod::lemma_truncate_middle(sig, p, q);
    assert(sig * p == p * sig && part * p == p * part) by (nonlinear_arith);
}

/// The normalised encoding of `part` times two to the power `e - 1`.
proof fn lemma_normalised(wrapped: Scalar, part: int, e: int, n: nat)
    requires
        127 <= e < 150,
        n <= 23,
        HIDDEN_BIT <= part * pow2(n) < 2 * HIDDEN_BIT,
        wrapped.bits == (e - n) * HIDDEN_BIT + (part * pow2(n) - HIDDEN_BIT),
    ensures
        !wrapped.is_nan(),
        !wrapped.sign_negative(),
        wrapped.scaled() == part * pow2((e - 1) as nat),
{
    let h = HIDDEN_BIT as int;
    let f = part * pow2(n);
    let ex = e - n;
    assert(wrapped.bits == h * ex + (f - h)) by (nonlinear_arith)
        requires
            wrapped.bits == ex * h + (f - h),
    ;
    vstd::arithmetic::div_mod::lemma_fundamental_div_mod_converse(
        wrapped.bits as int,
        h,
        ex,
        f - h,
    );
    assert(wrapped.exponent() == ex && wrapped.fraction() == f - h);
    assert(wrapped.significand() == f);
    lemma_pow2_adds(n, (ex - 1) as nat);
    assert(f * pow2((ex - 1) as nat) == part * pow2((e - 1) as nat)) by (nonlinear_arith)
        requires
            f == part * pow2(n),
            pow2((e - 1) as nat) == pow2(n) * pow2((ex - 1) as nat),
    ;
}

} // verus!
