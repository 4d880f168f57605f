//! Bit-level model of IEEE-754 binary floating point.
//!
//! Floating-point columns and scalars are carried as their raw bit patterns
//! (`u64` for the 64-bit format, `u32` for the 32-bit one).  Comparison,
//! minimum and maximum are defined here over those bit patterns, following
//! the IEEE-754 rules: NaN compares as unordered, and the two zeroes are
//! equal.  Every non-NaN pattern is mapped to an integer key that is
//! strictly monotone in the represented value, so that all ordering facts
//! reduce to integer comparisons.

use vstd::prelude::*;
use vstd::arithmetic::power2::{
    pow2, lemma_pow2_adds, lemma_pow2_unfold, lemma_pow2_strictly_increases, lemma2_to64,
    lemma2_to64_rest,
};
use vstd::arithmetic::div_mod::{
    lemma_div_denominator, lemma_div_is_ordered, lemma_fundamental_div_mod,
};

verus! {

/// Sign bit of the 64-bit format.
pub const F64_SIGN: u64 = 0x8000_0000_0000_0000;

/// Exponent field of the 64-bit format.
pub const F64_EXP: u64 = 0x7FF0_0000_0000_0000;

/// Fraction field of the 64-bit format.
pub const F64_FRAC: u64 = 0x000F_FFFF_FFFF_FFFF;

/// Magnitude (everything but the sign) of the 64-bit format.
pub const F64_MAG: u64 = 0x7FFF_FFFF_FFFF_FFFF;

/// Sign bit of the 32-bit format.
pub const F32_SIGN: u32 = 0x8000_0000;

/// Exponent field of the 32-bit format.
pub const F32_EXP: u32 = 0x7F80_0000;

/// Fraction field of the 32-bit format.
pub const F32_FRAC: u32 = 0x007F_FFFF;

/// Magnitude (everything but the sign) of the 32-bit format.
pub const F32_MAG: u32 = 0x7FFF_FFFF;

/// A 64-bit pattern denotes NaN when the exponent is all ones and the
/// fraction is non-zero.
pub open spec fn f64_is_nan(b: u64) -> bool {
    b & F64_EXP == F64_EXP && b & F64_FRAC != 0
}

/// Ordering key of a non-NaN 64-bit pattern: the magnitude, negated for
/// negative numbers.  Both zeroes map to key 0; otherwise the key is
/// strictly monotone in the represented value.
pub open spec fn f64_key(b: u64) -> int {
    if b & F64_SIGN != 0 {
        -((b & F64_MAG) as int)
    } else {
        (b & F64_MAG) as int
    }
}

/// IEEE equality of two 64-bit patterns (false when either is NaN).
pub open spec fn f64_eq(a: u64, b: u64) -> bool {
    !f64_is_nan(a) && !f64_is_nan(b) && f64_key(a) == f64_key(b)
}

/// IEEE strict less-than of two 64-bit patterns (false when either is NaN).
pub open spec fn f64_lt(a: u64, b: u64) -> bool {
    !f64_is_nan(a) && !f64_is_nan(b) && f64_key(a) < f64_key(b)
}

/// IEEE less-or-equal of two 64-bit patterns (false when either is NaN).
pub open spec fn f64_le(a: u64, b: u64) -> bool {
    !f64_is_nan(a) && !f64_is_nan(b) && f64_key(a) <= f64_key(b)
}

/// Minimum of two 64-bit patterns: a NaN operand is ignored in favour of
/// the other; on a tie the left operand is kept.
pub open spec fn f64_min(a: u64, b: u64) -> u64 {
    if f64_is_nan(a) {
        b
    } else if f64_is_nan(b) {
        a
    } else if f64_key(a) <= f64_key(b) {
        a
    } else {
        b
    }
}

/// Maximum of two 64-bit patterns: a NaN operand is ignored in favour of
/// the other; on a tie the left operand is kept.
pub open spec fn f64_max(a: u64, b: u64) -> u64 {
    if f64_is_nan(a) {
        b
    } else if f64_is_nan(b) {
        a
    } else if f64_key(a) >= f64_key(b) {
        a
    } else {
        b
    }
}

/// A 32-bit pattern denotes NaN when the exponent is all ones and the
/// fraction is non-zero.
pub open spec fn f32_is_nan(b: u32) -> bool {
    b & F32_EXP == F32_EXP && b & F32_FRAC != 0
}

/// Ordering key of a non-NaN 32-bit pattern.
pub open spec fn f32_key(b: u32) -> int {
    if b & F32_SIGN != 0 {
        -((b & F32_MAG) as int)
    } else {
        (b & F32_MAG) as int
    }
}

/// IEEE equality of two 32-bit patterns (false when either is NaN).
pub open spec fn f32_eq(a: u32, b: u32) -> bool {
    !f32_is_nan(a) && !f32_is_nan(b) && f32_key(a) == f32_key(b)
}

/// IEEE strict less-than of two 32-bit patterns (false when either is NaN).
pub open spec fn f32_lt(a: u32, b: u32) -> bool {
    !f32_is_nan(a) && !f32_is_nan(b) && f32_key(a) < f32_key(b)
}

/// IEEE less-or-equal of two 32-bit patterns (false when either is NaN).
pub open spec fn f32_le(a: u32, b: u32) -> bool {
    !f32_is_nan(a) && !f32_is_nan(b) && f32_key(a) <= f32_key(b)
}

/// Minimum of two 32-bit patterns, NaN operands ignored, ties keep the left.
pub open spec fn f32_min(a: u32, b: u32) -> u32 {
    if f32_is_nan(a) {
        b
    } else if f32_is_nan(b) {
        a
    } else if f32_key(a) <= f32_key(b) {
        a
    } else {
        b
    }
}

/// Maximum of two 32-bit patterns, NaN operands ignored, ties keep the left.
pub open spec fn f32_max(a: u32, b: u32) -> u32 {
    if f32_is_nan(a) {
        b
    } else if f32_is_nan(b) {
        a
    } else if f32_key(a) >= f32_key(b) {
        a
    } else {
        b
    }
}

/// Runtime test for NaN on a 64-bit pattern.
pub fn f64_bits_is_nan(b: u64) -> (r: bool)
    ensures
        r == f64_is_nan(b),
{
    b & F64_EXP == F64_EXP && b & F64_FRAC != 0
}

/// Runtime IEEE equality on 64-bit patterns.
pub fn f64_bits_eq(a: u64, b: u64) -> (r: bool)
    ensures
        r == f64_eq(a, b),
{
    if f64_bits_is_nan(a) || f64_bits_is_nan(b) {
        false
    } else {
        let ma = a & F64_MAG;
        let mb = b & F64_MAG;
        if (a & F64_SIGN != 0) == (b & F64_SIGN != 0) {
            ma == mb
        } else {
            ma == 0 && mb == 0
        }
    }
}

/// Runtime IEEE strict less-than on 64-bit patterns.
pub fn f64_bits_lt(a: u64, b: u64) -> (r: bool)
    ensures
        r == f64_lt(a, b),
{
    if f64_bits_is_nan(a) || f64_bits_is_nan(b) {
        false
    } else {
        let sa = a & F64_SIGN != 0;
        let sb = b & F64_SIGN != 0;
        let ma = a & F64_MAG;
        let mb = b & F64_MAG;
        if sa && sb {
            mb < ma
        } else if sa {
            !(ma == 0 && mb == 0)
        } else if sb {
            false
        } else {
            ma < mb
        }
    }
}

/// Runtime IEEE less-or-equal on 64-bit patterns.
pub fn f64_bits_le(a: u64, b: u64) -> (r: bool)
    ensures
        r == f64_le(a, b),
{
    if f64_bits_is_nan(a) || f64_bits_is_nan(b) {
        false
    } else {
        !f64_bits_lt(b, a)
    }
}

/// Runtime minimum of two 64-bit patterns, as [`f64_min`].
pub fn f64_bits_min(a: u64, b: u64) -> (r: u64)
    ensures
        r == f64_min(a, b),
{
    if f64_bits_is_nan(a) {
        b
    } else if f64_bits_is_nan(b) {
        a
    } else if f64_bits_le(a, b) {
        a
    } else {
        b
    }
}

/// Runtime maximum of two 64-bit patterns, as [`f64_max`].
pub fn f64_bits_max(a: u64, b: u64) -> (r: u64)
    ensures
        r == f64_max(a, b),
{
    if f64_bits_is_nan(a) {
        b
    } else if f64_bits_is_nan(b) {
        a
    } else if f64_bits_le(b, a) {
        a
    } else {
        b
    }
}

/// Runtime test for NaN on a 32-bit pattern.
pub fn f32_bits_is_nan(b: u32) -> (r: bool)
    ensures
        r == f32_is_nan(b),
{
    b & F32_EXP == F32_EXP && b & F32_FRAC != 0
}

/// Runtime IEEE equality on 32-bit patterns.
pub fn f32_bits_eq(a: u32, b: u32) -> (r: bool)
    ensures
        r == f32_eq(a, b),
{
    if f32_bits_is_nan(a) || f32_bits_is_nan(b) {
        false
    } else {
        let ma = a & F32_MAG;
        let mb = b & F32_MAG;
        if (a & F32_SIGN != 0) == (b & F32_SIGN != 0) {
            ma == mb
        } else {
            ma == 0 && mb == 0
        }
    }
}

/// Runtime IEEE strict less-than on 32-bit patterns.
pub fn f32_bits_lt(a: u32, b: u32) -> (r: bool)
    ensures
        r == f32_lt(a, b),
{
    if f32_bits_is_nan(a) || f32_bits_is_nan(b) {
        false
    } else {
        let sa = a & F32_SIGN != 0;
        let sb = b & F32_SIGN != 0;
        let ma = a & F32_MAG;
        let mb = b & F32_MAG;
        if sa && sb {
            mb < ma
        } else if sa {
            !(ma == 0 && mb == 0)
        } else if sb {
            false
        } else {
            ma < mb
        }
    }
}

/// Runtime IEEE less-or-equal on 32-bit patterns.
pub fn f32_bits_le(a: u32, b: u32) -> (r: bool)
    ensures
        r == f32_le(a, b),
{
    if f32_bits_is_nan(a) || f32_bits_is_nan(b) {
        false
    } else {
        !f32_bits_lt(b, a)
    }
}

/// Runtime minimum of two 32-bit patterns, as [`f32_min`].
pub fn f32_bits_min(a: u32, b: u32) -> (r: u32)
    ensures
        r == f32_min(a, b),
{
    if f32_bits_is_nan(a) {
        b
    } else if f32_bits_is_nan(b) {
        a
    } else if f32_bits_le(a, b) {
        a
    } else {
        b
    }
}

/// Runtime maximum of two 32-bit patterns, as [`f32_max`].
pub fn f32_bits_max(a: u32, b: u32) -> (r: u32)
    ensures
        r == f32_max(a, b),
{
    if f32_bits_is_nan(a) {
        b
    } else if f32_bits_is_nan(b) {
        a
    } else if f32_bits_le(b, a) {
        a
    } else {
        b
    }
}

/// The position of the highest set bit: the floor of the base-2 logarithm.
pub open spec fn spec_log2(n: nat) -> nat
    decreases n,
{
    if n <= 1 {
        0
    } else {
        1 + spec_log2(n / 2)
    }
}

/// `spec_log2` is the unique exponent bracketing its argument between two
/// neighbouring powers of two.
proof fn lemma_log2_unique(m: nat, n: nat)
    requires
        pow2(n) <= m < pow2((n + 1) as nat),
    ensures
        spec_log2(m) == n,
    decreases n,
{
    vstd::arithmetic::power2::lemma_pow2_pos(n);
    if n == 0 {
        assert(pow2(0) == 1 && pow2(1) == 2) by {
            lemma2_to64();
        }
    } else {
        lemma_pow2_unfold(n);
        lemma_pow2_unfold((n + 1) as nat);
        assert(m >= 2);
        assert(spec_log2(m) == 1 + spec_log2(m / 2));
        assert(pow2((n - 1) as nat) <= m / 2 < pow2(n)) by {
            lemma_div_is_ordered(pow2(n) as int, m as int, 2);
            assert(pow2(n) as int / 2 == pow2((n - 1) as nat)) by {
                lemma_pow2_unfold(n);
            }
            assert(m <= 2 * pow2(n) - 1);
            lemma_div_is_ordered(m as int, 2 * pow2(n) as int - 1, 2);
            assert((2 * pow2(n) as int - 1) / 2 == pow2(n) as int - 1) by {
                vstd::arithmetic::div_mod::lemma_fundamental_div_mod_converse(
                    2 * pow2(n) as int - 1,
                    2,
                    pow2(n) as int - 1,
                    1,
                );
            }
        }
        lemma_log2_unique(m / 2, (n - 1) as nat);
    }
}

/// The sign, biased exponent and fraction fields composed into a 64-bit
/// pattern.
pub open spec fn f64_compose(sign: bool, exp: nat, frac: nat) -> u64 {
    (((if sign {
        0x8000_0000_0000_0000u64
    } else {
        0u64
    }) + exp * 0x10_0000_0000_0000 + frac) as u64)
}

/// The 64-bit float pattern of the non-zero magnitude `mag` with the given
/// sign, rounding to nearest with ties to even — the rounding the promotion
/// of a 64-bit integer performs.
pub open spec fn f64_from_parts(sign: bool, mag: nat) -> u64 {
    let n = spec_log2(mag);
    if n <= 52 {
        f64_compose(sign, (1023 + n) as nat, (mag * pow2((52 - n) as nat) - pow2(52)) as nat)
    } else {
        let shift = (n - 52) as nat;
        let keep = mag / pow2(shift);
        let rem = mag % pow2(shift);
        let half = pow2((shift - 1) as nat);
        let keep2: nat = if rem > half || (rem == half && keep % 2 == 1) {
            (keep + 1) as nat
        } else {
            keep
        };
        if keep2 == pow2(53) {
            f64_compose(sign, (1023 + n + 1) as nat, 0)
        } else {
            f64_compose(sign, (1023 + n) as nat, (keep2 - pow2(52)) as nat)
        }
    }
}

/// The 64-bit float pattern a 64-bit integer promotes to (round to nearest,
/// ties to even).
pub open spec fn i64_to_f64_bits(v: i64) -> u64 {
    if v == 0 {
        0u64
    } else if v > 0 {
        f64_from_parts(false, v as nat)
    } else {
        f64_from_parts(true, (-(v as int)) as nat)
    }
}

/// `pow2` computed at runtime.
fn pow2_u64(k: u32) -> (r: u64)
    requires
        k < 64,
    ensures
        r == pow2(k as nat),
{
    proof {
        lemma2_to64();
    }
    let mut p: u64 = 1;
    let mut j: u32 = 0;
    while j < k
        invariant
            j <= k < 64,
            p == pow2(j as nat),
        decreases k - j,
    {
        proof {
            lemma_pow2_unfold((j + 1) as nat);
            let jn: nat = (j + 1) as nat;
            if jn < 64 {
                lemma_pow2_strictly_increases(jn, 64);
            }
            lemma2_to64();
        }
        p = p * 2;
        j = j + 1;
    }
    p
}

/// Promote a 64-bit integer to the bit pattern of the nearest 64-bit float
/// (ties to even), as [`i64_to_f64_bits`].
pub fn i64_to_f64(v: i64) -> (r: u64)
    ensures
        r == i64_to_f64_bits(v),
{
    if v == 0 {
        return 0;
    }
    let sign = v < 0;
    let mag: u64 = if v > 0 {
        v as u64
    } else {
        (-(v + 1)) as u64 + 1
    };
    proof {
        if v > 0 {
            assert(mag == v as nat);
        } else {
            assert(mag == (-(v as int)) as nat);
        }
        lemma2_to64();
        assert(mag >= 1);
    }

    // Locate the highest set bit.
    let mut t: u64 = mag;
    let mut n: u32 = 0;
    proof {
        vstd::arithmetic::power2::lemma_pow2_pos(0);
        assert(mag as int / pow2(0) as int == mag) by {
            assert(pow2(0) == 1);
        }
    }
    while t >= 2
        invariant
            1 <= t <= mag,
            n < 64,
            t == mag as int / pow2(n as nat) as int,
            pow2(n as nat) <= mag,
        decreases t,
    {
        proof {
            vstd::arithmetic::power2::lemma_pow2_pos(n as nat);
            vstd::arithmetic::power2::lemma_pow2_pos((n + 1) as nat);
            lemma_div_denominator(mag as int, pow2(n as nat) as int, 2);
            lemma_pow2_unfold((n + 1) as nat);
            assert(pow2(n as nat) * 2 == pow2((n + 1) as nat));
            assert(mag as int / pow2((n + 1) as nat) as int == t as int / 2);
            assert(t / 2 >= 1);
            assert(pow2((n + 1) as nat) <= mag) by {
                if mag < pow2((n + 1) as nat) {
                    vstd::arithmetic::div_mod::lemma_basic_div(
                        mag as int,
                        pow2((n + 1) as nat) as int,
                    );
                }
            }
            // the next exponent stays below 64: the magnitude bounds it
            let n1: nat = (n + 1) as nat;
            if n1 >= 64 {
                lemma2_to64();
                assert(pow2(64) <= pow2(n1)) by {
                    if n1 > 64 {
                        lemma_pow2_strictly_increases(64, n1);
                    }
                }
                assert(false);
            }
        }
        t = t / 2;
        n = n + 1;
    }
    proof {
        vstd::arithmetic::power2::lemma_pow2_pos(n as nat);
        lemma_fundamental_div_mod(mag as int, pow2(n as nat) as int);
        lemma_pow2_unfold((n + 1) as nat);
        assert(pow2(n as nat) <= mag < pow2((n + 1) as nat));
        lemma_log2_unique(mag as nat, n as nat);
    }

    let sign_bits: u64 = if sign {
        0x8000_0000_0000_0000
    } else {
        0
    };
    if n <= 52 {
        let p = pow2_u64(52 - n);
        proof {
            lemma2_to64();
            lemma2_to64_rest();
            assert(mag * pow2((52 - n) as nat) >= pow2(52)) by {
                lemma_pow2_adds(n as nat, (52 - n) as nat);
                vstd::arithmetic::mul::lemma_mul_inequality(
                    pow2(n as nat) as int,
                    mag as int,
                    pow2((52 - n) as nat) as int,
                );
            }
            assert(mag * pow2((52 - n) as nat) < pow2(53)) by {
                lemma_pow2_adds((n + 1) as nat, (52 - n) as nat);
                vstd::arithmetic::mul::lemma_mul_inequality(
                    mag as int + 1,
                    pow2((n + 1) as nat) as int,
                    pow2((52 - n) as nat) as int,
                );
                vstd::arithmetic::mul::lemma_mul_is_distributive_add_other_way(
                    pow2((52 - n) as nat) as int,
                    mag as int,
                    1,
                );
                vstd::arithmetic::power2::lemma_pow2_pos((52 - n) as nat);
            }
            assert(pow2(52) == 0x10_0000_0000_0000 && pow2(53) == 0x20_0000_0000_0000);
        }
        let mantissa = mag * p;
        let frac = mantissa - 0x10_0000_0000_0000u64;
        let r = sign_bits + (1023 + n as u64) * 0x10_0000_0000_0000 + frac;
        proof {
            assert(spec_log2(mag as nat) == n as nat);
            assert(r == f64_from_parts(sign, mag as nat));
        }
        return r;
    } else {
        let shift = n - 52;
        let p = pow2_u64(shift);
        proof {
            lemma2_to64();
            lemma2_to64_rest();
            vstd::arithmetic::power2::lemma_pow2_pos(shift as nat);
            lemma_pow2_unfold(shift as nat);
        }
        let keep = mag / p;
        let rem = mag % p;
        let half = p / 2;
        proof {
            assert(half == pow2((shift - 1) as nat)) by {
                lemma_pow2_unfold(shift as nat);
                vstd::arithmetic::power2::lemma_pow2_pos((shift - 1) as nat);
                vstd::arithmetic::div_mod::lemma_div_multiples_vanish(
                    pow2((shift - 1) as nat) as int,
                    2,
                );
            }
            assert(pow2(52) <= keep) by {
                lemma_pow2_adds(shift as nat, 52);
                lemma_div_is_ordered(pow2(n as nat) as int, mag as int, pow2(shift as nat) as int);
                vstd::arithmetic::div_mod::lemma_div_multiples_vanish(
                    pow2(52) as int,
                    pow2(shift as nat) as int,
                );
            }
            assert(keep < pow2(53)) by {
                assert(mag <= pow2((n + 1) as nat) - 1);
                lemma_div_is_ordered(
                    mag as int,
                    pow2((n + 1) as nat) as int - 1,
                    pow2(shift as nat) as int,
                );
                assert((pow2((n + 1) as nat) - 1) as int / pow2(shift as nat) as int == pow2(53)
                    as int - 1) by {
                    lemma_pow2_adds(53, shift as nat);
                    vstd::arithmetic::mul::lemma_mul_is_distributive_sub_other_way(
                        pow2(shift as nat) as int,
                        pow2(53) as int,
                        1,
                    );
                    vstd::arithmetic::div_mod::lemma_fundamental_div_mod_converse(
                        pow2((n + 1) as nat) as int - 1,
                        pow2(shift as nat) as int,
                        pow2(53) as int - 1,
                        pow2(shift as nat) as int - 1,
                    );
                }
            }
            assert(pow2(52) == 0x10_0000_0000_0000 && pow2(53) == 0x20_0000_0000_0000);
        }
        let keep2: u64 = if rem > half || (rem == half && keep % 2 == 1) {
            keep + 1
        } else {
            keep
        };
        if keep2 == 0x20_0000_0000_0000u64 {
            let r = sign_bits + (1023 + n as u64 + 1) * 0x10_0000_0000_0000;
            proof {
                assert(spec_log2(mag as nat) == n as nat);
                assert(r == f64_from_parts(sign, mag as nat));
            }
            return r;
        } else {
            let frac = keep2 - 0x10_0000_0000_0000u64;
            let r = sign_bits + (1023 + n as u64) * 0x10_0000_0000_0000 + frac;
            proof {
                assert(spec_log2(mag as nat) == n as nat);
                assert(r == f64_from_parts(sign, mag as nat));
            }
            return r;
        }
    }
}

} // verus!
