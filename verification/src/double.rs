//! Double-precision numbers as the 64 bits that store them.
//!
//! A kernel keeps times, coefficients and even block numbers as IEEE 754
//! doubles. This module reads what whole-number logic needs from the bits:
//! the whole part of a value, and the order of two values.

use vstd::prelude::*;
use vstd::arithmetic::power2::{
    lemma2_to64, lemma2_to64_rest, lemma_pow2_adds, lemma_pow2_pos, lemma_pow2_strictly_increases,
    pow2,
};
use vstd::bits::{lemma_u64_shr_is_div, lemma_u64_shl_is_mul};

verus! {

/// Whether the sign bit is set.
pub open spec fn negative(bits: u64) -> bool {
    bits >= 0x8000_0000_0000_0000
}

/// The eleven exponent bits.
pub open spec fn exponent(bits: u64) -> nat {
    ((bits / 0x10_0000_0000_0000) % 2048) as nat
}

/// The fifty-two fraction bits.
pub open spec fn fraction(bits: u64) -> nat {
    (bits % 0x10_0000_0000_0000) as nat
}

/// Whether the bits hold no number.
pub open spec fn is_nan(bits: u64) -> bool {
    exponent(bits) == 2047 && fraction(bits) != 0
}

/// Whether the bits hold an infinity.
pub open spec fn is_infinite(bits: u64) -> bool {
    exponent(bits) == 2047 && fraction(bits) == 0
}

/// The significand as a whole number: the fraction bits, with the implied
/// leading one unless the exponent bits are all zero.
pub open spec fn significand(bits: u64) -> nat {
    if exponent(bits) == 0 {
        fraction(bits)
    } else {
        0x10_0000_0000_0000 + fraction(bits)
    }
}

/// The power of two that scales the significand, as its distance from
/// 1075: a finite value is `significand * 2^(scale - 1075)` in size.
pub open spec fn scale(bits: u64) -> nat {
    if exponent(bits) == 0 {
        1
    } else {
        exponent(bits)
    }
}

/// `significand * 2^(scale - 1075)`, rounded down to a whole number.
pub open spec fn scaled(significand: nat, scale: nat) -> nat {
    if scale >= 1075 {
        significand * pow2((scale - 1075) as nat)
    } else {
        significand / pow2((1075 - scale) as nat)
    }
}

/// The size of a finite value, rounded down to a whole number.
pub open spec fn whole_part(bits: u64) -> nat {
    scaled(significand(bits), scale(bits))
}

/// The value as an unsigned count: rounded toward zero and kept within the
/// range of `u64`, with zero for what is no number and for negative values.
pub open spec fn count_of(bits: u64) -> u64 {
    if is_nan(bits) || negative(bits) {
        0
    } else if is_infinite(bits) || whole_part(bits) > u64::MAX {
        u64::MAX
    } else {
        whole_part(bits) as u64
    }
}

/// A whole number that orders as the value does, for bits that hold a
/// number: the bits below the sign, negated where the sign is set. Both
/// zeros get 0.
pub open spec fn order_key(bits: u64) -> int {
    if negative(bits) {
        -(bits - 0x8000_0000_0000_0000)
    } else {
        bits as int
    }
}

/// Whether the first value is at most the second. False where either holds
/// no number.
pub open spec fn at_most(a: u64, b: u64) -> bool {
    !is_nan(a) && !is_nan(b) && order_key(a) <= order_key(b)
}

/// Whether `t` lies in the closed interval from `begin` to `end`.
pub open spec fn within(begin: u64, end: u64, t: u64) -> bool {
    at_most(begin, t) && at_most(t, end)
}

/// Tells whether the bits hold no number.
pub fn holds_nan(bits: u64) -> (r: bool)
    ensures
        r == is_nan(bits),
{
    let e = (bits >> 52) & 0x7ff;
    let f = bits & 0x000f_ffff_ffff_ffff;
    assert(e == (bits / 0x10_0000_0000_0000) % 2048) by (bit_vector)
        requires
            e == (bits >> 52) & 0x7ff,
    ;
    assert(f == bits % 0x10_0000_0000_0000) by (bit_vector)
        requires
            f == bits & 0x000f_ffff_ffff_ffff,
    ;
    e == 0x7ff && f != 0
}

/// Converts a double to an unsigned count as a cast does: toward zero,
/// negative values and what is no number to zero, too large values to the
/// largest `u64`.
pub fn double_to_count(bits: u64) -> (r: u64)
    ensures
        r == count_of(bits),
{
    let e = (bits >> 52) & 0x7ff;
    let f = bits & 0x000f_ffff_ffff_ffff;
    assert(e == (bits / 0x10_0000_0000_0000) % 2048) by (bit_vector)
        requires
            e == (bits >> 52) & 0x7ff,
    ;
    assert(f == bits % 0x10_0000_0000_0000) by (bit_vector)
        requires
            f == bits & 0x000f_ffff_ffff_ffff,
    ;
    if bits >= 0x8000_0000_0000_0000 {
        return 0;
    }
    if e == 0x7ff {
        return if f != 0 {
            0
        } else {
            u64::MAX
        };
    }
    proof {
        lemma2_to64();
        lemma2_to64_rest();
    }
    if e < 1023 {
        proof {
            let k = (1075 - scale(bits)) as nat;
            if k > 53 {
                lemma_pow2_strictly_increases(53, k);
            }
            assert(significand(bits) / pow2(k) == 0) by (nonlinear_arith)
                requires
                    significand(bits) < 0x20_0000_0000_0000,
                    pow2(k) >= 0x20_0000_0000_0000,
            ;
        }
        return 0;
    }
    let m: u64 = 0x10_0000_0000_0000 + f;
    if e <= 1075 {
        let k: u64 = 1075 - e;
        proof {
            lemma_u64_shr_is_div(m, k);
            vstd::arithmetic::power2::lemma_pow2_pos(k as nat);
            assert(m as nat / pow2(k as nat) <= m) by (nonlinear_arith)
                requires
                    pow2(k as nat) > 0,
            ;
            if k == 0 {
                assert(m as nat * pow2(0) == m as nat / pow2(0)) by (nonlinear_arith)
                    requires
                        pow2(0) == 1,
                ;
            }
        }
        m >> k
    } else if e - 1075 <= 11 {
        let k: u64 = e - 1075;
        proof {
            assert(pow2(k as nat) <= 2048) by {
                if k < 11 {
                    lemma_pow2_strictly_increases(k as nat, 11);
                }
            }
            assert(m * pow2(k as nat) <= u64::MAX) by (nonlinear_arith)
                requires
                    m < 0x20_0000_0000_0000,
                    pow2(k as nat) <= 2048,
            ;
            lemma_u64_shl_is_mul(m, k);
        }
        m << k
    } else {
        proof {
            let k = (e - 1075) as nat;
            if k > 12 {
                lemma_pow2_strictly_increases(12, k);
            }
            assert(m * pow2(k) > u64::MAX) by (nonlinear_arith)
                requires
                    m >= 0x10_0000_0000_0000,
                    pow2(k) >= 4096,
            ;
        }
        u64::MAX
    }
}

/// Tells whether the first value is at most the second.
pub fn double_at_most(a: u64, b: u64) -> (r: bool)
    ensures
        r == at_most(a, b),
{
    if holds_nan(a) || holds_nan(b) {
        return false;
    }
    let a_negative = a >= 0x8000_0000_0000_0000;
    let b_negative = b >= 0x8000_0000_0000_0000;
    if a_negative && b_negative {
        a >= b
    } else if a_negative {
        true
    } else if b_negative {
        a == 0 && b == 0x8000_0000_0000_0000
    } else {
        a <= b
    }
}

/// Tells whether `t` lies in the closed interval from `begin` to `end`.
pub fn double_within(begin: u64, end: u64, t: u64) -> (r: bool)
    ensures
        r == within(begin, end, t),
{
    double_at_most(begin, t) && double_at_most(t, end)
}

/// Of two numbers, one is at most the other.
pub proof fn at_most_is_total(a: u64, b: u64)
    requires
        !is_nan(a),
        !is_nan(b),
    ensures
        at_most(a, b) || at_most(b, a),
{
}

/// What is at most a second value, which is at most a third, is at most
/// the third.
pub proof fn at_most_is_transitive(a: u64, b: u64, c: u64)
    requires
        at_most(a, b),
        at_most(b, c),
    ensures
        at_most(a, c),
{
}

/// Two values that are at most each other hold the same bits, or are the
/// two zeros.
pub proof fn at_most_both_ways(a: u64, b: u64)
    requires
        at_most(a, b),
        at_most(b, a),
    ensures
        a == b || (order_key(a) == 0 && order_key(b) == 0),
{
}

/// A larger scale, or the same scale with a larger significand, gives a
/// whole part that is not smaller.
proof fn scaled_grows(sig_a: nat, scale_a: nat, sig_b: nat, scale_b: nat)
    requires
        scale_a >= 1,
        scale_a == scale_b && sig_a <= sig_b || scale_a < scale_b && sig_a < 0x20_0000_0000_0000
            && sig_b >= 0x10_0000_0000_0000,
    ensures
        scaled(sig_a, scale_a) <= scaled(sig_b, scale_b),
{
    lemma2_to64();
    if scale_a == scale_b {
        if scale_a >= 1075 {
            let p = pow2((scale_a - 1075) as nat);
            assert(sig_a * p <= sig_b * p) by (nonlinear_arith)
                requires
                    sig_a <= sig_b,
            ;
        } else {
            let p = pow2((1075 - scale_a) as nat);
            lemma_pow2_pos((1075 - scale_a) as nat);
            assert(sig_a / p <= sig_b / p) by (nonlinear_arith)
                requires
                    sig_a <= sig_b,
                    p > 0,
            ;
        }
    } else if scale_a >= 1075 {
        let pa = pow2((scale_a - 1075) as nat);
        let pb = pow2((scale_b - 1075) as nat);
        let step = pow2((scale_b - scale_a) as nat);
        lemma_pow2_adds((scale_a - 1075) as nat, (scale_b - scale_a) as nat);
        if scale_b - scale_a > 1 {
            lemma_pow2_strictly_increases(1, (scale_b - scale_a) as nat);
        }
        assert(sig_a * pa <= sig_b * pb) by (nonlinear_arith)
            requires
                pb == pa * step,
                step >= 2,
                sig_a < 0x20_0000_0000_0000,
                sig_b >= 0x10_0000_0000_0000,
        ;
    } else if scale_b >= 1075 {
        let pa = pow2((1075 - scale_a) as nat);
        let pb = pow2((scale_b - 1075) as nat);
        if 1075 - scale_a > 1 {
            lemma_pow2_strictly_increases(1, (1075 - scale_a) as nat);
        }
        lemma_pow2_pos((scale_b - 1075) as nat);
        assert(sig_a / pa <= sig_b * pb) by (nonlinear_arith)
            requires
                pa >= 2,
                pb >= 1,
                sig_a < 0x20_0000_0000_0000,
                sig_b >= 0x10_0000_0000_0000,
        ;
    } else {
        let pa = pow2((1075 - scale_a) as nat);
        let pb = pow2((1075 - scale_b) as nat);
        let step = pow2((scale_b - scale_a) as nat);
        lemma_pow2_adds((1075 - scale_b) as nat, (scale_b - scale_a) as nat);
        lemma_pow2_pos((1075 - scale_b) as nat);
        lemma_pow2_pos((1075 - scale_a) as nat);
        if scale_b - scale_a > 1 {
            lemma_pow2_strictly_increases(1, (scale_b - scale_a) as nat);
        }
        let q = sig_a / pa;
        assert(q * pa <= sig_a) by (nonlinear_arith)
            requires
                q == sig_a / pa,
                pa > 0,
        ;
        assert(q * pb < sig_b) by (nonlinear_arith)
            requires
                q * pa <= sig_a,
                pa == pb * step,
                step >= 2,
                pb > 0,
                sig_a < 0x20_0000_0000_0000,
                sig_b >= 0x10_0000_0000_0000,
        ;
        assert(q <= sig_b / pb) by (nonlinear_arith)
            requires
                q * pb < sig_b,
                pb > 0,
        ;
    }
}

/// The order of values is the order of their counts: a value that is at
/// most another has a count that is at most the other's.
pub proof fn at_most_orders_counts(a: u64, b: u64)
    requires
        at_most(a, b),
    ensures
        count_of(a) <= count_of(b),
{
    if !negative(a) && !negative(b) && !is_infinite(b) {
        assert(a <= b);
        assert(exponent(a) <= exponent(b) < 2047);
        if exponent(a) == exponent(b) {
            assert(fraction(a) <= fraction(b));
        }
        scaled_grows(significand(a), scale(a), significand(b), scale(b));
    } else if !negative(a) && negative(b) {
        assert(a == 0);
        lemma_pow2_pos(1074);
        assert(0nat / pow2(1074) == 0) by (nonlinear_arith)
            requires
                pow2(1074) > 0,
        ;
    }
}

} // verus!
