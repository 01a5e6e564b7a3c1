//! IEEE 754 doubles by their bits: which are positive, and what whole number
//! each is cut to.

use vstd::arithmetic::power2::{lemma2_to64, lemma2_to64_rest, lemma_pow2_adds, lemma_pow2_pos, lemma_pow2_strictly_increases, pow2};
use vstd::prelude::*;

verus! {

/// Whether the double is greater than zero.
pub open spec fn is_positive(bits: u64) -> bool {
    0 < bits <= 0x7ff0_0000_0000_0000
}

/// The exponent field of a double.
pub open spec fn exponent_field(bits: u64) -> nat {
    ((bits / 0x10_0000_0000_0000) % 2048) as nat
}

/// The fraction field of a double.
pub open spec fn fraction_field(bits: u64) -> nat {
    (bits % 0x10_0000_0000_0000) as nat
}

/// The whole part of a finite double's magnitude.
pub open spec fn whole_magnitude(bits: u64) -> nat {
    let e = exponent_field(bits);
    let m = 0x10_0000_0000_0000 + fraction_field(bits);
    if e < 1023 {
        0
    } else if e >= 1075 {
        m * pow2((e - 1075) as nat)
    } else {
        m / pow2((1075 - e) as nat)
    }
}

/// The nearest `i64` to an integer.
pub open spec fn clamped(n: int) -> i64 {
    if n > i64::MAX {
        i64::MAX
    } else if n < i64::MIN {
        i64::MIN
    } else {
        n as i64
    }
}

/// The double cut to a whole number: what is no number gives 0, and what lies
/// outside the range of `i64` gives the end of the range.
pub open spec fn truncated(bits: u64) -> i64 {
    let negative = bits >= 0x8000_0000_0000_0000;
    if exponent_field(bits) == 2047 && fraction_field(bits) != 0 {
        0
    } else if negative {
        clamped(-(whole_magnitude(bits) as int))
    } else {
        clamped(whole_magnitude(bits) as int)
    }
}

pub fn positive(bits: u64) -> (r: bool)
    ensures
        r == is_positive(bits),
{
    0 < bits && bits <= 0x7ff0_0000_0000_0000
}

/// `2^n`, by doubling.
pub(crate) fn power_of_two(n: u32) -> (r: u128)
    requires
        n < 127,
    ensures
        r == pow2(n as nat),
{
    let mut out: u128 = 1;
    let mut i: u32 = 0;
    proof {
        lemma2_to64();
    }
    while i < n
        invariant
            0 <= i <= n < 127,
            out == pow2(i as nat),
        decreases n - i,
    {
        proof {
            lemma_pow2_adds(i as nat, 1);
            lemma2_to64();
            lemma_pow2_adds(64, 62);
            lemma2_to64_rest();
            if i < 126 {
                lemma_pow2_strictly_increases(i as nat, 126);
            }
            assert(pow2(126) == pow2(64) * pow2(62));
            assert(pow2(64) * pow2(62) == 0x1_0000_0000_0000_0000 * 0x4000_0000_0000_0000)
                by (nonlinear_arith)
                requires
                    pow2(64) == 0x1_0000_0000_0000_0000,
                    pow2(62) == 0x4000_0000_0000_0000,
            ;
        }
        out = out * 2;
        i += 1;
    }
    out
}

pub fn truncate(bits: u64) -> (r: i64)
    ensures
        r == truncated(bits),
{
    let negative = bits >= 0x8000_0000_0000_0000;
    let e: u32 = ((bits / 0x10_0000_0000_0000) % 2048) as u32;
    let fraction: u64 = bits % 0x10_0000_0000_0000;
    if e == 2047 && fraction != 0 {
        return 0;
    }
    if e < 1023 {
        return 0;
    }
    let m: u128 = 0x10_0000_0000_0000 + fraction as u128;
    if e >= 1086 {
        proof {
            lemma2_to64();
            if e > 1086 {
                lemma_pow2_strictly_increases(11, (e - 1075) as nat);
            }
            assert(m * pow2((e - 1075) as nat) >= 0x8000_0000_0000_0000) by (nonlinear_arith)
                requires
                    m >= 0x10_0000_0000_0000,
                    pow2((e - 1075) as nat) >= 0x800,
            ;
        }
        return if negative {
            i64::MIN
        } else {
            i64::MAX
        };
    }
    let magnitude: u128 = if e >= 1075 {
        let by: u128 = power_of_two(e - 1075);
        proof {
            lemma2_to64();
            if e < 1085 {
                lemma_pow2_strictly_increases((e - 1075) as nat, 10);
            }
            assert(m * by < 0x8000_0000_0000_0000) by (nonlinear_arith)
                requires
                    m < 0x20_0000_0000_0000,
                    by <= 0x400,
            ;
        }
        m * by
    } else {
        let by: u128 = power_of_two(1075 - e);
        proof {
            lemma_pow2_pos((1075 - e) as nat);
        }
        m / by
    };
    proof {
        if e < 1075 {
            let by = pow2((1075 - e) as nat);
            lemma_pow2_pos((1075 - e) as nat);
            assert(m / (by as u128) <= m) by (nonlinear_arith)
                requires
                    by > 0,
                    by as u128 == by,
            ;
        }
    }
    if negative {
        -(magnitude as i64)
    } else {
        magnitude as i64
    }
}

// --- laws ----------------------------------------------------------------------------

/// A double is cut towards zero: the result is the greatest whole number that is
/// not greater than its magnitude, with its sign. What is smaller than 1 in
/// magnitude gives 0, what is no number gives 0, and what is too great the end
/// of the range.
pub proof fn law_doubles_are_cut_towards_zero(bits: u64, e: nat, m: nat)
    requires
        bits < 0x8000_0000_0000_0000,
        e == bits / 0x10_0000_0000_0000,
        m == 0x10_0000_0000_0000 + bits % 0x10_0000_0000_0000,
    ensures
        e < 1023 ==> truncated(bits) == 0,
        1023 <= e < 1075 ==> truncated(bits) * pow2((1075 - e) as nat) <= m < (truncated(bits) + 1)
            * pow2((1075 - e) as nat),
        1075 <= e < 1086 ==> truncated(bits) == m * pow2((e - 1075) as nat),
        1086 <= e < 2047 ==> truncated(bits) == i64::MAX,
        e == 2047 && m == 0x10_0000_0000_0000 ==> truncated(bits) == i64::MAX,
        e == 2047 && m != 0x10_0000_0000_0000 ==> truncated(bits) == 0,
{
    assert(exponent_field(bits) == e);
    if 1023 <= e < 1075 {
        let by = pow2((1075 - e) as nat);
        lemma_pow2_pos((1075 - e) as nat);
        vstd::arithmetic::div_mod::lemma_fundamental_div_mod(m as int, by as int);
        let q = m / by;
        assert(q * by <= m < (q + 1) * by) by (nonlinear_arith)
            requires
                m == by * q + m % by,
                0 <= m % by < by,
        ;
        assert(q <= m) by (nonlinear_arith)
            requires
                q * by <= m,
                by >= 1,
        ;
        assert(whole_magnitude(bits) == q);
    }
    if e >= 1075 {
        lemma2_to64();
        let by = pow2((e - 1075) as nat);
        if e < 1086 {
            if e < 1085 {
                lemma_pow2_strictly_increases((e - 1075) as nat, 10);
            }
            assert(m * by < 0x8000_0000_0000_0000) by (nonlinear_arith)
                requires
                    m < 0x20_0000_0000_0000,
                    by <= 0x400,
            ;
        } else {
            if e > 1086 {
                lemma_pow2_strictly_increases(11, (e - 1075) as nat);
            }
            assert(m * by >= 0x8000_0000_0000_0000) by (nonlinear_arith)
                requires
                    m >= 0x10_0000_0000_0000,
                    by >= 0x800,
            ;
        }
    }
}

/// The sign of a double goes with it.
pub proof fn law_sign_goes_with_the_number(bits: u64)
    requires
        bits < 0x8000_0000_0000_0000,
        truncated(bits) < i64::MAX,
    ensures
        truncated((bits + 0x8000_0000_0000_0000) as u64) == -truncated(bits),
        is_positive(bits) <==> 0 < bits <= 0x7ff0_0000_0000_0000,
        !is_positive((bits + 0x8000_0000_0000_0000) as u64),
{
    let other = (bits + 0x8000_0000_0000_0000) as u64;
    assert(exponent_field(other) == exponent_field(bits));
    assert(fraction_field(other) == fraction_field(bits));
}

} // verus!
