//! Rounding of fractions to the precision of a double, in whole numbers.

use crate::double::power_of_two;
use vstd::arithmetic::div_mod::{lemma_fundamental_div_mod, lemma_fundamental_div_mod_converse};
use vstd::arithmetic::power2::{lemma2_to64, lemma2_to64_rest, lemma_pow2_adds, lemma_pow2_pos, lemma_pow2_strictly_increases, pow2};
use vstd::prelude::*;

verus! {

/// The whole number nearest to `n / d`; of two that are equally near, the even
/// one.
pub open spec fn nearest(n: nat, d: nat) -> nat {
    let q = n / d;
    let r = n % d;
    if 2 * r < d || (2 * r == d && q % 2 == 0) {
        q
    } else {
        q + 1
    }
}

/// How far a fraction is from the range of the significands.
pub open spec fn distance(n: nat, d: nat) -> nat {
    if n < 0x10_0000_0000_0000 * d {
        (0x10_0000_0000_0000 * d - n) as nat
    } else if n >= 0x20_0000_0000_0000 * d {
        (n - d) as nat
    } else {
        0
    }
}

/// The double nearest to `n / d`, as a significand and a power of two: of 53
/// bits, with no limit to the power. Of two doubles that are equally near, the
/// even one.
pub open spec fn rounded(n: nat, d: nat) -> (nat, int)
    decreases distance(n, d),
{
    if n == 0 || d == 0 {
        (0, 0)
    } else if n < 0x10_0000_0000_0000 * d {
        let (m, e) = rounded(2 * n, d);
        (m, e - 1)
    } else if n >= 0x20_0000_0000_0000 * d {
        let (m, e) = rounded(n, 2 * d);
        (m, e + 1)
    } else {
        (nearest(n, d), 0)
    }
}

/// `2^e` where that is whole, else 1.
pub open spec fn up(e: int) -> nat {
    if e >= 0 {
        pow2(e as nat)
    } else {
        1
    }
}

/// `2^-e` where that is whole, else 1.
pub open spec fn down(e: int) -> nat {
    if e >= 0 {
        1
    } else {
        pow2((-e) as nat)
    }
}

/// The whole number nearest to `n / d`; of two that are equally near, the
/// greater one.
pub open spec fn half_up(n: nat, d: nat) -> nat {
    (2 * n + d) / (2 * d)
}

/// The double nearest to `n / d`, times `by`, to the nearest double and then to
/// the nearest whole number.
pub open spec fn scaled_count(n: nat, d: nat, by: nat) -> nat {
    if n == 0 {
        0
    } else {
        let (m, e) = rounded(n, d);
        let (m2, e2) = rounded(m * by * up(e), down(e));
        half_up(m2 * up(e2), down(e2))
    }
}

// --- how rounding takes a change of scale --------------------------------------------

proof fn lemma_nearest_scales(n: nat, d: nat, k: nat)
    requires
        d > 0,
        k > 0,
    ensures
        nearest(k * n, k * d) == nearest(n, d),
{
    let q = n / d;
    let r = n % d;
    lemma_fundamental_div_mod(n as int, d as int);
    assert(k * d > 0) by (nonlinear_arith)
        requires
            k > 0,
            d > 0,
    ;
    assert(k * n == q * (k * d) + k * r && 0 <= k * r < k * d) by (nonlinear_arith)
        requires
            n == d * q + r,
            0 <= r < d,
            k > 0,
    ;
    lemma_fundamental_div_mod_converse(
        (k * n) as int,
        (k * d) as int,
        q as int,
        (k * r) as int,
    );
    assert((2 * (k * r) < k * d) == (2 * r < d)) by (nonlinear_arith)
        requires
            k > 0,
    ;
    assert((2 * (k * r) == k * d) == (2 * r == d)) by (nonlinear_arith)
        requires
            k > 0,
    ;
}

proof fn lemma_pow2_monotonic(a: nat, b: nat)
    requires
        a <= b,
    ensures
        pow2(a) <= pow2(b),
{
    if a < b {
        lemma_pow2_strictly_increases(a, b);
    }
}

/// A fraction is rounded the same however it is expanded.
pub proof fn lemma_rounded_scales(n: nat, d: nat, k: nat)
    requires
        d > 0,
        k > 0,
    ensures
        rounded(k * n, k * d) == rounded(n, d),
    decreases distance(n, d),
{
    assert(k * d > 0) by (nonlinear_arith)
        requires
            k > 0,
            d > 0,
    ;
    if n == 0 {
        assert(k * n == 0) by (nonlinear_arith)
            requires
                n == 0,
        ;
    } else {
        assert(k * n > 0) by (nonlinear_arith)
            requires
                k > 0,
                n > 0,
        ;
        assert((k * n < 0x10_0000_0000_0000 * (k * d)) == (n < 0x10_0000_0000_0000 * d)) by (nonlinear_arith)
            requires
                k > 0,
        ;
        assert((k * n >= 0x20_0000_0000_0000 * (k * d)) == (n >= 0x20_0000_0000_0000 * d))
            by (nonlinear_arith)
            requires
                k > 0,
        ;
        if n < 0x10_0000_0000_0000 * d {
            lemma_rounded_scales(2 * n, d, k);
            assert(k * (2 * n) == 2 * (k * n)) by (nonlinear_arith);
        } else if n >= 0x20_0000_0000_0000 * d {
            lemma_rounded_scales(n, 2 * d, k);
            assert(k * (2 * d) == 2 * (k * d)) by (nonlinear_arith);
        } else {
            lemma_nearest_scales(n, d, k);
        }
    }
}

/// Half of a fraction is rounded to the same significand.
proof fn lemma_rounded_half(n: nat, d: nat)
    requires
        n > 0,
        d > 0,
    ensures
        rounded(n, 2 * d) == (rounded(n, d).0, rounded(n, d).1 - 1),
{
    lemma_rounded_scales(n, d, 2);
}

/// So is a fraction that is halved any number of times.
pub proof fn lemma_rounded_halved(n: nat, d: nat, k: nat)
    requires
        n > 0,
        d > 0,
    ensures
        rounded(n, d * pow2(k)) == (rounded(n, d).0, rounded(n, d).1 - k),
    decreases k,
{
    if k == 0 {
        lemma2_to64();
        assert(d * pow2(0) == d);
    } else {
        let less = pow2((k - 1) as nat);
        lemma_rounded_halved(n, d, (k - 1) as nat);
        lemma_pow2_pos((k - 1) as nat);
        lemma_pow2_adds((k - 1) as nat, 1);
        lemma2_to64();
        assert(d * less > 0) by (nonlinear_arith)
            requires
                d > 0,
                less > 0,
        ;
        lemma_rounded_half(n, d * less);
        assert(2 * (d * less) == d * pow2(k)) by (nonlinear_arith)
            requires
                pow2(k) == less * 2,
        ;
    }
}

/// And so is one that is doubled.
pub proof fn lemma_rounded_doubled(n: nat, d: nat, j: nat)
    requires
        n > 0,
        d > 0,
    ensures
        rounded(n * pow2(j), d) == (rounded(n, d).0, rounded(n, d).1 + j),
{
    let p = pow2(j);
    lemma_pow2_pos(j);
    lemma_rounded_scales(n, d, p);
    assert(p * n == n * p && p * d == d * p) by (nonlinear_arith);
    assert(n * p > 0) by (nonlinear_arith)
        requires
            n > 0,
            p > 0,
    ;
    lemma_rounded_halved(n * p, d, j);
}

/// A whole number times a power of two is rounded to the significand of the
/// whole number.
pub proof fn lemma_rounded_shifted(n: nat, e: int)
    requires
        n > 0,
    ensures
        rounded(n * up(e), down(e)) == (rounded(n, 1).0, rounded(n, 1).1 + e),
{
    if e >= 0 {
        lemma_rounded_doubled(n, 1, e as nat);
    } else {
        lemma_rounded_halved(n, 1, (-e) as nat);
        assert(1 * pow2((-e) as nat) == pow2((-e) as nat));
        assert(n * 1 == n);
    }
}

/// The significand is one of 53 bits, or the next power of two.
pub proof fn lemma_rounded_range(n: nat, d: nat)
    requires
        n > 0,
        d > 0,
    ensures
        0x10_0000_0000_0000 <= rounded(n, d).0 <= 0x20_0000_0000_0000,
        n >= 0x10_0000_0000_0000 * d ==> rounded(n, d).1 >= 0,
        n < 0x20_0000_0000_0000 * d ==> rounded(n, d).1 <= 0,
    decreases distance(n, d),
{
    if n < 0x10_0000_0000_0000 * d {
        lemma_rounded_range(2 * n, d);
    } else if n >= 0x20_0000_0000_0000 * d {
        lemma_rounded_range(n, 2 * d);
    } else {
        let q = n / d;
        let r = n % d;
        lemma_fundamental_div_mod(n as int, d as int);
        assert(0x10_0000_0000_0000 <= q < 0x20_0000_0000_0000) by (nonlinear_arith)
            requires
                n == d * q + r,
                0 <= r < d,
                0x10_0000_0000_0000 * d <= n < 0x20_0000_0000_0000 * d,
        ;
    }
}

// --- rounding ------------------------------------------------------------------------

/// The part of a fraction behind the point, by what rounding asks of it.
#[derive(Clone, Copy, PartialEq, Eq, Structural, Debug)]
pub enum Tail {
    Zero,
    BelowHalf,
    Half,
    AboveHalf,
}

/// Whether `n / d`, less than 1, is of the kind.
pub open spec fn tail_is(n: nat, d: nat, tail: Tail) -> bool {
    match tail {
        Tail::Zero => n == 0,
        Tail::BelowHalf => 0 < 2 * n < d,
        Tail::Half => 2 * n == d && n > 0,
        Tail::AboveHalf => 2 * n > d,
    }
}

/// Rounds `x + n / d` to a double.
fn round_off(x: u128, tail: Tail, Ghost(n): Ghost<nat>, Ghost(d): Ghost<nat>) -> (r: (u128, u32))
    requires
        0x10_0000_0000_0000 <= x < 0x100_0000_0000_0000_0000_0000,
        n < d,
        tail_is(n, d, tail),
    ensures
        rounded(x as nat * d + n, d) == (r.0 as nat, r.1 as int),
        0x10_0000_0000_0000 <= r.0 <= 0x20_0000_0000_0000,
        r.1 <= 40,
        x >= pow2(52 + r.1 as nat),
{
    let mut q: u128 = x;
    let mut rest: u128 = 0;
    let mut h: u128 = 1;
    let mut k: u32 = 0;
    proof {
        lemma2_to64();
        lemma2_to64_rest();
        lemma_pow2_adds(64, 24);
    }
    while q >= 0x20_0000_0000_0000
        invariant
            x == q * h + rest,
            rest < h,
            h == pow2(k as nat),
            0x10_0000_0000_0000 <= q,
            k <= 40,
            x < 0x100_0000_0000_0000_0000_0000,
        decreases q,
    {
        let bit: u128 = q % 2;
        proof {
            let half = q / 2;
            assert(h < 0x800_0000_0000) by (nonlinear_arith)
                requires
                    q * h <= 0x100_0000_0000_0000_0000_0000,
                    q >= 0x20_0000_0000_0000,
            ;
            lemma2_to64();
            lemma2_to64_rest();
            if k >= 40 {
                lemma_pow2_adds(k as nat, 1);
                assert(pow2(40) == 0x100_0000_0000);
                assert(q * h >= 0x20_0000_0000_0000 * 0x100_0000_0000) by (nonlinear_arith)
                    requires
                        q >= 0x20_0000_0000_0000,
                        h >= 0x100_0000_0000,
                ;
                assert(false);
            }
            lemma_pow2_adds(k as nat, 1);
            assert(q * h == half * (h * 2) + bit * h) by (nonlinear_arith)
                requires
                    q == 2 * half + bit,
            ;
            assert(bit * h <= h) by (nonlinear_arith)
                requires
                    0 <= bit <= 1,
                    h >= 0,
            ;
            assert(bit == 0 ==> bit * h == 0);
            assert(bit == 1 ==> bit * h == h);
        }
        rest = if bit == 1 {
            rest + h
        } else {
            rest
        };
        q = q / 2;
        h = h * 2;
        k += 1;
    }
    let up_one = if k == 0 {
        match tail {
            Tail::Zero => false,
            Tail::BelowHalf => false,
            Tail::Half => q % 2 == 1,
            Tail::AboveHalf => true,
        }
    } else if rest < h / 2 {
        false
    } else if rest > h / 2 {
        true
    } else {
        match tail {
            Tail::Zero => q % 2 == 1,
            _ => true,
        }
    };
    proof {
        let total = (x * d + n) as nat;
        let dh = (d * h) as nat;
        let r = (rest * d + n) as nat;
        lemma_pow2_pos(k as nat);
        assert(total == q * dh + r) by (nonlinear_arith)
            requires
                x == q * h + rest,
                total == x * d + n,
                dh == d * h,
                r == rest * d + n,
        ;
        assert(r < dh && dh > 0) by (nonlinear_arith)
            requires
                r == rest * d + n,
                n < d,
                rest < h,
                dh == d * h,
        ;
        lemma_fundamental_div_mod_converse(total as int, dh as int, q as int, r as int);
        assert(0x10_0000_0000_0000 * dh <= total < 0x20_0000_0000_0000 * dh) by (nonlinear_arith)
            requires
                total == q * dh + r,
                0 <= r < dh,
                0x10_0000_0000_0000 <= q < 0x20_0000_0000_0000,
        ;
        if k == 0 {
            lemma2_to64();
            assert(dh == d) by (nonlinear_arith)
                requires
                    h == 1,
                    dh == d * h,
            ;
            assert(r == n) by (nonlinear_arith)
                requires
                    rest < h,
                    h == 1,
                    r == rest * d + n,
                    rest >= 0,
            ;
        } else {
            lemma_pow2_adds((k - 1) as nat, 1);
            lemma2_to64();
            let half = pow2((k - 1) as nat);
            assert(h == 2 * half);
            assert(rest < half ==> 2 * r < dh) by (nonlinear_arith)
                requires
                    r == rest * d + n,
                    n < d,
                    dh == d * h,
                    h == 2 * half,
            ;
            assert(rest > half ==> 2 * r > dh) by (nonlinear_arith)
                requires
                    r == rest * d + n,
                    n < d,
                    dh == d * h,
                    h == 2 * half,
            ;
            assert(rest == half ==> 2 * r == dh + 2 * n) by (nonlinear_arith)
                requires
                    r == rest * d + n,
                    dh == d * h,
                    h == 2 * half,
            ;
        }
        let m = if up_one {
            q + 1
        } else {
            q as int
        };
        assert(nearest(total, dh) == m);
        assert(total > 0) by (nonlinear_arith)
            requires
                0x10_0000_0000_0000 * dh <= total,
                dh > 0,
        ;
        lemma_rounded_halved(total, d, k as nat);
        lemma_pow2_adds(52, k as nat);
        assert(x >= pow2(52) * h) by (nonlinear_arith)
            requires
                x == q * h + rest,
                q >= 0x10_0000_0000_0000,
                pow2(52) == 0x10_0000_0000_0000,
                rest >= 0,
        ;
    }
    if up_one {
        (q + 1, k)
    } else {
        (q, k)
    }
}

// --- decimal fractions ---------------------------------------------------------------

pub open spec fn pow10(n: nat) -> nat
    decreases n,
{
    if n == 0 {
        1
    } else {
        10 * pow10((n - 1) as nat)
    }
}

/// The number whose `n` lowest digits are the first of `s`, the lowest first.
pub open spec fn le_value(s: Seq<u8>, n: nat) -> nat
    decreases n,
{
    if n == 0 {
        0
    } else {
        le_value(s, (n - 1) as nat) + s[n - 1] as nat * pow10((n - 1) as nat)
    }
}

pub open spec fn are_digits(s: Seq<u8>) -> bool {
    forall|i: int| 0 <= i < s.len() ==> #[trigger] s[i] <= 9
}

pub proof fn lemma_pow10_pos(n: nat)
    ensures
        pow10(n) > 0,
    decreases n,
{
    if n > 0 {
        lemma_pow10_pos((n - 1) as nat);
    }
}

pub proof fn lemma_le_value_prefix(a: Seq<u8>, b: Seq<u8>, n: nat)
    requires
        n <= a.len(),
        n <= b.len(),
        forall|i: int| 0 <= i < n ==> a[i] == b[i],
    ensures
        le_value(a, n) == le_value(b, n),
    decreases n,
{
    if n > 0 {
        lemma_le_value_prefix(a, b, (n - 1) as nat);
    }
}

proof fn lemma_le_value_bound(s: Seq<u8>, n: nat)
    requires
        n <= s.len(),
        are_digits(s),
    ensures
        le_value(s, n) < pow10(n),
        le_value(s, n) == 0 <==> forall|i: int| 0 <= i < n ==> #[trigger] s[i] == 0,
    decreases n,
{
    if n > 0 {
        let p = pow10((n - 1) as nat);
        let top = s[n - 1] as nat;
        lemma_le_value_bound(s, (n - 1) as nat);
        lemma_pow10_pos((n - 1) as nat);
        assert(top * p <= 9 * p) by (nonlinear_arith)
            requires
                top <= 9,
        ;
        assert(top * p == 0 <==> top == 0) by (nonlinear_arith)
            requires
                p > 0,
        ;
    }
}

/// Doubles a decimal fraction; what comes out before the point is 0 or 1.
fn double_digits(frac: &mut Vec<u8>) -> (carry: u8)
    requires
        are_digits(old(frac)@),
    ensures
        carry <= 1,
        are_digits(final(frac)@),
        final(frac)@.len() == old(frac)@.len(),
        carry * pow10(old(frac)@.len()) + le_value(final(frac)@, old(frac)@.len()) == 2 * le_value(
            old(frac)@,
            old(frac)@.len(),
        ),
{
    let ghost start = frac@;
    let mut carry: u8 = 0;
    let mut i: usize = 0;
    while i < frac.len()
        invariant
            0 <= i <= frac@.len() == start.len(),
            carry <= 1,
            are_digits(start),
            are_digits(frac@),
            forall|k: int| i <= k < start.len() ==> frac@[k] == start[k],
            carry * pow10(i as nat) + le_value(frac@, i as nat) == 2 * le_value(start, i as nat),
        decreases frac@.len() - i,
    {
        let ghost before = frac@;
        let ghost was = carry;
        let twice: u8 = 2 * frac[i] + carry;
        let low: u8 = twice % 10;
        frac.set(i, low);
        carry = twice / 10;
        proof {
            let p = pow10(i as nat);
            lemma_le_value_prefix(before, frac@, i as nat);
            let d = start[i as int];
            assert(carry * (10 * p) + low * p == 2 * (d * p) + was * p) by (nonlinear_arith)
                requires
                    10 * carry + low == 2 * d + was,
            ;
        }
        i += 1;
    }
    carry
}

/// Which part of a whole a decimal fraction is.
fn tail_of(frac: &Vec<u8>) -> (r: Tail)
    requires
        are_digits(frac@),
    ensures
        tail_is(le_value(frac@, frac@.len()), pow10(frac@.len()), r),
{
    let n: usize = frac.len();
    proof {
        lemma_le_value_bound(frac@, n as nat);
        lemma_pow10_pos(n as nat);
    }
    if n == 0 {
        return Tail::Zero;
    }
    let mut low_zero = true;
    let mut i: usize = 0;
    while i + 1 < n
        invariant
            0 <= i < n == frac@.len(),
            low_zero == (forall|k: int| 0 <= k < i ==> #[trigger] frac@[k] == 0),
        decreases n - i,
    {
        if frac[i] != 0 {
            low_zero = false;
        }
        i += 1;
    }
    let top: u8 = frac[n - 1];
    proof {
        let p = pow10((n - 1) as nat);
        let low = le_value(frac@, (n - 1) as nat);
        lemma_le_value_bound(frac@, (n - 1) as nat);
        lemma_pow10_pos((n - 1) as nat);
        assert(top < 5 ==> 2 * (low + top * p) < 10 * p) by (nonlinear_arith)
            requires
                low < p,
        ;
        assert(top > 5 ==> 2 * (low + top * p) > 10 * p) by (nonlinear_arith)
            requires
                low >= 0,
                p > 0,
        ;
        assert(top == 5 ==> top * p == 5 * p) by (nonlinear_arith);
        assert(le_value(frac@, n as nat) == low + top * p);
        assert(low_zero == (low == 0));
    }
    if top == 0 && low_zero {
        Tail::Zero
    } else if top < 5 {
        Tail::BelowHalf
    } else if top == 5 && low_zero {
        Tail::Half
    } else {
        Tail::AboveHalf
    }
}

/// `10^20` and `10^10`, the limits between which a number is worked out.
pub open spec fn moderate(whole: nat, n: nat, d: nat) -> bool {
    &&& whole < 100_000_000_000_000_000_000
    &&& 10_000_000_000 * (whole * d + n) >= d
}

/// Works out `scaled_count` of a number with the given whole part and decimal
/// fraction, the lowest digit first.
pub(crate) fn scale_count(whole: u128, fraction: Vec<u8>, by: u64) -> (r: u128)
    requires
        are_digits(fraction@),
        moderate(whole as nat, le_value(fraction@, fraction@.len()), pow10(fraction@.len())),
        1 <= by <= 1_000_000_000,
    ensures
        r == scaled_count(
            whole as nat * pow10(fraction@.len()) + le_value(fraction@, fraction@.len()),
            pow10(fraction@.len()),
            by as nat,
        ),
{
    let mut frac = fraction;
    let ghost d = pow10(fraction@.len());
    let ghost n0 = whole as nat * d + le_value(fraction@, fraction@.len());
    let mut x: u128 = whole;
    let mut j: u32 = 0;
    proof {
        lemma2_to64();
        lemma_pow10_pos(fraction@.len());
        assert(n0 > 0);
    }
    while x < 0x10_0000_0000_0000
        invariant
            are_digits(frac@),
            frac@.len() == fraction@.len(),
            d == pow10(fraction@.len()),
            d > 0,
            n0 > 0,
            10_000_000_000 * n0 >= d,
            x < 100_000_000_000_000_000_000,
            j <= 86,
            x as nat * d + le_value(frac@, frac@.len()) == n0 * pow2(j as nat),
        decreases 86 - j,
    {
        let ghost n = le_value(frac@, frac@.len());
        let ghost p = pow2(j as nat);
        let ghost was = x;
        proof {
            lemma_le_value_bound(frac@, frac@.len());
            lemma2_to64();
            lemma2_to64_rest();
            lemma_pow2_adds(43, 43);
            if j >= 86 {
                assert(d * 0x400_0000_0000_0000_0000_000 <= 10_000_000_000 * (n0 * p))
                    by (nonlinear_arith)
                    requires
                        p >= 0x400_0000_0000_0000_0000_000,
                        10_000_000_000 * n0 >= d,
                        d > 0,
                ;
                assert(x * d + n < 0x10_0000_0000_0000 * d) by (nonlinear_arith)
                    requires
                        x < 0x10_0000_0000_0000,
                        n < d,
                ;
                assert(false);
            }
            lemma_pow2_adds(j as nat, 1);
        }
        let carry: u8 = double_digits(&mut frac);
        x = 2 * x + carry as u128;
        j += 1;
        proof {
            let n1 = le_value(frac@, frac@.len());
            assert(x * d + n1 == 2 * (was * d + n)) by (nonlinear_arith)
                requires
                    x == 2 * was + carry,
                    carry * d + n1 == 2 * n,
            ;
            assert(n0 * pow2(j as nat) == 2 * (n0 * p)) by (nonlinear_arith)
                requires
                    pow2(j as nat) == 2 * p,
            ;
        }
    }
    let tail = tail_of(&frac);
    let ghost n = le_value(frac@, frac@.len());
    proof {
        lemma_le_value_bound(frac@, frac@.len());
        lemma_rounded_doubled(n0, d, j as nat);
    }
    let (m, k) = round_off(x, tail, Ghost(n), Ghost(d));
    let ghost e: int = k - j;
    assert(rounded(n0, d) == (m as nat, e));
    proof {
        assert(0x10_0000_0000_0000 <= m * by <= 0x20_0000_0000_0000 * 1_000_000_000)
            by (nonlinear_arith)
            requires
                0x10_0000_0000_0000 <= m <= 0x20_0000_0000_0000,
                1 <= by <= 1_000_000_000,
        ;
    }
    let y: u128 = m * by as u128;
    proof {
        lemma_rounded_shifted(y as nat, e);
        assert(y as nat * 1 + 0 == y as nat);
    }
    let (m2, k2) = round_off(y, Tail::Zero, Ghost(0), Ghost(1));
    let ghost e2: int = k2 + e;
    assert(rounded(m as nat * by as nat * up(e), down(e)) == (m2 as nat, e2));
    if k + k2 >= j {
        let shift: u32 = k + k2 - j;
        let power: u128 = power_of_two(shift);
        proof {
            lemma2_to64();
            lemma2_to64_rest();
            lemma_pow2_adds(52, 15);
            lemma_pow2_adds(52, 31);
            if k > 14 {
                lemma_pow2_monotonic(67, 52 + k as nat);
            }
            if k2 > 30 {
                lemma_pow2_monotonic(83, 52 + k2 as nat);
            }
            lemma_pow2_monotonic(shift as nat, 44);
            assert(m2 * power <= 0x20_0000_0000_0000 * 0x1000_0000_0000) by (nonlinear_arith)
                requires
                    m2 <= 0x20_0000_0000_0000,
                    power <= 0x1000_0000_0000,
            ;
            let t = (m2 * power) as nat;
            lemma_fundamental_div_mod_converse((2 * t + 1) as int, 2, t as int, 1);
            assert(half_up(t, 1) == t);
            assert(up(e2) == power && down(e2) == 1);
            assert(m2 as nat * up(e2) == t);
        }
        m2 * power
    } else {
        let shift: u32 = j - k - k2;
        let power: u128 = power_of_two(shift);
        proof {
            lemma2_to64();
            lemma2_to64_rest();
            lemma_pow2_adds(43, 43);
            lemma_pow2_monotonic(shift as nat, 86);
            lemma_pow2_pos(shift as nat);
            assert(up(e2) == 1 && down(e2) == power);
            assert(m2 as nat * up(e2) == m2);
            assert(half_up(m2 as nat, power as nat) == (2 * m2 + power) as nat / (2 * power) as nat);
        }
        (2 * m2 + power) / (2 * power)
    }
}

// --- numbers outside those limits ----------------------------------------------------

/// `2^66` and more stay too large for an `i64`.
pub proof fn lemma_scaled_large(n: nat, d: nat, by: nat)
    requires
        d > 0,
        by >= 1,
        n >= 0x4_0000_0000_0000_0000 * d,
    ensures
        scaled_count(n, d, by) > i64::MAX,
{
    lemma2_to64();
    lemma2_to64_rest();
    let (m, e) = rounded(n, d);
    lemma_rounded_halved(n, d, 14);
    lemma_rounded_range(n, d * pow2(14));
    assert(e >= 14);
    lemma_pow2_monotonic(14, e as nat);
    let p = pow2(e as nat);
    let y = m * by * p;
    assert(y >= 0x4_0000_0000_0000_0000) by (nonlinear_arith)
        requires
            y == m * by * p,
            m >= 0x10_0000_0000_0000,
            by >= 1,
            p >= 0x4000,
    ;
    let (m2, e2) = rounded(y, 1);
    lemma_rounded_halved(y, 1, 14);
    assert(1 * pow2(14) == 0x4000);
    lemma_rounded_range(y, 1 * pow2(14));
    assert(e2 >= 14);
    lemma_pow2_monotonic(14, e2 as nat);
    let t = m2 * pow2(e2 as nat);
    assert(t >= 0x4_0000_0000_0000_0000) by (nonlinear_arith)
        requires
            t == m2 * pow2(e2 as nat),
            m2 >= 0x10_0000_0000_0000,
            pow2(e2 as nat) >= 0x4000,
    ;
    lemma_fundamental_div_mod_converse((2 * t + 1) as int, 2, t as int, 1);
    assert(half_up(t, 1) == t);
}

/// What is below `10^-10` stays below one half.
pub proof fn lemma_scaled_small(n: nat, d: nat, by: nat)
    requires
        n > 0,
        1 <= by <= 1_000_000_000,
        10_000_000_000 * n < d,
    ensures
        scaled_count(n, d, by) == 0,
{
    lemma2_to64();
    lemma2_to64_rest();
    lemma_pow2_adds(43, 43);
    let (m, e) = rounded(n, d);
    lemma_rounded_range(n, d);
    lemma_rounded_doubled(n, d, 86);
    assert(n * pow2(86) < 0x20_0000_0000_0000 * d) by (nonlinear_arith)
        requires
            10_000_000_000 * n < d,
            pow2(86) == 0x80000000000 * 0x80000000000,
    ;
    assert(n * pow2(86) > 0) by (nonlinear_arith)
        requires
            n > 0,
            pow2(86) > 0,
    ;
    lemma_rounded_range(n * pow2(86), d);
    assert(e <= -86);
    let y = m * by;
    assert(0 < y < 0x20_0000_0000_0000 * 0x4000_0000) by (nonlinear_arith)
        requires
            y == m * by,
            0 < m <= 0x20_0000_0000_0000,
            1 <= by <= 1_000_000_000,
    ;
    lemma_rounded_shifted(y, e);
    lemma_rounded_halved(y, 1, 30);
    assert(1 * pow2(30) == 0x4000_0000);
    lemma_rounded_range(y, 1 * pow2(30));
    lemma_rounded_range(y, 1);
    let m2 = rounded(y, 1).0;
    let e2 = rounded(y, 1).1 + e;
    assert(e2 <= -56);
    let p = pow2((-e2) as nat);
    lemma_pow2_monotonic(56, (-e2) as nat);
    assert(m2 * up(e2) == m2) by (nonlinear_arith)
        requires
            up(e2) == 1,
    ;
    assert(half_up(m2, p) == 0) by {
        lemma_fundamental_div_mod_converse(
            (2 * m2 + p) as int,
            (2 * p) as int,
            0,
            (2 * m2 + p) as int,
        );
    }
}

// --- numbers that need no rounding ---------------------------------------------------

proof fn lemma_rounded_exact(n: nat)
    requires
        0 < n < 0x20_0000_0000_0000,
    ensures
        rounded(n, 1).1 <= 0,
        rounded(n, 1).0 == n * pow2((-rounded(n, 1).1) as nat),
    decreases 0x20_0000_0000_0000 - n,
{
    lemma2_to64();
    if n < 0x10_0000_0000_0000 {
        lemma_rounded_exact(2 * n);
        let e = rounded(2 * n, 1).1;
        lemma_pow2_adds((-e) as nat, 1);
        assert((2 * n) * pow2((-e) as nat) == n * (pow2((-e) as nat) * 2)) by (nonlinear_arith);
    } else {
        assert(n / 1 == n && n % 1 == 0);
        assert(n * 1 == n);
    }
}

/// Whole numbers whose product is below `2^53` are multiplied exactly.
pub proof fn lemma_scaled_exact(n: nat, by: nat)
    requires
        n > 0,
        by >= 1,
        n * by < 0x20_0000_0000_0000,
    ensures
        scaled_count(n, 1, by) == n * by,
{
    assert(0 < n <= n * by) by (nonlinear_arith)
        requires
            n > 0,
            by >= 1,
    ;
    lemma_rounded_exact(n);
    let (m, e) = rounded(n, 1);
    let p = pow2((-e) as nat);
    lemma_pow2_pos((-e) as nat);
    if e == 0 {
        lemma2_to64();
    }
    assert(up(e) == 1 && down(e) == p) by {
        lemma2_to64();
    }
    assert(m * by * up(e) == p * (n * by)) by (nonlinear_arith)
        requires
            m == n * p,
            up(e) == 1,
    ;
    lemma_rounded_scales(n * by, 1, p);
    assert(p * 1 == p);
    lemma_rounded_exact(n * by);
    let (m2, e2) = rounded(n * by, 1);
    let p2 = pow2((-e2) as nat);
    lemma_pow2_pos((-e2) as nat);
    assert(up(e2) == 1 && down(e2) == p2) by {
        lemma2_to64();
    }
    let t = n * by;
    assert(m2 * up(e2) == t * p2) by (nonlinear_arith)
        requires
            m2 == t * p2,
            up(e2) == 1,
    ;
    assert(2 * (t * p2) + p2 == t * (2 * p2) + p2) by (nonlinear_arith);
    lemma_fundamental_div_mod_converse(
        (2 * (t * p2) + p2) as int,
        (2 * p2) as int,
        t as int,
        p2 as int,
    );
}

// --- how near rounding stays ---------------------------------------------------------

/// A fraction is rounded to a double that is at most half a unit of its last
/// place away.
pub proof fn lemma_rounded_near(n: nat, d: nat)
    requires
        n > 0,
        d > 0,
    ensures
        ({
            let (m, e) = rounded(n, d);
            &&& 2 * (m * up(e) * d) <= 2 * (n * down(e)) + d * up(e)
            &&& 2 * (n * down(e)) <= 2 * (m * up(e) * d) + d * up(e)
        }),
    decreases distance(n, d),
{
    lemma2_to64();
    if n < 0x10_0000_0000_0000 * d {
        lemma_rounded_near(2 * n, d);
        lemma_rounded_range(2 * n, d);
        let (m, e) = rounded(2 * n, d);
        lemma_pow2_adds((-e) as nat, 1);
        let b = down(e);
        assert(down(e - 1) == 2 * b && up(e - 1) == 1 && up(e) == 1);
        assert((2 * n) * b == n * (2 * b)) by (nonlinear_arith);
    } else if n >= 0x20_0000_0000_0000 * d {
        lemma_rounded_near(n, 2 * d);
        lemma_rounded_range(n, 2 * d);
        let (m, e) = rounded(n, 2 * d);
        lemma_pow2_adds(e as nat, 1);
        let a = up(e);
        assert(up(e + 1) == 2 * a && down(e + 1) == 1 && down(e) == 1);
        assert(m * a * (2 * d) == m * (2 * a) * d) by (nonlinear_arith);
        assert((2 * d) * a == d * (2 * a)) by (nonlinear_arith);
    } else {
        let q = n / d;
        let r = n % d;
        lemma_fundamental_div_mod(n as int, d as int);
        let m = nearest(n, d);
        assert(up(0) == 1 && down(0) == 1);
        assert(m * 1 * d == m * d && n * 1 == n && d * 1 == d) by (nonlinear_arith);
        if m == q {
            assert(m * d == d * q) by (nonlinear_arith)
                requires
                    m == q,
            ;
        } else {
            assert(m * d == d * q + d) by (nonlinear_arith)
                requires
                    m == q + 1,
            ;
        }
    }
}

/// What a fraction near to `n / d` is near to when it is multiplied.
proof fn lemma_near_times(n: int, d: int, by: int, t: int, p: int, u: int, b: int)
    requires
        n > 0,
        d > 0,
        by >= 1,
        u >= 0,
        b >= 0,
        t * d == n * by,
        2 * (p * d) <= 2 * (n * b) + d * u,
        2 * (n * b) <= 2 * (p * d) + d * u,
        0x10_0000_0000_0000 * u <= p,
    ensures
        0x20_0000_0000_0000 * (p * by - t * b) <= p * by,
        0x20_0000_0000_0000 * (t * b - p * by) <= p * by,
{
    let c: int = 0x10_0000_0000_0000;
    let z = p * by;
    assert(c * (d * u) <= d * p) by (nonlinear_arith)
        requires
            c * u <= p,
            d > 0,
    ;
    assert((p * d) * by == d * z && (n * b) * by == d * (t * b) && (d * p) * by == d * z)
        by (nonlinear_arith)
        requires
            z == p * by,
            t * d == n * by,
    ;
    let x = p * d;
    let y = n * b;
    assert(2 * c * (x - y) <= d * p && 2 * c * (y - x) <= d * p) by (nonlinear_arith)
        requires
            2 * x <= 2 * y + d * u,
            2 * y <= 2 * x + d * u,
            c * (d * u) <= d * p,
            c > 0,
    ;
    assert((2 * c * (x - y)) * by <= (d * p) * by && (2 * c * (y - x)) * by <= (d * p) * by)
        by (nonlinear_arith)
        requires
            2 * c * (x - y) <= d * p,
            2 * c * (y - x) <= d * p,
            by >= 1,
    ;
    let tb = t * b;
    assert((2 * c * (x - y)) * by == 2 * c * (x * by - y * by)) by (nonlinear_arith);
    assert((2 * c * (y - x)) * by == 2 * c * (y * by - x * by)) by (nonlinear_arith);
    assert(2 * c * (d * z - d * tb) <= d * z && 2 * c * (d * tb - d * z) <= d * z);
    assert(2 * c * (z - tb) <= z) by (nonlinear_arith)
        requires
            2 * c * (d * z - d * tb) <= d * z,
            d > 0,
    ;
    assert(2 * c * (tb - z) <= z) by (nonlinear_arith)
        requires
            2 * c * (d * tb - d * z) <= d * z,
            d > 0,
    ;
}

/// Two steps, each within one part in `2^53`, stay within half of one.
proof fn lemma_two_steps(t: int, z: int, b: int, w: int, v: int)
    requires
        0 < t < 0x2_0000_0000_0000,
        z > 0,
        b > 0,
        w > 0,
        v > 0,
        0x20_0000_0000_0000 * (z - t * b) <= z,
        0x20_0000_0000_0000 * (t * b - z) <= z,
        0x20_0000_0000_0000 * (w * b - z * v) <= w * b,
        0x20_0000_0000_0000 * (z * v - w * b) <= w * b,
    ensures
        2 * (w - t * v) < v,
        2 * (t * v - w) < v,
{
    let c: int = 0x20_0000_0000_0000;
    let tb = t * b;
    let zv = z * v;
    let wb = w * b;
    let tbv = tb * v;
    assert(z <= 2 * tb);
    assert(zv <= 2 * tbv) by (nonlinear_arith)
        requires
            z <= 2 * tb,
            v > 0,
            zv == z * v,
            tbv == tb * v,
    ;
    assert(wb <= 2 * zv);
    assert(c * (zv - tbv) <= zv && c * (tbv - zv) <= zv) by (nonlinear_arith)
        requires
            c * (z - tb) <= z,
            c * (tb - z) <= z,
            v > 0,
            zv == z * v,
            tbv == tb * v,
    ;
    assert(c * (wb - tbv) <= 6 * tbv);
    assert(c * (tbv - wb) <= 6 * tbv);
    assert(tbv == (t * v) * b) by (nonlinear_arith)
        requires
            tb == t * b,
            tbv == tb * v,
    ;
    let tv = t * v;
    assert(c * (w - tv) <= 6 * tv) by (nonlinear_arith)
        requires
            c * (w * b - tv * b) <= 6 * (tv * b),
            b > 0,
    ;
    assert(c * (tv - w) <= 6 * tv) by (nonlinear_arith)
        requires
            c * (tv * b - w * b) <= 6 * (tv * b),
            b > 0,
    ;
    assert(tv < 0x2_0000_0000_0000 * v) by (nonlinear_arith)
        requires
            tv == t * v,
            t < 0x2_0000_0000_0000,
            v > 0,
    ;
}

/// A fraction that a multiplication makes whole is multiplied exactly, as long
/// as the product is below `2^49`.
pub proof fn lemma_scaled_whole(n: nat, d: nat, by: nat, t: nat)
    requires
        n > 0,
        d > 0,
        by >= 1,
        t * d == n * by,
        t < 0x2_0000_0000_0000,
    ensures
        scaled_count(n, d, by) == t,
{
    assert(t > 0) by (nonlinear_arith)
        requires
            t * d == n * by,
            n > 0,
            by >= 1,
    ;
    let (m, e) = rounded(n, d);
    lemma_rounded_range(n, d);
    lemma_rounded_near(n, d);
    if e >= 0 {
        lemma_pow2_pos(e as nat);
    } else {
        lemma_pow2_pos((-e) as nat);
    }
    let u = up(e);
    let b = down(e);
    let p = m * u;
    assert(0x10_0000_0000_0000 * u <= p) by (nonlinear_arith)
        requires
            p == m * u,
            m >= 0x10_0000_0000_0000,
    ;
    lemma_near_times(n as int, d as int, by as int, t as int, p as int, u as int, b as int);
    let z = m * by * u;
    assert(z == p * by) by (nonlinear_arith)
        requires
            z == m * by * u,
            p == m * u,
    ;
    assert(z > 0) by (nonlinear_arith)
        requires
            z == p * by,
            p > 0,
            by >= 1,
    ;
    let (m2, e2) = rounded(z, b);
    lemma_rounded_range(z, b);
    lemma_rounded_near(z, b);
    if e2 >= 0 {
        lemma_pow2_pos(e2 as nat);
    } else {
        lemma_pow2_pos((-e2) as nat);
    }
    let u2 = up(e2);
    let v = down(e2);
    let w = m2 * u2;
    assert(0x10_0000_0000_0000 * u2 <= w) by (nonlinear_arith)
        requires
            w == m2 * u2,
            m2 >= 0x10_0000_0000_0000,
    ;
    let c: int = 0x10_0000_0000_0000;
    assert(c * (b * u2) <= w * b) by (nonlinear_arith)
        requires
            c * u2 <= w,
            b > 0,
    ;
    lemma_two_steps(t as int, z as int, b as int, w as int, v as int);
    assert(t * (2 * v) == 2 * (t * v)) by (nonlinear_arith);
    lemma_fundamental_div_mod_converse(
        (2 * w + v) as int,
        (2 * v) as int,
        t as int,
        2 * w + v - 2 * (t * v),
    );
}

} // verus!
