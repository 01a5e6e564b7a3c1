//! Counts as people read them: `8,021`, `695M`, `1.2K`.
//!
//! A count is read as a double, scaled and rounded as doubles are; the
//! arithmetic is done in whole numbers.

use crate::rounding::{lemma_le_value_prefix, lemma_pow10_pos, lemma_scaled_exact, lemma_scaled_large, lemma_scaled_small, scale_count};
use crate::text::{chars_of, eq_ignore_ascii_case, is_ascii_digit, is_whitespace, string_of, trim};
use vstd::prelude::*;

verus! {

use crate::double::clamped;
use crate::rounding::{are_digits, le_value, lemma_scaled_whole, moderate, pow10, scaled_count};
use crate::text::{
    all_digits, ascii_lower, digit_value, digits_value, is_digit, is_white, law_padding_comes_off,
    leads, same_ignoring_ascii_case, trimmed,
};

// --- numbers as a text writes them ---------------------------------------------------

/// A number that a text writes, but for its sign.
pub enum Written {
    Nan,
    Infinite,
    /// The digits, times ten to the power.
    Finite { digits: Seq<char>, power: int },
}

/// Where the run of digits ends that starts at `i`.
pub open spec fn digit_run(s: Seq<char>, i: int) -> int
    decreases s.len() - i,
{
    if i < 0 || i >= s.len() || !is_digit(s[i]) {
        i
    } else {
        digit_run(s, i + 1)
    }
}

/// The power of ten that an exponent writes: `e`, an optional sign, digits. No
/// exponent is the power 0.
pub open spec fn exponent_of(s: Seq<char>) -> Option<int> {
    if s.len() == 0 {
        Some(0)
    } else if s[0] != 'e' && s[0] != 'E' {
        None
    } else {
        let tail = s.drop_first();
        let body = if leads(tail, '-') || leads(tail, '+') {
            tail.drop_first()
        } else {
            tail
        };
        if body.len() == 0 || !all_digits(body) {
            None
        } else if leads(tail, '-') {
            Some(-(digits_value(body) as int))
        } else {
            Some(digits_value(body) as int)
        }
    }
}

/// The number that a text without a sign writes: `inf`, `infinity` or `nan` in
/// letters of either case, or digits with at most one point among them and at
/// most one exponent behind them.
pub open spec fn number_of(s: Seq<char>) -> Option<Written> {
    if same_ignoring_ascii_case(s, "inf"@) || same_ignoring_ascii_case(s, "infinity"@) {
        Some(Written::Infinite)
    } else if same_ignoring_ascii_case(s, "nan"@) {
        Some(Written::Nan)
    } else {
        let a = digit_run(s, 0);
        let point = a < s.len() && s[a] == '.';
        let b = if point {
            digit_run(s, a + 1)
        } else {
            a
        };
        let behind = if point {
            s.subrange(a + 1, b)
        } else {
            Seq::empty()
        };
        let digits = s.take(a) + behind;
        if digits.len() == 0 {
            None
        } else {
            match exponent_of(s.skip(b)) {
                Some(x) => Some(Written::Finite { digits, power: x - behind.len() }),
                None => None,
            }
        }
    }
}

/// The number that a text writes, and whether it is negative.
pub open spec fn signed_number_of(s: Seq<char>) -> Option<(bool, Written)> {
    let body = if leads(s, '-') || leads(s, '+') {
        s.drop_first()
    } else {
        s
    };
    match number_of(body) {
        Some(w) => Some((leads(s, '-'), w)),
        None => None,
    }
}

/// The nearest whole number to `digits * 10^power * by`, as doubles have it.
pub open spec fn finite_count(digits: Seq<char>, power: int, by: nat) -> nat {
    if power >= 0 {
        scaled_count(digits_value(digits) * pow10(power as nat), 1, by)
    } else {
        scaled_count(digits_value(digits), pow10((-power) as nat), by)
    }
}

/// What a suffix multiplies a count by.
pub open spec fn multiplier(c: char) -> nat {
    if c == 'K' || c == 'k' {
        1_000
    } else if c == 'M' || c == 'm' {
        1_000_000
    } else if c == 'B' || c == 'b' {
        1_000_000_000
    } else {
        1
    }
}

/// A text without its commas and white space.
pub open spec fn unseparated(s: Seq<char>) -> Seq<char>
    decreases s.len(),
{
    if s.len() == 0 {
        s
    } else if s.last() == ',' || is_white(s.last()) {
        unseparated(s.drop_last())
    } else {
        unseparated(s.drop_last()).push(s.last())
    }
}

/// The count that a number, multiplied, amounts to. What is no number counts
/// 0, and what lies outside the range of `i64` counts as the end of the range.
pub open spec fn counted(negative: bool, w: Written, by: nat) -> i64 {
    match w {
        Written::Nan => 0,
        Written::Infinite => if negative {
            i64::MIN
        } else {
            i64::MAX
        },
        Written::Finite { digits, power } => if negative {
            clamped(-(finite_count(digits, power, by) as int))
        } else {
            clamped(finite_count(digits, power, by) as int)
        },
    }
}

/// The count that a text writes.
pub open spec fn abbreviated_count(s: Seq<char>) -> Option<i64> {
    let t = trimmed(s);
    if t.len() == 0 {
        None
    } else {
        let by = multiplier(t.last());
        let number = if by > 1 {
            t.drop_last()
        } else {
            t
        };
        match signed_number_of(unseparated(number)) {
            Some((negative, w)) => Some(counted(negative, w, by)),
            None => None,
        }
    }
}

// --- digits --------------------------------------------------------------------------

proof fn lemma_pow10_adds(a: nat, b: nat)
    ensures
        pow10(a + b) == pow10(a) * pow10(b),
    decreases b,
{
    if b == 0 {
        assert(pow10(a) * 1 == pow10(a));
    } else {
        lemma_pow10_adds(a, (b - 1) as nat);
        let p = pow10((b - 1) as nat);
        assert(pow10(a) * (10 * p) == 10 * (pow10(a) * p)) by (nonlinear_arith);
    }
}

proof fn lemma_pow10_values()
    ensures
        pow10(10) == 10_000_000_000,
        pow10(19) == 10_000_000_000_000_000_000,
        pow10(20) == 100_000_000_000_000_000_000,
{
    reveal_with_fuel(pow10, 21);
}

proof fn lemma_pow10_monotonic(a: nat, b: nat)
    requires
        a <= b,
    ensures
        pow10(a) <= pow10(b),
{
    lemma_pow10_adds(a, (b - a) as nat);
    lemma_pow10_pos(a);
    lemma_pow10_pos((b - a) as nat);
    assert(pow10(a) * pow10((b - a) as nat) >= pow10(a)) by (nonlinear_arith)
        requires
            pow10((b - a) as nat) >= 1,
    ;
}

proof fn lemma_digit_above_zero(c: char)
    requires
        is_digit(c),
        c != '0',
    ensures
        digit_value(c) >= 1,
{
}

proof fn lemma_digits_value_bound(s: Seq<char>)
    requires
        all_digits(s),
    ensures
        digits_value(s) < pow10(s.len()),
        s.len() > 0 && s[0] != '0' ==> digits_value(s) >= pow10((s.len() - 1) as nat),
    decreases s.len(),
{
    if s.len() > 0 {
        let t = s.drop_last();
        assert(all_digits(t)) by {
            assert forall|i: int| 0 <= i < t.len() implies is_digit(#[trigger] t[i]) by {
                assert(t[i] == s[i]);
            }
        }
        assert(is_digit(s[s.len() - 1]));
        lemma_digits_value_bound(t);
        if t.len() == 0 {
            assert(s[0] == s.last());
            assert(digits_value(t) == 0);
            assert(pow10(0) == 1);
            if s[0] != '0' {
                lemma_digit_above_zero(s[0]);
            }
        } else {
            assert(t[0] == s[0]);
            assert(pow10(t.len()) == 10 * pow10((t.len() - 1) as nat));
        }
    }
}

/// Zeros in front do not change a number.
proof fn lemma_leading_zeros(s: Seq<char>, z: int)
    requires
        0 <= z <= s.len(),
        forall|i: int| 0 <= i < z ==> #[trigger] s[i] == '0',
    ensures
        digits_value(s) == digits_value(s.skip(z)),
    decreases s.len(),
{
    if s.len() == 0 {
        assert(s.skip(z) =~= s);
    } else if z == s.len() {
        lemma_leading_zeros(s.drop_last(), z - 1);
        assert(s.drop_last().skip(z - 1) =~= Seq::<char>::empty());
        assert(s.skip(z) =~= Seq::<char>::empty());
        assert(s[z - 1] == '0');
    } else {
        lemma_leading_zeros(s.drop_last(), z);
        assert(s.skip(z).drop_last() =~= s.drop_last().skip(z));
    }
}

fn digit_of(c: char) -> (r: u8)
    requires
        is_digit(c),
    ensures
        r == digit_value(c),
        r <= 9,
{
    (c as u32 - 0x30) as u8
}

/// The number that a run of at most 20 digits stands for.
fn small_number(chars: &Vec<char>, from: usize, to: usize) -> (r: u128)
    requires
        from <= to <= chars@.len(),
        to - from <= 20,
        all_digits(chars@.subrange(from as int, to as int)),
    ensures
        r == digits_value(chars@.subrange(from as int, to as int)),
        r < pow10((to - from) as nat),
        r < 100_000_000_000_000_000_000,
{
    let ghost run = chars@.subrange(from as int, to as int);
    let mut value: u128 = 0;
    let mut i: usize = from;
    assert(run.take(0) =~= Seq::<char>::empty());
    while i < to
        invariant
            from <= i <= to <= chars@.len(),
            to - from <= 20,
            run == chars@.subrange(from as int, to as int),
            all_digits(run),
            value == digits_value(run.take(i - from)),
        decreases to - i,
    {
        proof {
            let shown = run.take(i - from);
            assert(all_digits(shown)) by {
                assert forall|k: int| 0 <= k < shown.len() implies is_digit(
                    #[trigger] shown[k],
                ) by {
                    assert(shown[k] == run[k]);
                }
            }
            lemma_digits_value_bound(shown);
            lemma_pow10_monotonic(shown.len(), 19);
            lemma_pow10_values();
            assert(run[i - from] == chars@[i as int]);
            assert(run.take(i - from + 1).drop_last() =~= shown);
        }
        value = value * 10 + digit_of(chars[i]) as u128;
        i += 1;
    }
    proof {
        assert(run.take(i - from) =~= run);
        lemma_digits_value_bound(run);
        lemma_pow10_monotonic(run.len(), 20);
        lemma_pow10_values();
    }
    value
}

// --- finite numbers ------------------------------------------------------------------

/// Whether two counts are the same as far as an `i64` can tell.
spec fn alike(a: nat, b: nat) -> bool {
    a == b || (a > i64::MAX && b > i64::MAX)
}

/// The digits behind the point of a run of digits, the lowest first, where the
/// last `f` of the run, filled up with zeros in front, stand behind the point.
fn digits_behind(chars: &Vec<char>, z: usize, f: u128) -> (r: Vec<u8>)
    requires
        z <= chars@.len(),
        all_digits(chars@.skip(z as int)),
    ensures
        are_digits(r@),
        r@.len() == f,
        digits_value(chars@.skip(z as int)) == (if f < chars@.len() - z {
            digits_value(chars@.subrange(z as int, chars@.len() - f))
        } else {
            0
        }) * pow10(f as nat) + le_value(r@, f as nat),
{
    let ghost run = chars@.skip(z as int);
    let ghost total = digits_value(run);
    let len: usize = chars.len();
    let mut out: Vec<u8> = Vec::new();
    assert(run.take(run.len() as int) =~= run);
    while (out.len() as u128) < f
        invariant
            z <= len == chars@.len(),
            run == chars@.skip(z as int),
            all_digits(run),
            total == digits_value(run),
            are_digits(out@),
            out@.len() <= f,
            total == (if out@.len() < run.len() {
                digits_value(run.take(run.len() - out@.len()))
            } else {
                0
            }) * pow10(out@.len()) + le_value(out@, out@.len()),
        decreases f - out@.len(),
    {
        let i: usize = out.len();
        let ghost before = out@;
        let ghost p = pow10(i as nat);
        let d: u8 = if i < len - z {
            assert(run[run.len() - 1 - i] == chars@[len - 1 - i]);
            digit_of(chars[len - 1 - i])
        } else {
            0
        };
        out.push(d);
        let grown: usize = out.len();
        proof {
            lemma_le_value_prefix(before, out@, i as nat);
            assert(le_value(out@, out@.len()) == le_value(before, i as nat) + d as nat * p);
            if i < run.len() {
                let shown = run.take(run.len() - i);
                let less = run.take(run.len() - i - 1);
                assert(shown.drop_last() =~= less);
                let low = digits_value(less);
                assert(digits_value(shown) == 10 * low + d);
                assert((10 * low + d) * p == low * (10 * p) + d * p) by (nonlinear_arith);
                if i + 1 == run.len() {
                    assert(less =~= Seq::<char>::empty());
                }
            } else {
                assert(0 * p == 0 && 0 * (10 * p) == 0);
                assert(d as nat * p == 0) by (nonlinear_arith)
                    requires
                        d == 0,
                ;
            }
        }
    }
    proof {
        if f < run.len() {
            assert(run.take(run.len() - f) =~= chars@.subrange(z as int, chars@.len() - f));
        }
    }
    out
}

proof fn lemma_large_count(run: Seq<char>, power: int, by: nat)
    requires
        run.len() > 0,
        all_digits(run),
        run[0] != '0',
        run.len() + power >= 21,
        by >= 1,
    ensures
        finite_count(run, power, by) > i64::MAX,
{
    let m = digits_value(run);
    let l = (run.len() - 1) as nat;
    lemma_digits_value_bound(run);
    lemma_pow10_values();
    if power >= 0 {
        let p = pow10(power as nat);
        lemma_pow10_adds(l, power as nat);
        lemma_pow10_monotonic(20, l + power as nat);
        assert(m * p >= pow10(l) * p) by (nonlinear_arith)
            requires
                m >= pow10(l),
        ;
        lemma_scaled_large(m * p, 1, by);
    } else {
        let f = (-power) as nat;
        let p = pow10(f);
        lemma_pow10_pos(f);
        lemma_pow10_adds(20, f);
        lemma_pow10_monotonic(20 + f, l);
        lemma_scaled_large(m, p, by);
    }
}

proof fn lemma_small_count(run: Seq<char>, power: int, by: nat)
    requires
        run.len() > 0,
        all_digits(run),
        run[0] != '0',
        run.len() + power <= -10,
        1 <= by <= 1_000_000_000,
    ensures
        finite_count(run, power, by) == 0,
{
    let m = digits_value(run);
    let l = run.len();
    let f = (-power) as nat;
    lemma_digits_value_bound(run);
    lemma_pow10_pos((l - 1) as nat);
    lemma_pow10_values();
    lemma_pow10_adds(10, l);
    lemma_pow10_monotonic(10 + l, f);
    lemma_scaled_small(m, pow10(f), by);
}

/// Works out `finite_count`, as far as an `i64` can tell. The power is given as
/// its size and its sign, less the number of digits behind the point.
fn count_digits(
    chars: &Vec<char>,
    behind: usize,
    exponent: u128,
    negative: bool,
    by: u64,
    Ghost(x): Ghost<nat>,
) -> (r: u128)
    requires
        all_digits(chars@),
        behind <= chars@.len(),
        1 <= by <= 1_000_000_000,
        exponent <= 1_000_000_000_000_000_000_000_000,
        exponent == x || (exponent == 1_000_000_000_000_000_000_000_000 && x >= exponent),
    ensures
        alike(
            r as nat,
            finite_count(
                chars@,
                (if negative {
                    -x
                } else {
                    x as int
                }) - behind,
                by as nat,
            ),
        ),
{
    let ghost exact: int = (if negative {
        -x
    } else {
        x as int
    }) - behind;
    let len: usize = chars.len();
    let mut z: usize = 0;
    while z < len && chars[z] == '0'
        invariant
            0 <= z <= len == chars@.len(),
            forall|i: int| 0 <= i < z ==> #[trigger] chars@[i] == '0',
        decreases len - z,
    {
        z += 1;
    }
    let ghost run = chars@.skip(z as int);
    let ghost m = digits_value(run);
    proof {
        lemma_leading_zeros(chars@, z as int);
        assert(all_digits(run)) by {
            assert forall|i: int| 0 <= i < run.len() implies is_digit(#[trigger] run[i]) by {
                assert(run[i] == chars@[i + z]);
            }
        }
        assert(finite_count(chars@, exact, by as nat) == finite_count(run, exact, by as nat));
    }
    if z == len {
        proof {
            assert(run =~= Seq::<char>::empty());
            assert(m == 0);
            if exact >= 0 {
                assert(0 * pow10(exact as nat) == 0) by (nonlinear_arith);
            }
        }
        return 0;
    }
    assert(run[0] == chars@[z as int]);
    let power: i128 = (if negative {
        -(exponent as i128)
    } else {
        exponent as i128
    }) - behind as i128;
    let shown: i128 = (len - z) as i128;
    if shown + power >= 21 {
        proof {
            lemma_large_count(run, exact, by as nat);
        }
        return 0x8000_0000_0000_0000;
    }
    if shown + power <= -10 {
        proof {
            lemma_small_count(run, exact, by as nat);
        }
        return 0;
    }
    assert(power == exact);
    proof {
        lemma_digits_value_bound(run);
    }
    if power >= 0 {
        assert(chars@.subrange(z as int, len as int) =~= run);
        let digits: u128 = small_number(chars, z, len);
        let mut whole: u128 = digits;
        let mut i: i128 = 0;
        let ghost l = run.len();
        assert(m * 1 == m);
        while i < power
            invariant
                0 <= i <= power,
                l + power <= 20,
                m < pow10(l),
                whole == m * pow10(i as nat),
            decreases power - i,
        {
            proof {
                let p = pow10(i as nat);
                lemma_pow10_adds(l, i as nat);
                lemma_pow10_monotonic(l + i as nat, 19);
                lemma_pow10_values();
                lemma_pow10_pos(i as nat);
                assert(m * p < pow10(l) * p) by (nonlinear_arith)
                    requires
                        m < pow10(l),
                        p > 0,
                ;
                assert(m * (10 * p) == 10 * (m * p)) by (nonlinear_arith);
            }
            whole = whole * 10;
            i += 1;
        }
        proof {
            let p = pow10(power as nat);
            lemma_pow10_adds(l, power as nat);
            lemma_pow10_monotonic(l + power as nat, 20);
            lemma_pow10_values();
            lemma_pow10_pos(power as nat);
            lemma_pow10_pos((l - 1) as nat);
            assert(0 < m * p < pow10(l) * p) by (nonlinear_arith)
                requires
                    0 < m < pow10(l),
                    p > 0,
            ;
        }
        let none: Vec<u8> = Vec::new();
        assert(le_value(none@, 0) == 0);
        assert(whole as nat * pow10(0) == whole);
        return scale_count(whole, none, by);
    }
    let f: u128 = (-power) as u128;
    let frac = digits_behind(chars, z, f);
    let whole: u128 = if f < (len - z) as u128 {
        let to: usize = len - f as usize;
        proof {
            let front = chars@.subrange(z as int, to as int);
            assert(all_digits(front)) by {
                assert forall|i: int| 0 <= i < front.len() implies is_digit(
                    #[trigger] front[i],
                ) by {
                    assert(front[i] == chars@[i + z]);
                }
            }
        }
        small_number(chars, z, to)
    } else {
        0
    };
    proof {
        let l = run.len();
        let d = pow10(f as nat);
        let n = le_value(frac@, f as nat);
        assert(m == whole * d + n);
        lemma_pow10_values();
        lemma_pow10_adds(10, (l - 1) as nat);
        lemma_pow10_monotonic(f as nat, (10 + l - 1) as nat);
        assert(moderate(whole as nat, n, d));
    }
    scale_count(whole, frac, by)
}

// --- reading -------------------------------------------------------------------------

fn run_end(chars: &Vec<char>, from: usize) -> (r: usize)
    requires
        from <= chars@.len(),
    ensures
        r == digit_run(chars@, from as int),
        from <= r <= chars@.len(),
        forall|k: int| from <= k < r ==> is_digit(#[trigger] chars@[k]),
{
    let mut i: usize = from;
    while i < chars.len() && is_ascii_digit(chars[i])
        invariant
            from <= i <= chars@.len(),
            digit_run(chars@, from as int) == digit_run(chars@, i as int),
            forall|k: int| from <= k < i ==> is_digit(#[trigger] chars@[k]),
        decreases chars@.len() - i,
    {
        i += 1;
    }
    i
}

/// The limit beyond which the size of an exponent makes no difference.
const EXPONENT_LIMIT: u128 = 1_000_000_000_000_000_000_000_000;

/// The size of an integer.
spec fn size_of_int(x: int) -> nat {
    if x < 0 {
        (-x) as nat
    } else {
        x as nat
    }
}

/// Reads the exponent that starts at `from`: whether it is negative, and its
/// size, up to the limit.
fn read_exponent(chars: &Vec<char>, from: usize) -> (r: Option<(bool, u128)>)
    requires
        from <= chars@.len(),
    ensures
        match exponent_of(chars@.skip(from as int)) {
            Some(x) => r matches Some((negative, size)) && {
                &&& negative ==> x <= 0
                &&& !negative ==> x >= 0
                &&& size <= EXPONENT_LIMIT
                &&& size == size_of_int(x) || (size == EXPONENT_LIMIT && size_of_int(x) >= size)
            },
            None => r is None,
        },
{
    let ghost s = chars@.skip(from as int);
    let len: usize = chars.len();
    if from == len {
        return Some((false, 0));
    }
    assert(s[0] == chars@[from as int]);
    if chars[from] != 'e' && chars[from] != 'E' {
        return None;
    }
    let ghost tail = s.drop_first();
    let mut at: usize = from + 1;
    assert(tail =~= chars@.skip(at as int));
    let mut negative = false;
    if at < len && (chars[at] == '-' || chars[at] == '+') {
        negative = chars[at] == '-';
        at += 1;
    }
    let ghost body = if leads(tail, '-') || leads(tail, '+') {
        tail.drop_first()
    } else {
        tail
    };
    assert(body =~= chars@.skip(at as int));
    if at == len {
        return None;
    }
    let mut size: u128 = 0;
    let mut i: usize = at;
    assert(body.take(0) =~= Seq::<char>::empty());
    while i < len
        invariant
            at <= i <= len == chars@.len(),
            body == chars@.skip(at as int),
            size <= EXPONENT_LIMIT,
            size == digits_value(body.take(i - at)) || (size == EXPONENT_LIMIT && digits_value(
                body.take(i - at),
            ) >= size),
            forall|k: int| 0 <= k < i - at ==> is_digit(#[trigger] body[k]),
            body.len() > 0,
            s.len() > 0,
            s[0] == 'e' || s[0] == 'E',
            s == chars@.skip(from as int),
            tail == s.drop_first(),
            body == (if leads(tail, '-') || leads(tail, '+') {
                tail.drop_first()
            } else {
                tail
            }),
        decreases len - i,
    {
        assert(body[i - at] == chars@[i as int]);
        if !is_ascii_digit(chars[i]) {
            assert(!all_digits(body));
            return None;
        }
        assert(body.take(i - at + 1).drop_last() =~= body.take(i - at));
        let next: u128 = size * 10 + digit_of(chars[i]) as u128;
        size = if next > EXPONENT_LIMIT {
            EXPONENT_LIMIT
        } else {
            next
        };
        i += 1;
    }
    assert(body.take(i - at) =~= body);
    assert(all_digits(body));
    Some((negative, size))
}

/// The nearest `i64` to a count with a sign.
fn signed_count(negative: bool, size: u128, Ghost(exact): Ghost<nat>) -> (r: i64)
    requires
        alike(size as nat, exact),
    ensures
        r == clamped(
            if negative {
                -(exact as int)
            } else {
                exact as int
            },
        ),
{
    if size > 0x7fff_ffff_ffff_ffff {
        if negative {
            i64::MIN
        } else {
            i64::MAX
        }
    } else if negative {
        -(size as i64)
    } else {
        size as i64
    }
}

/// The digits before and behind the point.
fn join_digits(chars: &Vec<char>, a: usize, c: usize, b: usize) -> (r: Vec<char>)
    requires
        a <= c <= b <= chars@.len(),
    ensures
        r@ == chars@.take(a as int) + chars@.subrange(c as int, b as int),
{
    let mut out: Vec<char> = Vec::new();
    let mut i: usize = 0;
    assert(chars@.take(0) =~= Seq::<char>::empty());
    while i < a
        invariant
            0 <= i <= a <= chars@.len(),
            out@ == chars@.take(i as int),
        decreases a - i,
    {
        out.push(chars[i]);
        assert(out@ =~= chars@.take(i + 1));
        i += 1;
    }
    i = c;
    assert(out@ =~= chars@.take(a as int) + chars@.subrange(c as int, c as int));
    while i < b
        invariant
            a <= c <= i <= b <= chars@.len(),
            out@ == chars@.take(a as int) + chars@.subrange(c as int, i as int),
        decreases b - i,
    {
        out.push(chars[i]);
        assert(out@ =~= chars@.take(a as int) + chars@.subrange(c as int, i + 1));
        i += 1;
    }
    out
}

/// The count that a text without separators writes, times `by`.
fn count_number(text: &str, by: u64) -> (r: Option<i64>)
    requires
        1 <= by <= 1_000_000_000,
    ensures
        r == match signed_number_of(text@) {
            Some((negative, w)) => Some(counted(negative, w, by as nat)),
            None => None,
        },
{
    let chars = chars_of(text);
    let negative = chars.len() > 0 && chars[0] == '-';
    let from: usize = if negative || (chars.len() > 0 && chars[0] == '+') {
        1
    } else {
        0
    };
    let body_text = string_of(&chars, from, chars.len());
    let body = chars_of(body_text.as_str());
    let ghost s = body@;
    assert(s =~= (if leads(text@, '-') || leads(text@, '+') {
        text@.drop_first()
    } else {
        text@
    }));
    if eq_ignore_ascii_case(body_text.as_str(), "inf") || eq_ignore_ascii_case(
        body_text.as_str(),
        "infinity",
    ) {
        return Some(
            if negative {
                i64::MIN
            } else {
                i64::MAX
            },
        );
    }
    if eq_ignore_ascii_case(body_text.as_str(), "nan") {
        return Some(0);
    }
    let a: usize = run_end(&body, 0);
    let point = a < body.len() && body[a] == '.';
    let c: usize = if point {
        a + 1
    } else {
        a
    };
    let b: usize = if point {
        run_end(&body, c)
    } else {
        a
    };
    let digits = join_digits(&body, a, c, b);
    let behind: usize = b - c;
    proof {
        let part = if point {
            s.subrange(a + 1, b as int)
        } else {
            Seq::empty()
        };
        assert(s.subrange(c as int, b as int) =~= part);
        assert(all_digits(digits@)) by {
            assert forall|i: int| 0 <= i < digits@.len() implies is_digit(#[trigger] digits@[i]) by {
                if i < a {
                    assert(digits@[i] == s[i]);
                } else {
                    assert(digits@[i] == s[i - a + c]);
                }
            }
        }
    }
    if digits.len() == 0 {
        return None;
    }
    match read_exponent(&body, b) {
        Some((below, size)) => {
            let ghost x = exponent_of(s.skip(b as int))->0;
            let ghost power = x - behind;
            let got: u128 = count_digits(&digits, behind, size, below, by, Ghost(size_of_int(x)));
            Some(signed_count(negative, got, Ghost(finite_count(digits@, power, by as nat))))
        },
        None => None,
    }
}

/// A text without its commas and white space.
fn unseparate(chars: &Vec<char>, to: usize) -> (r: String)
    requires
        to <= chars@.len(),
    ensures
        r@ == unseparated(chars@.take(to as int)),
{
    let mut out = String::new();
    let mut i: usize = 0;
    assert(out@ =~= unseparated(chars@.take(0)));
    while i < to
        invariant
            0 <= i <= to <= chars@.len(),
            out@ == unseparated(chars@.take(i as int)),
        decreases to - i,
    {
        assert(chars@.take(i + 1).drop_last() =~= chars@.take(i as int));
        if chars[i] != ',' && !is_whitespace(chars[i]) {
            out.push(chars[i]);
        }
        i += 1;
    }
    out
}

/// Reads a count: `8,021` is 8021, `695M` is 695000000, `1.2K` is 1200.
pub fn parse_abbreviated_count(s: &str) -> (r: Option<i64>)
    ensures
        r == abbreviated_count(s@),
{
    let t = trim(s);
    let chars = chars_of(t);
    let len: usize = chars.len();
    if len == 0 {
        return None;
    }
    let last = chars[len - 1];
    let by: u64 = if last == 'K' || last == 'k' {
        1_000
    } else if last == 'M' || last == 'm' {
        1_000_000
    } else if last == 'B' || last == 'b' {
        1_000_000_000
    } else {
        1
    };
    let to: usize = if by > 1 {
        len - 1
    } else {
        len
    };
    assert(chars@.take(to as int) =~= (if by > 1 {
        t@.drop_last()
    } else {
        t@
    }));
    let cleaned = unseparate(&chars, to);
    count_number(cleaned.as_str(), by)
}

// --- laws ----------------------------------------------------------------------------

/// A whole count is read exactly, whatever it is multiplied by, as long as the
/// product is below `2^53`.
pub proof fn law_whole_counts_are_exact(digits: Seq<char>, by: nat)
    requires
        by >= 1,
        digits_value(digits) * by < 0x20_0000_0000_0000,
    ensures
        finite_count(digits, 0, by) == digits_value(digits) * by,
{
    let n = digits_value(digits);
    assert(pow10(0) == 1);
    assert(n * pow10(0) == n) by (nonlinear_arith)
        requires
            pow10(0) == 1,
    ;
    if n > 0 {
        lemma_scaled_exact(n, by);
    } else {
        assert(n * by == 0) by (nonlinear_arith)
            requires
                n == 0,
        ;
    }
}

/// A text of digits alone is read as the number that the digits stand for, as
/// long as that is below `2^53`.
pub proof fn law_plain_counts_read_back(digits: Seq<char>)
    requires
        digits.len() > 0,
        all_digits(digits),
        digits_value(digits) < 0x20_0000_0000_0000,
    ensures
        signed_number_of(digits) == Some((false, Written::Finite { digits, power: 0 })),
        counted(false, Written::Finite { digits, power: 0 }, 1) == digits_value(digits),
{
    lemma_run_of_digits(digits, 0);
    assert(is_digit(digits[0]));
    lemma_no_letter(digits[0]);
    reveal_strlit("inf");
    reveal_strlit("infinity");
    reveal_strlit("nan");
    assert(digits.take(digits.len() as int) + Seq::<char>::empty() =~= digits);
    assert(digits.skip(digits.len() as int) =~= Seq::<char>::empty());
    law_whole_counts_are_exact(digits, 1);
}

proof fn lemma_run_of_digits(s: Seq<char>, i: int)
    requires
        0 <= i <= s.len(),
        all_digits(s),
    ensures
        digit_run(s, i) == s.len(),
    decreases s.len() - i,
{
    if i < s.len() {
        assert(is_digit(s[i]));
        lemma_run_of_digits(s, i + 1);
    }
}

proof fn lemma_no_letter(c: char)
    requires
        is_digit(c),
    ensures
        ascii_lower(c) == c,
        c != 'i',
        c != 'n',
        c != '-',
        c != '+',
{
}

/// Commas and white space come out of a text wherever they stand, and all else
/// stays in its order.
pub proof fn law_separators_come_out(a: Seq<char>, b: Seq<char>, c: char)
    ensures
        unseparated(a + b) == unseparated(a) + unseparated(b),
        c == ',' || is_white(c) ==> unseparated(seq![c]).len() == 0,
        c != ',' && !is_white(c) ==> unseparated(seq![c]) == seq![c],
    decreases b.len(),
{
    reveal_with_fuel(unseparated, 2);
    assert(seq![c].drop_last() =~= Seq::<char>::empty());
    assert(Seq::<char>::empty().push(c) =~= seq![c]);
    if b.len() == 0 {
        assert(a + b =~= a);
        assert(unseparated(a) + unseparated(b) =~= unseparated(a));
    } else {
        law_separators_come_out(a, b.drop_last(), c);
        assert((a + b).drop_last() =~= a + b.drop_last());
        assert((a + b).last() == b.last());
        let tail = unseparated(b.drop_last());
        assert((unseparated(a) + tail).push(b.last()) =~= unseparated(a) + tail.push(b.last()));
    }
}

proof fn lemma_run_before(s: Seq<char>, i: int, to: int)
    requires
        0 <= i <= to <= s.len(),
        forall|k: int| i <= k < to ==> is_digit(#[trigger] s[k]),
        to < s.len() ==> !is_digit(s[to]),
    ensures
        digit_run(s, i) == to,
    decreases to - i,
{
    if i < to {
        assert(is_digit(s[i]));
        lemma_run_before(s, i + 1, to);
    }
}

proof fn lemma_not_a_word(s: Seq<char>)
    requires
        s.len() > 0,
        is_digit(s[0]),
    ensures
        !same_ignoring_ascii_case(s, "inf"@),
        !same_ignoring_ascii_case(s, "infinity"@),
        !same_ignoring_ascii_case(s, "nan"@),
        !leads(s, '-'),
        !leads(s, '+'),
{
    lemma_no_letter(s[0]);
    reveal_strlit("inf");
    reveal_strlit("infinity");
    reveal_strlit("nan");
}

/// The digits before and behind a point are all read, and the point moves them
/// down by as many places as there are behind it; a sign in front makes the
/// number negative or not, and changes nothing else.
pub proof fn law_all_digits_of_a_fraction_are_read(w: Seq<char>, f: Seq<char>)
    requires
        w.len() > 0,
        all_digits(w),
        all_digits(f),
    ensures
        signed_number_of(w + seq!['.'] + f) == Some(
            (false, Written::Finite { digits: w + f, power: -(f.len() as int) }),
        ),
        signed_number_of(seq!['-'] + (w + seq!['.'] + f)) == Some(
            (true, Written::Finite { digits: w + f, power: -(f.len() as int) }),
        ),
        signed_number_of(seq!['+'] + (w + seq!['.'] + f)) == signed_number_of(w + seq!['.'] + f),
{
    let s = w + seq!['.'] + f;
    let a = w.len() as int;
    assert(s[0] == w[0] && is_digit(w[0]));
    lemma_not_a_word(s);
    assert(s[a] == '.');
    assert forall|k: int| 0 <= k < a implies is_digit(#[trigger] s[k]) by {
        assert(s[k] == w[k]);
    }
    lemma_run_before(s, 0, a);
    assert forall|k: int| a + 1 <= k < s.len() implies is_digit(#[trigger] s[k]) by {
        assert(s[k] == f[k - a - 1]);
    }
    lemma_run_before(s, a + 1, s.len() as int);
    assert(s.take(a) =~= w);
    assert(s.subrange(a + 1, s.len() as int) =~= f);
    assert(s.skip(s.len() as int) =~= Seq::<char>::empty());
    assert((seq!['-'] + s).drop_first() =~= s);
    assert((seq!['+'] + s).drop_first() =~= s);
}

/// An exponent moves the digits by as many places as it writes.
pub proof fn law_exponents_move_the_point(w: Seq<char>, x: Seq<char>, e: char)
    requires
        w.len() > 0,
        all_digits(w),
        x.len() > 0,
        all_digits(x),
        e == 'e' || e == 'E',
    ensures
        signed_number_of(w + seq![e] + x) == Some(
            (false, Written::Finite { digits: w, power: digits_value(x) as int }),
        ),
        signed_number_of(w + seq![e, '+'] + x) == Some(
            (false, Written::Finite { digits: w, power: digits_value(x) as int }),
        ),
        signed_number_of(w + seq![e, '-'] + x) == Some(
            (false, Written::Finite { digits: w, power: -(digits_value(x) as int) }),
        ),
{
    lemma_exponent_read(w, seq![e] + x);
    lemma_exponent_read(w, seq![e, '+'] + x);
    lemma_exponent_read(w, seq![e, '-'] + x);
    assert(is_digit(x[0]));
    lemma_no_letter(x[0]);
    assert(w + seq![e] + x =~= w + (seq![e] + x));
    assert(w + seq![e, '+'] + x =~= w + (seq![e, '+'] + x));
    assert(w + seq![e, '-'] + x =~= w + (seq![e, '-'] + x));
    assert((seq![e] + x).drop_first() =~= x);
    assert((seq![e, '+'] + x).drop_first() =~= seq!['+'] + x);
    assert((seq!['+'] + x).drop_first() =~= x);
    assert((seq![e, '-'] + x).drop_first() =~= seq!['-'] + x);
    assert((seq!['-'] + x).drop_first() =~= x);
}

proof fn lemma_exponent_read(w: Seq<char>, tail: Seq<char>)
    requires
        w.len() > 0,
        all_digits(w),
        tail.len() > 0,
        tail[0] == 'e' || tail[0] == 'E',
    ensures
        signed_number_of(w + tail) == match exponent_of(tail) {
            Some(p) => Some((false, Written::Finite { digits: w, power: p })),
            None => None,
        },
{
    let s = w + tail;
    let a = w.len() as int;
    assert(s[0] == w[0] && is_digit(w[0]));
    lemma_not_a_word(s);
    assert(s[a] == tail[0]);
    assert forall|k: int| 0 <= k < a implies is_digit(#[trigger] s[k]) by {
        assert(s[k] == w[k]);
    }
    lemma_run_before(s, 0, a);
    assert(s.take(a) + Seq::<char>::empty() =~= w);
    assert(s.skip(a) =~= tail);
}

/// A decimal count that its suffix makes whole is read exactly, as long as it
/// is below `2^49`.
pub proof fn law_decimal_counts_are_exact(digits: Seq<char>, places: nat, zeros: nat)
    requires
        places <= zeros,
        digits_value(digits) * pow10((zeros - places) as nat) < 0x2_0000_0000_0000,
    ensures
        finite_count(digits, -(places as int), pow10(zeros)) == digits_value(digits) * pow10(
            (zeros - places) as nat,
        ),
{
    let n = digits_value(digits);
    let d = pow10(places);
    let more = pow10((zeros - places) as nat);
    let by = pow10(zeros);
    lemma_pow10_pos(places);
    lemma_pow10_pos(zeros);
    lemma_pow10_adds((zeros - places) as nat, places);
    assert((n * more) * d == n * by) by (nonlinear_arith)
        requires
            by == more * d,
    ;
    assert(pow10(0) == 1);
    assert(n * pow10(0) == n) by (nonlinear_arith)
        requires
            pow10(0) == 1,
    ;
    if n > 0 {
        lemma_scaled_whole(n, d, by, n * more);
    } else {
        assert(n * more == 0) by (nonlinear_arith)
            requires
                n == 0,
        ;
    }
}

/// How many zeros a suffix stands for.
pub open spec fn zeros_of(c: char) -> nat {
    if c == 'B' || c == 'b' {
        9
    } else if c == 'M' || c == 'm' {
        6
    } else {
        3
    }
}

/// A count with a suffix is the number in front of it, times a thousand, a
/// million or a billion, whatever commas and white space stand in it, and
/// however much white space stands around it: all its digits count.
pub proof fn law_suffixes_multiply(
    before: Seq<char>,
    s: Seq<char>,
    c: char,
    after: Seq<char>,
    w: Seq<char>,
    f: Seq<char>,
)
    requires
        forall|i: int| 0 <= i < before.len() ==> is_white(#[trigger] before[i]),
        forall|i: int| 0 <= i < after.len() ==> is_white(#[trigger] after[i]),
        s.len() > 0,
        is_digit(s[0]),
        c == 'K' || c == 'k' || c == 'M' || c == 'm' || c == 'B' || c == 'b',
        w.len() > 0,
        all_digits(w),
        all_digits(f),
        f.len() <= zeros_of(c),
        digits_value(w + f) * pow10((zeros_of(c) - f.len()) as nat) < 0x2_0000_0000_0000,
    ensures
        unseparated(s) == w + seq!['.'] + f ==> abbreviated_count(before + s.push(c) + after)
            == Some((digits_value(w + f) * pow10((zeros_of(c) - f.len()) as nat)) as i64),
        unseparated(s) == w && f.len() == 0 ==> abbreviated_count(before + s.push(c) + after)
            == Some((digits_value(w) * pow10(zeros_of(c))) as i64),
{
    let t = s.push(c);
    assert(t[0] == s[0] && t.last() == c);
    law_padding_comes_off(before, t, after);
    assert(t.drop_last() =~= s);
    assert(multiplier(c) == pow10(zeros_of(c))) by {
        reveal_with_fuel(pow10, 10);
    }
    law_decimal_counts_are_exact(w + f, f.len(), zeros_of(c));
    law_all_digits_of_a_fraction_are_read(w, f);
    if unseparated(s) == w && f.len() == 0 {
        assert(w + f =~= w);
        lemma_plain_number(w);
    }
}

/// A count without a suffix is the number that it writes, whatever commas and
/// white space stand in it and around it.
pub proof fn law_separators_do_not_count(
    before: Seq<char>,
    s: Seq<char>,
    after: Seq<char>,
    w: Seq<char>,
)
    requires
        forall|i: int| 0 <= i < before.len() ==> is_white(#[trigger] before[i]),
        forall|i: int| 0 <= i < after.len() ==> is_white(#[trigger] after[i]),
        s.len() > 0,
        is_digit(s[0]),
        is_digit(s.last()),
        unseparated(s) == w,
        w.len() > 0,
        all_digits(w),
        digits_value(w) < 0x20_0000_0000_0000,
    ensures
        abbreviated_count(before + s + after) == Some(digits_value(w) as i64),
{
    law_padding_comes_off(before, s, after);
    lemma_plain_number(w);
    law_whole_counts_are_exact(w, 1);
    assert(digits_value(w) * 1 == digits_value(w));
}

proof fn lemma_plain_number(w: Seq<char>)
    requires
        w.len() > 0,
        all_digits(w),
    ensures
        signed_number_of(w) == Some((false, Written::Finite { digits: w, power: 0 })),
{
    assert(is_digit(w[0]));
    lemma_not_a_word(w);
    lemma_run_of_digits(w, 0);
    assert(w.take(w.len() as int) + Seq::<char>::empty() =~= w);
    assert(w.skip(w.len() as int) =~= Seq::<char>::empty());
}

/// What writes no number has no count; nothing at all has none.
pub proof fn law_no_number_no_count(s: Seq<char>)
    requires
        trimmed(s).len() == 0 || (multiplier(trimmed(s).last()) == 1 && signed_number_of(
            unseparated(trimmed(s)),
        ) is None),
    ensures
        abbreviated_count(s) is None,
{
}

/// A negative count is the positive one with its sign changed, within the range
/// of the numbers; an infinite one is the end of the range.
pub proof fn law_counts_have_signs(digits: Seq<char>, power: int, by: nat)
    requires
        finite_count(digits, power, by) <= i64::MAX,
    ensures
        counted(true, Written::Finite { digits, power }, by) == -counted(
            false,
            Written::Finite { digits, power },
            by,
        ),
        counted(false, Written::Finite { digits, power }, by) == finite_count(digits, power, by),
        counted(false, Written::Infinite, by) == i64::MAX,
        counted(true, Written::Infinite, by) == i64::MIN,
        counted(true, Written::Nan, by) == 0,
        counted(false, Written::Nan, by) == 0,
{
}

} // verus!
