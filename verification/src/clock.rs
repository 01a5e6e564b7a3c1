//! Points in time, and how they are written.

use crate::text::trim_end_matches;
use vstd::prelude::*;

verus! {

use crate::rounding::pow10;
use crate::text::{
    all_digits, digit_char, digits_value, is_digit, law_numbers_are_written_in_tens,
    without_trailing,
};

/// The last second that chrono can write.
pub const MAX_SECS: i64 = 8_210_266_876_799;

pub const SECS_PER_DAY: i64 = 86_400;

/// A point in time: whole seconds since the Unix epoch, and the nanoseconds
/// behind them.
#[derive(Debug, Clone, Copy, PartialEq, Eq, Structural)]
pub struct Timestamp {
    pub secs: i64,
    pub nanos: u32,
}

impl Timestamp {
    /// From the epoch on, and in the range that can be written.
    pub open spec fn wf(self) -> bool {
        0 <= self.secs <= MAX_SECS && self.nanos < 1_000_000_000
    }
}

/// The UTC date and time of a second, as `2026-07-24T02:17:10`.
pub uninterp spec fn utc_text(secs: i64) -> Seq<char>;

/// The UTC date and time of a second, as `2026-07-24T02:17:10Z`.
pub uninterp spec fn rfc3339_seconds(secs: i64) -> Seq<char>;

/// `chrono::Utc::now` in plain values: some time from the epoch on, within
/// chrono's own range, and no leap second. On a machine whose clock stands
/// before the epoch or behind that range it panics.
#[verifier::external_body]
pub(crate) fn utc_now() -> (r: Timestamp)
    ensures
        r.wf(),
{
    let t = chrono::Utc::now();
    Timestamp { secs: t.timestamp(), nanos: t.timestamp_subsec_nanos() }
}

/// `chrono::DateTime::format` by `%Y-%m-%dT%H:%M:%S`. What it writes is only
/// named; it depends on the second alone.
#[verifier::external_body]
fn format_seconds(secs: i64) -> (r: String)
    requires
        0 <= secs <= MAX_SECS,
    ensures
        r@ == utc_text(secs),
{
    let t = chrono::DateTime::from_timestamp(secs, 0).expect("a second in range");
    t.format("%Y-%m-%dT%H:%M:%S").to_string()
}

/// `chrono::DateTime::to_rfc3339_opts`, to the second and with a `Z`. What it
/// writes is only named; it depends on the second alone.
#[verifier::external_body]
fn format_rfc3339_seconds(secs: i64) -> (r: String)
    requires
        0 <= secs <= MAX_SECS,
    ensures
        r@ == rfc3339_seconds(secs),
{
    let t = chrono::DateTime::from_timestamp(secs, 0).expect("a second in range");
    t.to_rfc3339_opts(chrono::SecondsFormat::Secs, true)
}

/// The last `width` decimal digits of `n`, zeros in front included.
pub open spec fn padded(n: nat, width: nat) -> Seq<char>
    decreases width,
{
    if width == 0 {
        Seq::empty()
    } else {
        padded(n / 10, (width - 1) as nat).push(digit_char(n % 10))
    }
}

fn pad(n: u32, width: u32) -> (r: String)
    ensures
        r@ == padded(n as nat, width as nat),
    decreases width,
{
    if width == 0 {
        String::new()
    } else {
        let mut out = pad(n / 10, width - 1);
        let b: u8 = (n % 10) as u8 + 0x30u8;
        out.push(b as char);
        out
    }
}

/// A point in time as RFC 3339 writes it in UTC, with the fraction of the
/// second down to its last digit that is not zero, and none for a whole
/// second.
pub open spec fn rfc3339(t: Timestamp) -> Seq<char> {
    if t.nanos == 0 {
        utc_text(t.secs) + "Z"@
    } else {
        utc_text(t.secs) + "."@ + without_trailing(padded(t.nanos as nat, 9), '0') + "Z"@
    }
}

pub fn rfc3339_text(t: &Timestamp) -> (r: String)
    requires
        t.wf(),
    ensures
        r@ == rfc3339(*t),
{
    let mut out = format_seconds(t.secs);
    if t.nanos != 0 {
        let all = pad(t.nanos, 9);
        out.append(".");
        out.append(trim_end_matches(all.as_str(), '0'));
    }
    out.append("Z");
    out
}

/// The second of a point in time as RFC 3339 writes it in UTC.
pub fn rfc3339_seconds_text(t: &Timestamp) -> (r: String)
    requires
        t.wf(),
    ensures
        r@ == rfc3339_seconds(t.secs),
{
    format_rfc3339_seconds(t.secs)
}

// --- laws ----------------------------------------------------------------------------

proof fn lemma_padded(n: nat, width: nat)
    ensures
        padded(n, width).len() == width,
        all_digits(padded(n, width)),
        n < pow10(width) ==> digits_value(padded(n, width)) == n,
    decreases width,
{
    if width > 0 {
        lemma_padded(n / 10, (width - 1) as nat);
        let front = padded(n / 10, (width - 1) as nat);
        let all = padded(n, width);
        assert(all.drop_last() =~= front);
        law_numbers_are_written_in_tens(0, n % 10);
        assert forall|i: int| 0 <= i < all.len() implies is_digit(#[trigger] all[i]) by {
            if i < front.len() {
                assert(all[i] == front[i]);
            }
        }
        assert(pow10(width) == 10 * pow10((width - 1) as nat));
    }
}

/// A whole second is written without a fraction. Any other time is written with
/// the digits of its nanoseconds, nine of them with zeros in front, but for the
/// zeros at their end.
pub proof fn law_fractions_are_written_to_their_last_digit(t: Timestamp)
    requires
        t.wf(),
    ensures
        t.nanos == 0 ==> rfc3339(t) == utc_text(t.secs) + "Z"@,
        t.nanos > 0 ==> exists|shown: Seq<char>, zeros: Seq<char>|
            rfc3339(t) == utc_text(t.secs) + "."@ + shown + "Z"@ && shown.len() > 0 && shown.last()
                != '0' && (forall|i: int| 0 <= i < zeros.len() ==> #[trigger] zeros[i] == '0')
                && #[trigger] (shown + zeros).len() == 9 && all_digits(shown + zeros)
                && digits_value(shown + zeros) == t.nanos,
{
    if t.nanos > 0 {
        let all = padded(t.nanos as nat, 9);
        reveal_with_fuel(pow10, 10);
        lemma_padded(t.nanos as nat, 9);
        lemma_zeros_come_off(all);
        let shown = without_trailing(all, '0');
        let zeros = all.skip(shown.len() as int);
        assert(shown + zeros =~= all);
        if shown.len() == 0 {
            assert(all =~= zeros);
            lemma_only_zeros(all);
        }
    }
}

proof fn lemma_zeros_come_off(s: Seq<char>)
    ensures
        without_trailing(s, '0').len() <= s.len(),
        without_trailing(s, '0') == s.take(without_trailing(s, '0').len() as int),
        without_trailing(s, '0').len() > 0 ==> without_trailing(s, '0').last() != '0',
        forall|i: int| without_trailing(s, '0').len() <= i < s.len() ==> #[trigger] s[i] == '0',
    decreases s.len(),
{
    if s.len() > 0 && s.last() == '0' {
        let t = s.drop_last();
        lemma_zeros_come_off(t);
        let k = without_trailing(s, '0').len() as int;
        assert(t.take(k) =~= s.take(k));
        assert forall|i: int| k <= i < s.len() implies #[trigger] s[i] == '0' by {
            if i < t.len() {
                assert(t[i] == s[i]);
            }
        }
    } else {
        assert(s.take(s.len() as int) =~= s);
    }
}

proof fn lemma_only_zeros(s: Seq<char>)
    requires
        forall|i: int| 0 <= i < s.len() ==> #[trigger] s[i] == '0',
    ensures
        digits_value(s) == 0,
    decreases s.len(),
{
    if s.len() > 0 {
        let t = s.drop_last();
        assert forall|i: int| 0 <= i < t.len() implies #[trigger] t[i] == '0' by {
            assert(t[i] == s[i]);
        }
        lemma_only_zeros(t);
        assert(s[s.len() - 1] == '0');
    }
}

} // verus!
