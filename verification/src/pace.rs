//! Human pace: how long to wait between two requests, at random, and in how
//! short naps, so that a requested stop is noticed.

use vstd::prelude::*;

verus! {

/// The longest nap, in milliseconds.
pub const NAP_MILLIS: u64 = 200;

/// Calls `fastrand::i64` on the range from 0 up to `n`: the result is some
/// number in that range. An empty range panics, so `n` is positive.
#[verifier::external_body]
fn draw_i64(n: i64) -> (r: i64)
    requires
        n > 0,
    ensures
        0 <= r < n,
{
    fastrand::i64(0..n)
}

/// Calls `fastrand::u64` on the range from 0 up to `n`: the result is some
/// number in that range. An empty range panics, so `n` is positive.
#[verifier::external_body]
fn draw_u64(n: u64) -> (r: u64)
    requires
        n > 0,
    ensures
        0 <= r < n,
{
    fastrand::u64(0..n)
}

/// The end of a range of seconds that starts at `lo`: an empty range is taken
/// to hold its start.
pub open spec fn range_end(lo: int, hi: int) -> int {
    if hi <= lo {
        lo + 1
    } else {
        hi
    }
}

/// The width of a range of seconds.
pub fn range_width(lo: i64, hi: i64) -> (r: i64)
    requires
        range_end(lo as int, hi as int) - lo <= i64::MAX,
        lo < i64::MAX,
    ensures
        r == range_end(lo as int, hi as int) - lo,
        r > 0,
{
    if hi <= lo {
        1
    } else {
        hi - lo
    }
}

/// The seconds to wait, by what was drawn from the range. A negative number is
/// none.
pub open spec fn wait_of(lo: int, drawn: int) -> int {
    if lo + drawn < 0 {
        0
    } else {
        lo + drawn
    }
}

pub fn wait_for_draw(lo: i64, drawn: i64) -> (r: u64)
    requires
        lo + drawn <= i64::MAX,
        lo + drawn >= i64::MIN,
    ensures
        r == wait_of(lo as int, drawn as int),
{
    let secs: i64 = lo + drawn;
    if secs < 0 {
        0
    } else {
        secs as u64
    }
}

/// Some number of seconds from `lo` up to `hi`; a negative number is none.
pub fn jitter_secs(lo: i64, hi: i64) -> (r: u64)
    requires
        range_end(lo as int, hi as int) - lo <= i64::MAX,
        lo < i64::MAX,
    ensures
        lo <= r < range_end(lo as int, hi as int) || (r == 0 && lo < 0),
{
    let width: i64 = range_width(lo, hi);
    let drawn: i64 = draw_i64(width);
    wait_for_draw(lo, drawn)
}

/// Some number of seconds from `lo` up to `hi`, for a pause between pages.
pub fn page_pause_secs(lo: u64, hi: u64) -> (r: u64)
    requires
        lo < u64::MAX,
    ensures
        lo <= r < range_end(lo as int, hi as int),
{
    let width: u64 = pause_width(lo, hi);
    let drawn: u64 = draw_u64(width);
    pause_for_draw(lo, drawn)
}

/// The width of a range of seconds for a pause between pages.
pub fn pause_width(lo: u64, hi: u64) -> (r: u64)
    ensures
        r == range_end(lo as int, hi as int) - lo,
        r > 0,
{
    if hi <= lo {
        1
    } else {
        hi - lo
    }
}

/// The seconds to pause between pages, by what was drawn from the range.
pub fn pause_for_draw(lo: u64, drawn: u64) -> (r: u64)
    requires
        lo + drawn <= u64::MAX,
    ensures
        r == lo + drawn,
{
    lo + drawn
}

/// The next nap of a wait, in milliseconds: 0 where the wait is over.
pub open spec fn nap_after(total: nat, elapsed: nat) -> nat {
    if elapsed >= total {
        0
    } else if total - elapsed < NAP_MILLIS {
        (total - elapsed) as nat
    } else {
        NAP_MILLIS as nat
    }
}

/// The next nap of a wait, in milliseconds: 0 where the wait is over.
pub fn next_nap(total: u128, elapsed: u128) -> (r: u64)
    ensures
        r == nap_after(total as nat, elapsed as nat),
{
    if elapsed >= total {
        0
    } else if total - elapsed < NAP_MILLIS as u128 {
        (total - elapsed) as u64
    } else {
        NAP_MILLIS
    }
}

/// How long a wait has lasted after `n` naps.
pub open spec fn napped(total: nat, n: nat) -> nat
    decreases n,
{
    if n == 0 {
        0
    } else {
        napped(total, (n - 1) as nat) + nap_after(total, napped(total, (n - 1) as nat))
    }
}

/// Naps never go past the end of a wait, are full naps until they reach it, and
/// reach it as soon as full naps would.
pub proof fn law_naps_fill_the_wait(total: nat, n: nat)
    ensures
        napped(total, n) <= total,
        napped(total, n) == total || napped(total, n) == n * NAP_MILLIS,
        n * NAP_MILLIS >= total ==> napped(total, n) == total,
    decreases n,
{
    if n > 0 {
        law_naps_fill_the_wait(total, (n - 1) as nat);
        assert(n * NAP_MILLIS == (n - 1) * NAP_MILLIS + NAP_MILLIS) by (nonlinear_arith);
    }
}

/// A range of seconds begins at its start and ends before its end; one that
/// would be empty holds its start alone.
pub proof fn law_ranges_are_never_empty(lo: int, hi: int)
    ensures
        hi > lo ==> range_end(lo, hi) == hi,
        hi <= lo ==> range_end(lo, hi) == lo + 1,
        range_end(lo, hi) > lo,
{
}

/// No nap is longer than a fifth of a second.
pub proof fn law_naps_are_short(total: nat, elapsed: nat)
    ensures
        nap_after(total, elapsed) <= 200,
        elapsed < total ==> nap_after(total, elapsed) > 0,
        elapsed + 200 <= total ==> nap_after(total, elapsed) == 200,
        elapsed <= total ==> elapsed + nap_after(total, elapsed) <= total,
{
}

/// A wait is what was drawn on top of the shortest one, and never negative.
pub proof fn law_waits_add_what_was_drawn(lo: int, drawn: int)
    ensures
        lo >= 0 && drawn >= 0 ==> wait_of(lo, drawn) - lo == drawn,
        wait_of(lo, drawn) >= 0,
        wait_of(lo, drawn) == lo + drawn || (wait_of(lo, drawn) == 0 && lo + drawn < 0),
{
}

} // verus!
