//! What holds of every merge of a harvest into the follows file.

use crate::cache::{Line, MergeOutcome};
use vstd::prelude::*;

verus! {

use crate::cache::{
    active_on, cleaned, counts_merge, deletes_on, distinct, dropped, dropped_count, entry_name,
    excluded_count, fresh, harvest_names, is_entry, is_excluded, is_username_char, kept, line_body,
    merged_lines, merged_text, names_on, on_file, reads, scan_name, scan_names, scanned, settled,
    shadowed, speaks, stays, username_shaped,
};
use crate::text::{
    file_of, holds_no_feed, is_line, is_white, joined, law_padding_comes_off,
    law_shorn_lines_read_back, law_trim_takes_white_space_off, lemma_joined_empty,
    lemma_lines_hold_no_feed, lemma_rising_push, lemma_shorn_lines, lemma_trimmed_without_cr,
    lines_of, rising, shorn, trim_left, trim_right, trimmed, without_cr, without_lead,
};

/// Whether a list is one of usernames, none of them twice, as a cleaned harvest
/// is.
pub open spec fn is_harvest(h: Seq<Seq<char>>) -> bool {
    &&& h.no_duplicates()
    &&& forall|i: int| 0 <= i < h.len() ==> username_shaped(#[trigger] h[i])
}

// --- names ---------------------------------------------------------------------------

proof fn lemma_username_char(c: char)
    requires
        is_username_char(c),
    ensures
        !is_white(c),
        c != '#',
        c != '@',
        c != '\n',
        c != '\r',
{
}

/// A line that is a username and nothing else is an entry for it.
pub proof fn lemma_username_line(n: Seq<char>)
    requires
        username_shaped(n),
    ensures
        trimmed(n) == n,
        !is_excluded(n),
        entry_name(n) == n,
        is_entry(n),
        is_line(n),
        scan_name(n) == Some(n),
{
    assert forall|i: int| 0 <= i < n.len() implies !is_white(#[trigger] n[i]) && n[i] != '#'
        && n[i] != '@' && n[i] != '\n' && n[i] != '\r' by {
        assert(is_username_char(n[i]));
        lemma_username_char(n[i]);
    }
    assert(!is_white(n[0]));
    assert(n.last() == n[n.len() - 1]);
    assert(trim_left(n) == n);
    assert(trim_right(n) == n);
}

pub proof fn lemma_distinct(s: Seq<Seq<char>>)
    ensures
        distinct(s).no_duplicates(),
        forall|x: Seq<char>| #[trigger] distinct(s).contains(x) <==> s.contains(x),
    decreases s.len(),
{
    if s.len() > 0 {
        let rest = s.drop_last();
        let last = s.last();
        lemma_distinct(rest);
        assert(rest.push(last) =~= s);
        assert forall|x: Seq<char>| #[trigger] distinct(s).contains(x) <==> s.contains(x) by {
            lemma_push_contains(rest, last, x);
            lemma_push_contains(distinct(rest), last, x);
        }
    }
}

proof fn lemma_push_contains(s: Seq<Seq<char>>, last: Seq<char>, x: Seq<char>)
    ensures
        s.push(last).contains(x) <==> (s.contains(x) || x == last),
{
    let all = s.push(last);
    if s.contains(x) {
        let i = choose|i: int| 0 <= i < s.len() && s[i] == x;
        assert(all[i] == x);
    }
    if x == last {
        assert(all[s.len() as int] == x);
    }
    if all.contains(x) && x != last {
        let i = choose|i: int| 0 <= i < all.len() && all[i] == x;
        assert(s[i] == x);
    }
}

proof fn lemma_harvest_names(list: Seq<Seq<char>>)
    ensures
        forall|i: int|
            0 <= i < harvest_names(list).len() ==> username_shaped(
                #[trigger] harvest_names(list)[i],
            ),
    decreases list.len(),
{
    if list.len() > 0 {
        let before = harvest_names(list.drop_last());
        let after = harvest_names(list);
        lemma_harvest_names(list.drop_last());
        assert forall|i: int| 0 <= i < after.len() implies username_shaped(#[trigger] after[i]) by {
            if i < before.len() {
                assert(after[i] == before[i]);
            }
        }
    }
}

/// What a harvest is cleaned to is a list of usernames, none of them twice.
pub proof fn law_cleaned_is_a_harvest(list: Seq<Seq<char>>)
    ensures
        is_harvest(cleaned(list)),
{
    let names = harvest_names(list);
    lemma_distinct(names);
    lemma_harvest_names(list);
    let h = cleaned(list);
    assert forall|i: int| 0 <= i < h.len() implies username_shaped(#[trigger] h[i]) by {
        assert(h.contains(h[i]));
        let k = choose|k: int| 0 <= k < names.len() && names[k] == h[i];
        assert(username_shaped(names[k]));
    }
}

// --- which lines are kept ------------------------------------------------------------

/// What is kept are lines that stay, and every line that stays is kept.
proof fn lemma_kept_members(ls: Seq<Seq<char>>, h: Seq<Seq<char>>, d: bool, n: nat)
    requires
        n <= ls.len(),
    ensures
        forall|i: int|
            0 <= i < n && stays(ls, h, d, i) ==> kept(ls, h, d, n).contains(#[trigger] ls[i]),
        forall|k: int|
            0 <= k < kept(ls, h, d, n).len() ==> kept_from(
                ls,
                h,
                d,
                n,
                #[trigger] kept(ls, h, d, n)[k],
            ),
    decreases n,
{
    if n > 0 {
        let before = kept(ls, h, d, (n - 1) as nat);
        let after = kept(ls, h, d, n);
        lemma_kept_members(ls, h, d, (n - 1) as nat);
        assert forall|i: int| 0 <= i < n && stays(ls, h, d, i) implies after.contains(
            #[trigger] ls[i],
        ) by {
            if i == n - 1 {
                assert(after[after.len() - 1] == ls[i]);
            } else {
                assert(before.contains(ls[i]));
                let k = choose|k: int| 0 <= k < before.len() && before[k] == ls[i];
                assert(after[k] == ls[i]);
            }
        }
        assert forall|k: int| 0 <= k < after.len() implies kept_from(
            ls,
            h,
            d,
            n,
            #[trigger] after[k],
        ) by {
            if k < before.len() {
                assert(after[k] == before[k]);
                assert(kept_from(ls, h, d, (n - 1) as nat, before[k]));
            } else {
                assert(after[k] == ls[n - 1] && stays(ls, h, d, n - 1));
            }
        }
    }
}

/// Whether a line is one of the first `n` that stay.
spec fn kept_from(
    ls: Seq<Seq<char>>,
    h: Seq<Seq<char>>,
    d: bool,
    n: nat,
    line: Seq<char>,
) -> bool {
    exists|i: int| 0 <= i < n && #[trigger] ls[i] == line && stays(ls, h, d, i)
}

/// Whether no two lines are entries for the same name.
pub open spec fn one_line_each(ls: Seq<Seq<char>>) -> bool {
    forall|a: int, b: int|
        0 <= a < b < ls.len() && is_entry(#[trigger] ls[a]) && is_entry(#[trigger] ls[b])
            ==> entry_name(ls[a]) != entry_name(ls[b])
}

proof fn lemma_kept_once(ls: Seq<Seq<char>>, h: Seq<Seq<char>>, d: bool, n: nat)
    requires
        n <= ls.len(),
    ensures
        one_line_each(kept(ls, h, d, n)),
    decreases n,
{
    if n > 0 {
        let before = kept(ls, h, d, (n - 1) as nat);
        let after = kept(ls, h, d, n);
        lemma_kept_once(ls, h, d, (n - 1) as nat);
        lemma_kept_members(ls, h, d, (n - 1) as nat);
        assert forall|a: int, b: int|
            0 <= a < b < after.len() && is_entry(#[trigger] after[a]) && is_entry(
                #[trigger] after[b],
            ) implies entry_name(after[a]) != entry_name(after[b]) by {
            assert(after[a] == before[a]);
            if b < before.len() {
                assert(after[b] == before[b]);
            } else {
                assert(kept_from(ls, h, d, (n - 1) as nat, before[a]));
                let j = choose|j: int|
                    0 <= j < n - 1 && #[trigger] ls[j] == before[a] && stays(ls, h, d, j);
                assert(speaks(ls, j));
                assert(speaks(ls, n - 1));
                if entry_name(ls[j]) == entry_name(ls[n - 1]) {
                    assert(settled(ls, n - 1, entry_name(ls[n - 1])));
                }
            }
        }
    }
}

/// Where a name is settled, a line speaks for it.
proof fn lemma_speaker(ls: Seq<Seq<char>>, n: nat, name: Seq<char>) -> (i: int)
    requires
        n <= ls.len(),
        settled(ls, n as int, name),
    ensures
        0 <= i < n,
        speaks(ls, i),
        entry_name(ls[i]) == name,
    decreases n,
{
    if n == 0 {
        0
    } else if settled(ls, n - 1, name) {
        lemma_speaker(ls, (n - 1) as nat, name)
    } else {
        let j = choose|j: int|
            0 <= j < n && is_entry(#[trigger] ls[j]) && !shadowed(ls, j) && entry_name(ls[j])
                == name;
        assert(j == n - 1);
        n - 1
    }
}

proof fn lemma_file_speaker(ls: Seq<Seq<char>>, name: Seq<char>) -> (i: int)
    requires
        on_file(ls, name),
    ensures
        0 <= i < ls.len(),
        speaks(ls, i),
        entry_name(ls[i]) == name,
        is_excluded(ls[i]) == !active_on(ls, name),
{
    let i = choose|i: int|
        0 <= i < ls.len() && is_entry(#[trigger] ls[i]) && entry_name(ls[i]) == name;
    if shadowed(ls, i) {
        let k = choose|k: int|
            0 <= k < ls.len() && is_entry(#[trigger] ls[k]) && !is_excluded(ls[k]) && entry_name(
                ls[k],
            ) == name;
        assert(is_entry(ls[k]) && !shadowed(ls, k));
    } else {
        assert(is_entry(ls[i]) && !shadowed(ls, i));
    }
    assert(settled(ls, ls.len() as int, name));
    let s = lemma_speaker(ls, ls.len(), name);
    if !is_excluded(ls[s]) {
        assert(is_entry(ls[s]));
    }
    s
}

/// Who is on file in what is kept.
proof fn lemma_kept_on_file(ls: Seq<Seq<char>>, h: Seq<Seq<char>>, d: bool, name: Seq<char>)
    ensures
        on_file(kept(ls, h, d, ls.len()), name) == (on_file(ls, name) && (!d || h.contains(name))),
        active_on(kept(ls, h, d, ls.len()), name) == (active_on(ls, name) && (!d || h.contains(
            name,
        ))),
{
    let k = kept(ls, h, d, ls.len());
    lemma_kept_members(ls, h, d, ls.len());
    if on_file(k, name) {
        let a = choose|a: int|
            0 <= a < k.len() && is_entry(#[trigger] k[a]) && entry_name(k[a]) == name;
        assert(kept_from(ls, h, d, ls.len(), k[a]));
        let i = choose|i: int|
            0 <= i < ls.len() && #[trigger] ls[i] == k[a] && stays(ls, h, d, i);
        assert(is_entry(ls[i]));
    }
    if active_on(k, name) {
        let a = choose|a: int|
            0 <= a < k.len() && is_entry(#[trigger] k[a]) && !is_excluded(k[a]) && entry_name(k[a])
                == name;
        assert(kept_from(ls, h, d, ls.len(), k[a]));
        let i = choose|i: int|
            0 <= i < ls.len() && #[trigger] ls[i] == k[a] && stays(ls, h, d, i);
        assert(is_entry(ls[i]));
    }
    if on_file(ls, name) && (!d || h.contains(name)) {
        let i = lemma_file_speaker(ls, name);
        assert(stays(ls, h, d, i));
        assert(k.contains(ls[i]));
        let a = choose|a: int| 0 <= a < k.len() && k[a] == ls[i];
        assert(is_entry(k[a]));
    }
    if active_on(ls, name) {
        let j = choose|j: int|
            0 <= j < ls.len() && is_entry(#[trigger] ls[j]) && !is_excluded(ls[j]) && entry_name(
                ls[j],
            ) == name;
        assert(is_entry(ls[j]));
        assert(on_file(ls, name));
    }
}

// --- what is appended ----------------------------------------------------------------

proof fn lemma_fresh(ls: Seq<Seq<char>>, h: Seq<Seq<char>>, n: nat)
    requires
        is_harvest(h),
        n <= h.len(),
    ensures
        fresh(ls, h, n).no_duplicates(),
        forall|i: int|
            0 <= i < fresh(ls, h, n).len() ==> {
                &&& username_shaped(#[trigger] fresh(ls, h, n)[i])
                &&& !on_file(ls, fresh(ls, h, n)[i])
                &&& h.take(n as int).contains(fresh(ls, h, n)[i])
            },
        forall|i: int|
            0 <= i < n && !on_file(ls, #[trigger] h[i]) ==> fresh(ls, h, n).contains(h[i]),
    decreases n,
{
    if n > 0 {
        let before = fresh(ls, h, (n - 1) as nat);
        let after = fresh(ls, h, n);
        let shown = h.take(n as int);
        let less = h.take(n - 1);
        lemma_fresh(ls, h, (n - 1) as nat);
        assert(shown =~= less.push(h[n - 1]));
        assert(username_shaped(h[n - 1]));
        assert forall|i: int| 0 <= i < after.len() implies {
            &&& username_shaped(#[trigger] after[i])
            &&& !on_file(ls, after[i])
            &&& shown.contains(after[i])
        } by {
            lemma_push_contains(less, h[n - 1], after[i]);
            if i < before.len() {
                assert(after[i] == before[i]);
            }
        }
        assert forall|i: int| 0 <= i < n && !on_file(ls, #[trigger] h[i]) implies after.contains(
            h[i],
        ) by {
            lemma_push_contains(before, h[n - 1], h[i]);
        }
        if !on_file(ls, h[n - 1]) && before.contains(h[n - 1]) {
            let k = choose|k: int| 0 <= k < before.len() && before[k] == h[n - 1];
            assert(less.contains(before[k]));
            let j = choose|j: int| 0 <= j < less.len() && less[j] == h[n - 1];
            assert(h[j] == h[n - 1]);
            assert(false);
        }
        assert(after.no_duplicates());
    }
}

proof fn lemma_fresh_on_file(ls: Seq<Seq<char>>, h: Seq<Seq<char>>, name: Seq<char>)
    requires
        is_harvest(h),
    ensures
        on_file(fresh(ls, h, h.len()), name) == (h.contains(name) && !on_file(ls, name)),
        active_on(fresh(ls, h, h.len()), name) == (h.contains(name) && !on_file(ls, name)),
{
    let f = fresh(ls, h, h.len());
    lemma_fresh(ls, h, h.len());
    assert(h.take(h.len() as int) =~= h);
    if on_file(f, name) {
        let a = choose|a: int|
            0 <= a < f.len() && is_entry(#[trigger] f[a]) && entry_name(f[a]) == name;
        lemma_username_line(f[a]);
    }
    if h.contains(name) && !on_file(ls, name) {
        let i = choose|i: int| 0 <= i < h.len() && h[i] == name;
        assert(f.contains(h[i]));
        let a = choose|a: int| 0 <= a < f.len() && f[a] == name;
        lemma_username_line(f[a]);
        assert(is_entry(f[a]) && !is_excluded(f[a]));
    }
    if active_on(f, name) {
        let a = choose|a: int|
            0 <= a < f.len() && is_entry(#[trigger] f[a]) && !is_excluded(f[a]) && entry_name(f[a])
                == name;
        assert(is_entry(f[a]));
    }
}

proof fn lemma_on_file_add(a: Seq<Seq<char>>, b: Seq<Seq<char>>, name: Seq<char>)
    ensures
        on_file(a + b, name) == (on_file(a, name) || on_file(b, name)),
        active_on(a + b, name) == (active_on(a, name) || active_on(b, name)),
{
    let c = a + b;
    if on_file(a, name) {
        let i = choose|i: int|
            0 <= i < a.len() && is_entry(#[trigger] a[i]) && entry_name(a[i]) == name;
        assert(c[i] == a[i]);
    }
    if on_file(b, name) {
        let i = choose|i: int|
            0 <= i < b.len() && is_entry(#[trigger] b[i]) && entry_name(b[i]) == name;
        assert(c[a.len() + i] == b[i]);
    }
    if on_file(c, name) {
        let i = choose|i: int|
            0 <= i < c.len() && is_entry(#[trigger] c[i]) && entry_name(c[i]) == name;
        if i < a.len() {
            assert(a[i] == c[i]);
        } else {
            assert(b[i - a.len()] == c[i]);
        }
    }
    if active_on(a, name) {
        let i = choose|i: int|
            0 <= i < a.len() && is_entry(#[trigger] a[i]) && !is_excluded(a[i]) && entry_name(a[i])
                == name;
        assert(c[i] == a[i]);
    }
    if active_on(b, name) {
        let i = choose|i: int|
            0 <= i < b.len() && is_entry(#[trigger] b[i]) && !is_excluded(b[i]) && entry_name(b[i])
                == name;
        assert(c[a.len() + i] == b[i]);
    }
    if active_on(c, name) {
        let i = choose|i: int|
            0 <= i < c.len() && is_entry(#[trigger] c[i]) && !is_excluded(c[i]) && entry_name(c[i])
                == name;
        if i < a.len() {
            assert(a[i] == c[i]);
        } else {
            assert(b[i - a.len()] == c[i]);
        }
    }
}

// --- who is on file after a merge ----------------------------------------------------

/// After a merge, a name is on file when it was and was not deleted, or when
/// the harvest holds it. It is scanned when it was scanned before and was not
/// deleted, or when the harvest brought it in. So a name that was excluded
/// stays excluded as long as it is followed, one that is followed no more goes,
/// and one that is newly followed comes in.
pub proof fn law_merge_decides_each_name(
    ls: Seq<Seq<char>>,
    h: Seq<Seq<char>>,
    allow_deletes: bool,
    name: Seq<char>,
)
    requires
        is_harvest(h),
    ensures
        on_file(merged_lines(ls, h, allow_deletes), name) == ((on_file(ls, name) && (!deletes_on(
            ls,
            h,
            allow_deletes,
        ) || h.contains(name))) || h.contains(name)),
        active_on(merged_lines(ls, h, allow_deletes), name) == ((active_on(ls, name) && (
        !deletes_on(ls, h, allow_deletes) || h.contains(name))) || (h.contains(name) && !on_file(
            ls,
            name,
        ))),
{
    let d = deletes_on(ls, h, allow_deletes);
    lemma_kept_on_file(ls, h, d, name);
    lemma_fresh_on_file(ls, h, name);
    lemma_on_file_add(kept(ls, h, d, ls.len()), fresh(ls, h, h.len()), name);
}

/// An exclusion survives a harvest: a name that is only commented out, and is
/// still followed or cannot be deleted, stays on file, is not scanned, and its
/// line is written back as it stands.
pub proof fn law_exclusion_survives(
    ls: Seq<Seq<char>>,
    h: Seq<Seq<char>>,
    allow_deletes: bool,
    name: Seq<char>,
)
    requires
        is_harvest(h),
        on_file(ls, name),
        !active_on(ls, name),
        h.contains(name) || !deletes_on(ls, h, allow_deletes),
    ensures
        on_file(merged_lines(ls, h, allow_deletes), name),
        !active_on(merged_lines(ls, h, allow_deletes), name),
        exists|i: int|
            0 <= i < ls.len() && is_entry(#[trigger] ls[i]) && entry_name(ls[i]) == name
                && is_excluded(ls[i]) && merged_lines(ls, h, allow_deletes).contains(ls[i]),
{
    let d = deletes_on(ls, h, allow_deletes);
    law_merge_decides_each_name(ls, h, allow_deletes, name);
    let i = lemma_file_speaker(ls, name);
    lemma_kept_members(ls, h, d, ls.len());
    let k = kept(ls, h, d, ls.len());
    assert(stays(ls, h, d, i));
    assert(k.contains(ls[i]));
    let a = choose|a: int| 0 <= a < k.len() && k[a] == ls[i];
    assert(merged_lines(ls, h, allow_deletes)[a] == ls[i]);
    assert(is_entry(ls[i]));
}

/// A harvest that may be cut short deletes nobody: every name on file stays,
/// and is scanned or not as before.
pub proof fn law_partial_harvest_deletes_nobody(
    ls: Seq<Seq<char>>,
    h: Seq<Seq<char>>,
    allow_deletes: bool,
    name: Seq<char>,
)
    requires
        is_harvest(h),
        !allow_deletes || h.len() * 2 < distinct(names_on(ls)).len(),
        on_file(ls, name),
    ensures
        on_file(merged_lines(ls, h, allow_deletes), name),
        active_on(merged_lines(ls, h, allow_deletes), name) == active_on(ls, name),
        dropped_count(ls, h, deletes_on(ls, h, allow_deletes), ls.len()) == 0,
{
    law_merge_decides_each_name(ls, h, allow_deletes, name);
    lemma_nothing_dropped(ls, h, false, ls.len());
}

proof fn lemma_nothing_dropped(ls: Seq<Seq<char>>, h: Seq<Seq<char>>, d: bool, n: nat)
    requires
        n <= ls.len(),
        forall|i: int| 0 <= i < n ==> !dropped(ls, h, d, i),
    ensures
        dropped_count(ls, h, d, n) == 0,
    decreases n,
{
    if n > 0 {
        lemma_nothing_dropped(ls, h, d, (n - 1) as nat);
    }
}

// --- prose ---------------------------------------------------------------------------

/// The lines that are no entries: blank lines and prose.
pub open spec fn prose(ls: Seq<Seq<char>>) -> Seq<Seq<char>>
    decreases ls.len(),
{
    if ls.len() == 0 {
        ls
    } else if is_entry(ls.last()) {
        prose(ls.drop_last())
    } else {
        prose(ls.drop_last()).push(ls.last())
    }
}

proof fn lemma_prose_kept(ls: Seq<Seq<char>>, h: Seq<Seq<char>>, d: bool, n: nat)
    requires
        n <= ls.len(),
    ensures
        prose(kept(ls, h, d, n)) == prose(ls.take(n as int)),
    decreases n,
{
    if n == 0 {
        assert(ls.take(0) =~= kept(ls, h, d, 0));
    } else {
        let before = kept(ls, h, d, (n - 1) as nat);
        lemma_prose_kept(ls, h, d, (n - 1) as nat);
        assert(ls.take(n as int).drop_last() =~= ls.take(n - 1));
        assert(ls.take(n as int).last() == ls[n - 1]);
        if stays(ls, h, d, n - 1) {
            assert(before.push(ls[n - 1]).drop_last() =~= before);
        }
    }
}

proof fn lemma_prose_add(a: Seq<Seq<char>>, b: Seq<Seq<char>>)
    requires
        forall|i: int| 0 <= i < b.len() ==> is_entry(#[trigger] b[i]),
    ensures
        prose(a + b) == prose(a),
    decreases b.len(),
{
    if b.len() == 0 {
        assert(a + b =~= a);
    } else {
        let rest = b.drop_last();
        lemma_prose_add(a, rest);
        assert((a + b).drop_last() =~= a + rest);
        assert(is_entry(b[b.len() - 1]));
    }
}

/// A merge keeps blank lines and prose as they stand, all of them and in
/// order.
pub proof fn law_prose_is_kept(ls: Seq<Seq<char>>, h: Seq<Seq<char>>, allow_deletes: bool)
    requires
        is_harvest(h),
    ensures
        prose(merged_lines(ls, h, allow_deletes)) == prose(ls),
{
    let d = deletes_on(ls, h, allow_deletes);
    let f = fresh(ls, h, h.len());
    lemma_prose_kept(ls, h, d, ls.len());
    assert(ls.take(ls.len() as int) =~= ls);
    lemma_fresh(ls, h, h.len());
    assert forall|i: int| 0 <= i < f.len() implies is_entry(#[trigger] f[i]) by {
        lemma_username_line(f[i]);
    }
    lemma_prose_add(kept(ls, h, d, ls.len()), f);
}

// --- merging twice -------------------------------------------------------------------

/// After a merge, no name has two lines.
pub proof fn law_merge_leaves_one_line_each(
    ls: Seq<Seq<char>>,
    h: Seq<Seq<char>>,
    allow_deletes: bool,
)
    requires
        is_harvest(h),
    ensures
        one_line_each(merged_lines(ls, h, allow_deletes)),
{
    let d = deletes_on(ls, h, allow_deletes);
    let k = kept(ls, h, d, ls.len());
    let f = fresh(ls, h, h.len());
    let m = merged_lines(ls, h, allow_deletes);
    lemma_kept_once(ls, h, d, ls.len());
    lemma_kept_members(ls, h, d, ls.len());
    lemma_fresh(ls, h, h.len());
    assert forall|a: int, b: int|
        0 <= a < b < m.len() && is_entry(#[trigger] m[a]) && is_entry(
            #[trigger] m[b],
        ) implies entry_name(m[a]) != entry_name(m[b]) by {
        if b < k.len() {
            assert(m[a] == k[a] && m[b] == k[b]);
        } else {
            let y = f[b - k.len()];
            assert(m[b] == y);
            lemma_username_line(y);
            if a < k.len() {
                assert(m[a] == k[a]);
                assert(kept_from(ls, h, d, ls.len(), k[a]));
                let i = choose|i: int|
                    0 <= i < ls.len() && #[trigger] ls[i] == k[a] && stays(ls, h, d, i);
                if entry_name(ls[i]) == y {
                    assert(on_file(ls, y));
                }
            } else {
                let x = f[a - k.len()];
                assert(m[a] == x);
                lemma_username_line(x);
            }
        }
    }
}

proof fn lemma_names_on(ls: Seq<Seq<char>>, name: Seq<char>)
    ensures
        names_on(ls).contains(name) == on_file(ls, name),
    decreases ls.len(),
{
    if ls.len() > 0 {
        let rest = ls.drop_last();
        let last = ls.last();
        lemma_names_on(rest, name);
        assert(rest + seq![last] =~= ls);
        lemma_on_file_add(rest, seq![last], name);
        if is_entry(last) {
            lemma_push_contains(names_on(rest), entry_name(last), name);
            if entry_name(last) == name {
                assert(is_entry(seq![last][0]));
            }
        }
        if on_file(seq![last], name) {
            let i = choose|i: int|
                0 <= i < 1 && is_entry(#[trigger] seq![last][i]) && entry_name(seq![last][i])
                    == name;
            assert(seq![last][i] == last);
        }
    } else {
        assert(!on_file(ls, name));
    }
}

/// A list without repeats that holds no more than another is no longer.
proof fn lemma_no_longer(a: Seq<Seq<char>>, b: Seq<Seq<char>>)
    requires
        a.no_duplicates(),
        b.no_duplicates(),
        forall|x: Seq<char>| #[trigger] a.contains(x) ==> b.contains(x),
    ensures
        a.len() <= b.len(),
{
    a.unique_seq_to_set();
    b.unique_seq_to_set();
    assert(a.to_set().subset_of(b.to_set()));
    vstd::set_lib::lemma_len_subset(a.to_set(), b.to_set());
}

/// A second merge deletes exactly when the first did, and then the harvest
/// holds everyone on file.
proof fn lemma_deletes_again(ls: Seq<Seq<char>>, h: Seq<Seq<char>>, allow_deletes: bool)
    requires
        is_harvest(h),
    ensures
        deletes_on(merged_lines(ls, h, allow_deletes), h, allow_deletes) == deletes_on(
            ls,
            h,
            allow_deletes,
        ),
        deletes_on(ls, h, allow_deletes) ==> forall|x: Seq<char>| #[trigger]
            on_file(merged_lines(ls, h, allow_deletes), x) ==> h.contains(x),
{
    let d = deletes_on(ls, h, allow_deletes);
    let m = merged_lines(ls, h, allow_deletes);
    let was = distinct(names_on(ls));
    let is = distinct(names_on(m));
    lemma_distinct(names_on(ls));
    lemma_distinct(names_on(m));
    assert forall|x: Seq<char>| #[trigger] on_file(m, x) && d implies h.contains(x) by {
        law_merge_decides_each_name(ls, h, allow_deletes, x);
    }
    if d {
        assert forall|x: Seq<char>| #[trigger] is.contains(x) implies h.contains(x) by {
            lemma_names_on(m, x);
        }
        lemma_no_longer(is, h);
    } else {
        assert forall|x: Seq<char>| #[trigger] was.contains(x) implies is.contains(x) by {
            lemma_names_on(ls, x);
            lemma_names_on(m, x);
            law_merge_decides_each_name(ls, h, allow_deletes, x);
        }
        lemma_no_longer(was, is);
    }
}

proof fn lemma_all_kept(ls: Seq<Seq<char>>, h: Seq<Seq<char>>, d: bool, n: nat)
    requires
        n <= ls.len(),
        forall|i: int| 0 <= i < ls.len() ==> stays(ls, h, d, i),
    ensures
        kept(ls, h, d, n) == ls.take(n as int),
    decreases n,
{
    if n == 0 {
        assert(ls.take(0) =~= kept(ls, h, d, 0));
    } else {
        lemma_all_kept(ls, h, d, (n - 1) as nat);
        assert(stays(ls, h, d, n - 1));
        assert(ls.take(n as int) =~= ls.take(n - 1).push(ls[n - 1]));
    }
}

proof fn lemma_none_fresh(ls: Seq<Seq<char>>, h: Seq<Seq<char>>, n: nat)
    requires
        n <= h.len(),
        forall|i: int| 0 <= i < h.len() ==> on_file(ls, #[trigger] h[i]),
    ensures
        fresh(ls, h, n) == Seq::<Seq<char>>::empty(),
    decreases n,
{
    if n > 0 {
        lemma_none_fresh(ls, h, (n - 1) as nat);
        assert(on_file(ls, h[n - 1]));
    }
}

/// Lines with one for each name, for all of a harvest and, where deletions are
/// on, for nobody else: a merge of the harvest has nothing to do.
proof fn lemma_nothing_to_merge(m: Seq<Seq<char>>, h: Seq<Seq<char>>, allow_deletes: bool)
    requires
        one_line_each(m),
        deletes_on(m, h, allow_deletes) ==> forall|x: Seq<char>| #[trigger]
            on_file(m, x) ==> h.contains(x),
        forall|i: int| 0 <= i < h.len() ==> on_file(m, #[trigger] h[i]),
    ensures
        merged_lines(m, h, allow_deletes) == m,
        fresh(m, h, h.len()).len() == 0,
        dropped_count(m, h, deletes_on(m, h, allow_deletes), m.len()) == 0,
{
    let d = deletes_on(m, h, allow_deletes);
    assert forall|i: int| 0 <= i < m.len() implies stays(m, h, d, i) && !dropped(m, h, d, i) by {
        if is_entry(m[i]) {
            let x = entry_name(m[i]);
            if shadowed(m, i) {
                let j = choose|j: int|
                    0 <= j < m.len() && is_entry(#[trigger] m[j]) && !is_excluded(m[j])
                        && entry_name(m[j]) == x;
                assert(i != j);
                assert(is_entry(m[i]) && is_entry(m[j]));
                assert(false);
            }
            if settled(m, i, x) {
                let j = choose|j: int|
                    0 <= j < i && is_entry(#[trigger] m[j]) && !shadowed(m, j) && entry_name(m[j])
                        == x;
                assert(is_entry(m[i]) && is_entry(m[j]));
                assert(false);
            }
            if d {
                assert(on_file(m, x));
            }
        }
    }
    lemma_all_kept(m, h, d, m.len());
    assert(m.take(m.len() as int) =~= m);
    lemma_nothing_dropped(m, h, d, m.len());
    lemma_none_fresh(m, h, h.len());
    assert(m + Seq::<Seq<char>>::empty() =~= m);
}

/// Merging the same harvest again changes no line, adds nobody and deletes
/// nobody.
pub proof fn law_merge_is_idempotent(ls: Seq<Seq<char>>, h: Seq<Seq<char>>, allow_deletes: bool)
    requires
        is_harvest(h),
    ensures
        merged_lines(merged_lines(ls, h, allow_deletes), h, allow_deletes) == merged_lines(
            ls,
            h,
            allow_deletes,
        ),
        fresh(merged_lines(ls, h, allow_deletes), h, h.len()).len() == 0,
        dropped_count(
            merged_lines(ls, h, allow_deletes),
            h,
            deletes_on(merged_lines(ls, h, allow_deletes), h, allow_deletes),
            merged_lines(ls, h, allow_deletes).len(),
        ) == 0,
{
    let m = merged_lines(ls, h, allow_deletes);
    law_merge_leaves_one_line_each(ls, h, allow_deletes);
    lemma_deletes_again(ls, h, allow_deletes);
    lemma_harvest_on_file(ls, h, allow_deletes);
    lemma_nothing_to_merge(m, h, allow_deletes);
}

proof fn lemma_harvest_on_file(ls: Seq<Seq<char>>, h: Seq<Seq<char>>, allow_deletes: bool)
    requires
        is_harvest(h),
    ensures
        forall|i: int|
            0 <= i < h.len() ==> on_file(merged_lines(ls, h, allow_deletes), #[trigger] h[i]),
{
    let m = merged_lines(ls, h, allow_deletes);
    assert forall|i: int| 0 <= i < h.len() implies on_file(m, #[trigger] h[i]) by {
        assert(h.contains(h[i]));
        law_merge_decides_each_name(ls, h, allow_deletes, h[i]);
    }
}

/// An empty harvest never empties the file: everyone on file stays, and is
/// scanned or not as before.
pub proof fn law_empty_harvest_deletes_nobody(
    ls: Seq<Seq<char>>,
    allow_deletes: bool,
    name: Seq<char>,
)
    requires
        on_file(ls, name),
    ensures
        on_file(merged_lines(ls, Seq::empty(), allow_deletes), name),
        active_on(merged_lines(ls, Seq::empty(), allow_deletes), name) == active_on(ls, name),
{
    let names = distinct(names_on(ls));
    lemma_distinct(names_on(ls));
    lemma_names_on(ls, name);
    assert(names.contains(name));
    law_partial_harvest_deletes_nobody(ls, Seq::empty(), allow_deletes, name);
}

// --- the scan list -------------------------------------------------------------------

/// The names that a merge leaves on a scan list: with deletions on, a username
/// goes that the harvest lacks.
pub open spec fn remaining(names: Seq<Seq<char>>, h: Seq<Seq<char>>, d: bool) -> Seq<Seq<char>>
    decreases names.len(),
{
    if names.len() == 0 {
        names
    } else if d && username_shaped(names.last()) && !h.contains(names.last()) {
        remaining(names.drop_last(), h, d)
    } else {
        remaining(names.drop_last(), h, d).push(names.last())
    }
}

proof fn lemma_remaining(names: Seq<Seq<char>>, h: Seq<Seq<char>>, d: bool, x: Seq<char>)
    ensures
        remaining(names, h, d).contains(x) == (names.contains(x) && !(d && username_shaped(x)
            && !h.contains(x))),
        names.no_duplicates() ==> remaining(names, h, d).no_duplicates(),
    decreases names.len(),
{
    if names.len() > 0 {
        let rest = names.drop_last();
        let last = names.last();
        lemma_remaining(rest, h, d, x);
        lemma_remaining(rest, h, d, last);
        assert(rest.push(last) =~= names);
        lemma_push_contains(rest, last, x);
        lemma_push_contains(remaining(rest, h, d), last, x);
        if names.no_duplicates() {
            assert(rest.no_duplicates());
            if rest.contains(last) {
                let i = choose|i: int| 0 <= i < rest.len() && rest[i] == last;
                assert(names[i] == names[names.len() - 1]);
            }
        }
    }
}

/// A name is taken from lines when some line gives it.
proof fn lemma_scan_names(ls: Seq<Seq<char>>, x: Seq<char>)
    ensures
        scan_names(ls).contains(x) == exists|i: int|
            0 <= i < ls.len() && scan_name(#[trigger] ls[i]) == Some(x),
    decreases ls.len(),
{
    if ls.len() > 0 {
        let rest = ls.drop_last();
        lemma_scan_names(rest, x);
        if let Some(name) = scan_name(ls.last()) {
            lemma_push_contains(scan_names(rest), name, x);
        }
        if exists|i: int| 0 <= i < rest.len() && scan_name(#[trigger] rest[i]) == Some(x) {
            let i = choose|i: int| 0 <= i < rest.len() && scan_name(#[trigger] rest[i]) == Some(x);
            assert(ls[i] == rest[i]);
        }
        if scan_name(ls.last()) == Some(x) {
            assert(ls[ls.len() - 1] == ls.last());
        }
        if exists|i: int| 0 <= i < ls.len() && scan_name(#[trigger] ls[i]) == Some(x) {
            let i = choose|i: int| 0 <= i < ls.len() && scan_name(#[trigger] ls[i]) == Some(x);
            if i < rest.len() {
                assert(rest[i] == ls[i]);
            }
        }
    }
}

proof fn lemma_scan_names_add(a: Seq<Seq<char>>, b: Seq<Seq<char>>)
    ensures
        scan_names(a + b) == scan_names(a) + scan_names(b),
    decreases b.len(),
{
    if b.len() == 0 {
        assert(a + b =~= a);
        assert(scan_names(a) + scan_names(b) =~= scan_names(a));
    } else {
        let rest = b.drop_last();
        lemma_scan_names_add(a, rest);
        assert((a + b).drop_last() =~= a + rest);
        assert((a + b).last() == b.last());
        assert(scan_names(a + b) =~= scan_names(a) + scan_names(b));
    }
}

/// The names that are taken from usernames are those usernames.
proof fn lemma_scan_usernames(f: Seq<Seq<char>>)
    requires
        forall|i: int| 0 <= i < f.len() ==> username_shaped(#[trigger] f[i]),
    ensures
        scan_names(f) == f,
    decreases f.len(),
{
    if f.len() > 0 {
        let rest = f.drop_last();
        assert forall|i: int| 0 <= i < rest.len() implies username_shaped(#[trigger] rest[i]) by {
            assert(rest[i] == f[i]);
        }
        lemma_scan_usernames(rest);
        assert(username_shaped(f[f.len() - 1]));
        lemma_username_line(f.last());
        assert(rest.push(f.last()) =~= f);
    } else {
        assert(scan_names(f) =~= f);
    }
}

proof fn lemma_distinct_add(a: Seq<Seq<char>>, b: Seq<Seq<char>>)
    requires
        b.no_duplicates(),
        forall|x: Seq<char>| #[trigger] b.contains(x) ==> !a.contains(x),
    ensures
        distinct(a + b) == distinct(a) + b,
    decreases b.len(),
{
    if b.len() == 0 {
        assert(a + b =~= a);
        assert(distinct(a) + b =~= distinct(a));
    } else {
        let rest = b.drop_last();
        let last = b.last();
        assert(rest.push(last) =~= b);
        assert forall|x: Seq<char>| #[trigger] rest.contains(x) implies !a.contains(x) by {
            lemma_push_contains(rest, last, x);
            assert(b.contains(x));
        }
        lemma_distinct_add(a, rest);
        assert((a + b).drop_last() =~= a + rest);
        assert((a + b).last() == last);
        lemma_distinct(a);
        assert(b[b.len() - 1] == last);
        assert(b.contains(last));
        if (distinct(a) + rest).contains(last) {
            let i = choose|i: int|
                0 <= i < (distinct(a) + rest).len() && (distinct(a) + rest)[i] == last;
            if i < distinct(a).len() {
                assert(distinct(a).contains(distinct(a)[i]));
            } else {
                assert(rest[i - distinct(a).len()] == last);
                assert(b[i - distinct(a).len()] == b[b.len() - 1]);
            }
            assert(false);
        }
        assert(distinct(a + b) =~= distinct(a) + b);
    }
}

/// The line of an uncommented name is settled by an earlier line when the scan
/// took the name before.
proof fn lemma_settled_by_scan(ls: Seq<Seq<char>>, i: int)
    requires
        0 <= i < ls.len(),
        is_entry(ls[i]),
        !is_excluded(ls[i]),
    ensures
        settled(ls, i, entry_name(ls[i])) == distinct(scan_names(ls.take(i))).contains(
            entry_name(ls[i]),
        ),
{
    let x = entry_name(ls[i]);
    let before = ls.take(i);
    assert(active_on(ls, x));
    lemma_distinct(scan_names(before));
    lemma_scan_names(before, x);
    if settled(ls, i, x) {
        let j = choose|j: int|
            0 <= j < i && is_entry(#[trigger] ls[j]) && !shadowed(ls, j) && entry_name(ls[j]) == x;
        assert(before[j] == ls[j]);
        assert(scan_name(before[j]) == Some(x));
    }
    if exists|j: int| 0 <= j < before.len() && scan_name(#[trigger] before[j]) == Some(x) {
        let j = choose|j: int| 0 <= j < before.len() && scan_name(#[trigger] before[j]) == Some(x);
        assert(before[j] == ls[j]);
        assert(is_entry(ls[j]) && !shadowed(ls, j));
    }
}

/// Whom the scan takes from what is kept.
proof fn lemma_scan_kept(ls: Seq<Seq<char>>, h: Seq<Seq<char>>, d: bool, n: nat)
    requires
        n <= ls.len(),
    ensures
        distinct(scan_names(kept(ls, h, d, n))) == remaining(
            distinct(scan_names(ls.take(n as int))),
            h,
            d,
        ),
    decreases n,
{
    if n == 0 {
        assert(ls.take(0) =~= kept(ls, h, d, 0));
        assert(scan_names(ls.take(0)) =~= Seq::<Seq<char>>::empty());
        assert(distinct(Seq::<Seq<char>>::empty()) =~= Seq::<Seq<char>>::empty());
    } else {
        let line = ls[n - 1];
        let k = kept(ls, h, d, (n - 1) as nat);
        let s = scan_names(ls.take(n - 1));
        let ks = scan_names(k);
        lemma_scan_kept(ls, h, d, (n - 1) as nat);
        assert(ls.take(n as int).drop_last() =~= ls.take(n - 1));
        assert(ls.take(n as int).last() == line);
        assert(k.push(line).drop_last() =~= k);
        if let Some(x) = scan_name(line) {
            assert(s.push(x).drop_last() =~= s);
            assert(ks.push(x).drop_last() =~= ks);
            lemma_distinct(s);
            lemma_distinct(ks);
            lemma_remaining(distinct(s), h, d, x);
            assert(distinct(s).push(x).drop_last() =~= distinct(s));
            if is_entry(line) {
                lemma_settled_by_scan(ls, n - 1);
                assert(speaks(ls, n - 1) == !distinct(s).contains(x));
            }
        }
    }
}

/// A merge changes whom the scan visits only as it must: the list stays in
/// order, those leave it who are deleted, and those join it at its end whom the
/// harvest brought in. Lines that are about one name are resolved as the scan
/// resolves them.
pub proof fn law_merge_keeps_the_scan_list(
    ls: Seq<Seq<char>>,
    h: Seq<Seq<char>>,
    allow_deletes: bool,
)
    requires
        is_harvest(h),
    ensures
        distinct(scan_names(merged_lines(ls, h, allow_deletes))) == remaining(
            distinct(scan_names(ls)),
            h,
            deletes_on(ls, h, allow_deletes),
        ) + fresh(ls, h, h.len()),
{
    let d = deletes_on(ls, h, allow_deletes);
    let k = kept(ls, h, d, ls.len());
    let f = fresh(ls, h, h.len());
    lemma_fresh(ls, h, h.len());
    lemma_scan_kept(ls, h, d, ls.len());
    assert(ls.take(ls.len() as int) =~= ls);
    lemma_scan_names_add(k, f);
    lemma_scan_usernames(f);
    lemma_kept_members(ls, h, d, ls.len());
    assert forall|x: Seq<char>| #[trigger] f.contains(x) implies !scan_names(k).contains(x) by {
        let a = choose|a: int| 0 <= a < f.len() && f[a] == x;
        assert(username_shaped(f[a]) && !on_file(ls, f[a]));
        lemma_scan_names(k, x);
        if scan_names(k).contains(x) {
            let j = choose|j: int| 0 <= j < k.len() && scan_name(#[trigger] k[j]) == Some(x);
            assert(kept_from(ls, h, d, ls.len(), k[j]));
            let i = choose|i: int|
                0 <= i < ls.len() && #[trigger] ls[i] == k[j] && stays(ls, h, d, i);
            assert(is_entry(ls[i]));
        }
    }
    lemma_distinct_add(scan_names(k), f);
}

// --- files ---------------------------------------------------------------------------

/// A carriage return at the end of a line does not change what the line says.
proof fn lemma_line_without_cr(s: Seq<char>)
    ensures
        is_entry(without_cr(s)) == is_entry(s),
        is_excluded(without_cr(s)) == is_excluded(s),
        entry_name(without_cr(s)) == entry_name(s),
        scan_name(without_cr(s)) == scan_name(s),
{
    lemma_trimmed_without_cr(s);
}

/// Nor do they change what a list of lines says.
proof fn lemma_shorn_says_the_same(ls: Seq<Seq<char>>)
    ensures
        scan_names(shorn(ls)) == scan_names(ls),
        names_on(shorn(ls)) == names_on(ls),
        one_line_each(ls) ==> one_line_each(shorn(ls)),
    decreases ls.len(),
{
    let t = shorn(ls);
    if ls.len() > 0 {
        assert(t.drop_last() =~= shorn(ls.drop_last()));
        assert(t.last() == without_cr(ls.last()));
        lemma_shorn_says_the_same(ls.drop_last());
        lemma_line_without_cr(ls.last());
    } else {
        assert(t =~= ls);
    }
    if one_line_each(ls) {
        assert forall|a: int, b: int|
            0 <= a < b < t.len() && is_entry(#[trigger] t[a]) && is_entry(
                #[trigger] t[b],
            ) implies entry_name(t[a]) != entry_name(t[b]) by {
            lemma_line_without_cr(ls[a]);
            lemma_line_without_cr(ls[b]);
            assert(is_entry(ls[a]) && is_entry(ls[b]));
        }
    }
}

/// What a merge writes reads as the lines that it wrote, each without a carriage
/// return at its end. A file without any character has none.
proof fn lemma_merged_reads_back(text: Seq<char>, h: Seq<Seq<char>>, allow_deletes: bool)
    requires
        is_harvest(h),
    ensures
        lines_of(merged_text(text, h, allow_deletes)) == shorn(
            merged_lines(lines_of(text), h, allow_deletes),
        ) || (merged_text(text, h, allow_deletes).len() == 0 && h.len() == 0 && scan_names(
            merged_lines(lines_of(text), h, allow_deletes),
        ).len() == 0),
{
    let ls = lines_of(text);
    let d = deletes_on(ls, h, allow_deletes);
    let k = kept(ls, h, d, ls.len());
    let f = fresh(ls, h, h.len());
    let m = merged_lines(ls, h, allow_deletes);
    lemma_kept_members(ls, h, d, ls.len());
    lemma_fresh(ls, h, h.len());
    lemma_lines_hold_no_feed(text, 0, 0);
    assert forall|i: int| 0 <= i < m.len() implies holds_no_feed(#[trigger] m[i]) by {
        if i < k.len() {
            assert(m[i] == k[i]);
            assert(kept_from(ls, h, d, ls.len(), k[i]));
            let j = choose|j: int|
                0 <= j < ls.len() && #[trigger] ls[j] == k[i] && stays(ls, h, d, j);
            assert(holds_no_feed(ls[j]));
        } else {
            assert(m[i] == f[i - k.len()]);
            lemma_username_line(m[i]);
        }
    }
    law_shorn_lines_read_back(m);
    if joined(m).len() == 0 {
        lemma_joined_empty(m);
        if h.len() > 0 {
            assert(h.contains(h[0]));
            law_merge_decides_each_name(ls, h, allow_deletes, h[0]);
            let i = choose|i: int|
                0 <= i < m.len() && is_entry(#[trigger] m[i]) && entry_name(m[i]) == h[0];
            lemma_blank_line(m[i]);
        }
        if m.len() == 1 {
            lemma_blank_line(m[0]);
            assert(m.last() == m[0]);
            assert(scan_names(m.drop_last()) == Seq::<Seq<char>>::empty());
            assert(scan_names(m).len() == 0);
        } else {
            assert(m =~= Seq::<Seq<char>>::empty());
        }
    }
}

proof fn lemma_blank_line(s: Seq<char>)
    requires
        s.len() == 0,
    ensures
        !is_entry(s),
        scan_name(s) is None,
{
    assert(trim_left(s) == s);
    assert(trim_right(s) == s);
    assert(trimmed(s) == s);
    assert(line_body(s) == s);
    assert(without_lead(s, '@') == s);
}

/// Merging the same harvest again leaves the file as it is. A line that was
/// written with a carriage return at its end would lose it.
pub proof fn law_merged_file_is_settled(text: Seq<char>, h: Seq<Seq<char>>, allow_deletes: bool)
    requires
        is_harvest(h),
        forall|i: int|
            0 <= i < merged_lines(lines_of(text), h, allow_deletes).len() ==> is_line(
                #[trigger] merged_lines(lines_of(text), h, allow_deletes)[i],
            ),
    ensures
        merged_text(merged_text(text, h, allow_deletes), h, allow_deletes) == merged_text(
            text,
            h,
            allow_deletes,
        ),
{
    let ls = lines_of(text);
    let m = merged_lines(ls, h, allow_deletes);
    let once = merged_text(text, h, allow_deletes);
    lemma_merged_reads_back(text, h, allow_deletes);
    lemma_shorn_lines(m);
    if lines_of(once) == m {
        law_merge_is_idempotent(ls, h, allow_deletes);
    } else {
        let none = lines_of(once);
        assert(once =~= Seq::<char>::empty());
        assert(none =~= Seq::<Seq<char>>::empty());
        assert(merged_lines(none, h, allow_deletes) =~= Seq::<Seq<char>>::empty());
        assert(file_of(Seq::<Seq<char>>::empty()) =~= Seq::<char>::empty());
    }
}

/// Merging the same harvest again counts nobody as added or removed.
pub proof fn law_second_merge_counts_nobody(
    text: Seq<char>,
    h: Seq<Seq<char>>,
    allow_deletes: bool,
    second: MergeOutcome,
)
    requires
        is_harvest(h),
        counts_merge(second, merged_text(text, h, allow_deletes), h, allow_deletes),
    ensures
        second.added == 0,
        second.removed == 0,
{
    let ls = lines_of(text);
    let m = merged_lines(ls, h, allow_deletes);
    let once = merged_text(text, h, allow_deletes);
    lemma_merged_reads_back(text, h, allow_deletes);
    if lines_of(once) == shorn(m) {
        law_merge_leaves_one_line_each(ls, h, allow_deletes);
        lemma_deletes_again(ls, h, allow_deletes);
        lemma_harvest_on_file(ls, h, allow_deletes);
        lemma_shorn_says_the_same(m);
        assert forall|x: Seq<char>| #[trigger] on_file(shorn(m), x) == on_file(m, x) by {
            lemma_names_on(shorn(m), x);
            lemma_names_on(m, x);
        }
        lemma_nothing_to_merge(shorn(m), h, allow_deletes);
    } else {
        assert(once =~= Seq::<char>::empty());
        assert(lines_of(once) =~= Seq::<Seq<char>>::empty());
    }
}

/// What the scan reads from the file that a merge wrote: whom it read before,
/// in order, without those who were deleted, and then those whom the harvest
/// brought in.
pub proof fn law_merged_file_is_scanned(text: Seq<char>, h: Seq<Seq<char>>, allow_deletes: bool)
    requires
        is_harvest(h),
    ensures
        scanned(merged_text(text, h, allow_deletes)) == remaining(
            scanned(text),
            h,
            deletes_on(lines_of(text), h, allow_deletes),
        ) + fresh(lines_of(text), h, h.len()),
{
    let ls = lines_of(text);
    let m = merged_lines(ls, h, allow_deletes);
    let once = merged_text(text, h, allow_deletes);
    lemma_merged_reads_back(text, h, allow_deletes);
    lemma_shorn_says_the_same(m);
    law_merge_keeps_the_scan_list(ls, h, allow_deletes);
    if lines_of(once) != shorn(m) {
        assert(once =~= Seq::<char>::empty());
        assert(lines_of(once) =~= Seq::<Seq<char>>::empty());
        assert(scan_names(lines_of(once)) =~= scan_names(m));
    }
}

/// The count of those whom the scan picks up after a merge is the length of the
/// list that the scan then reads: those who were on it and were not deleted, and
/// those whom the harvest brought in.
pub proof fn law_active_counts_the_scan_list(
    text: Seq<char>,
    h: Seq<Seq<char>>,
    allow_deletes: bool,
    outcome: MergeOutcome,
)
    requires
        is_harvest(h),
        counts_merge(outcome, text, h, allow_deletes),
    ensures
        outcome.active == scanned(merged_text(text, h, allow_deletes)).len(),
        outcome.active == remaining(
            scanned(text),
            h,
            deletes_on(lines_of(text), h, allow_deletes),
        ).len() + outcome.added,
{
    law_merged_file_is_scanned(text, h, allow_deletes);
}

/// A follows file that does not exist yet is written from the harvest.
pub proof fn law_first_merge_writes_the_harvest(h: Seq<Seq<char>>, allow_deletes: bool)
    requires
        is_harvest(h),
    ensures
        merged_lines(lines_of(Seq::empty()), h, allow_deletes) == h,
{
    let none = lines_of(Seq::<char>::empty());
    assert(none =~= Seq::<Seq<char>>::empty());
    lemma_all_fresh(none, h, h.len());
    assert(h.take(h.len() as int) =~= h);
    assert(merged_lines(none, h, allow_deletes) =~= h);
}

proof fn lemma_all_fresh(ls: Seq<Seq<char>>, h: Seq<Seq<char>>, n: nat)
    requires
        ls.len() == 0,
        n <= h.len(),
    ensures
        fresh(ls, h, n) == h.take(n as int),
    decreases n,
{
    if n == 0 {
        assert(h.take(0) =~= fresh(ls, h, 0));
    } else {
        lemma_all_fresh(ls, h, (n - 1) as nat);
        assert(h.take(n as int) =~= h.take(n - 1).push(h[n - 1]));
    }
}

// --- what a line says ----------------------------------------------------------------

/// A username is one to thirty letters, digits, dots and low lines of ASCII.
pub proof fn law_usernames_have_a_shape(s: Seq<char>)
    ensures
        username_shaped(s) <==> (1 <= s.len() <= 30 && forall|i: int|
            0 <= i < s.len() ==> (0x61 <= (#[trigger] s[i]) as u32 <= 0x7a || 0x41 <= s[i] as u32
                <= 0x5a || 0x30 <= s[i] as u32 <= 0x39 || s[i] as u32 == 0x2e || s[i] as u32
                == 0x5f)),
{
    if username_shaped(s) {
        assert forall|i: int| 0 <= i < s.len() implies (0x61 <= (
        #[trigger] s[i]) as u32 <= 0x7a || 0x41 <= s[i] as u32 <= 0x5a || 0x30 <= s[i] as u32
            <= 0x39 || s[i] as u32 == 0x2e || s[i] as u32 == 0x5f) by {
            assert(is_username_char(s[i]));
        }
    }
    if 1 <= s.len() <= 30 && forall|i: int|
        0 <= i < s.len() ==> (0x61 <= (#[trigger] s[i]) as u32 <= 0x7a || 0x41 <= s[i] as u32
            <= 0x5a || 0x30 <= s[i] as u32 <= 0x39 || s[i] as u32 == 0x2e || s[i] as u32 == 0x5f) {
        assert forall|i: int| 0 <= i < s.len() implies is_username_char(#[trigger] s[i]) by {
            lemma_username_codes(s[i]);
        }
    }
}

proof fn lemma_username_codes(c: char)
    requires
        0x61 <= c as u32 <= 0x7a || 0x41 <= c as u32 <= 0x5a || 0x30 <= c as u32 <= 0x39
            || c as u32 == 0x2e || c as u32 == 0x5f,
    ensures
        is_username_char(c),
{
}

/// Whether a text is nothing but white space.
pub open spec fn is_blank(s: Seq<char>) -> bool {
    forall|i: int| 0 <= i < s.len() ==> is_white(#[trigger] s[i])
}

/// A line with a username on it, with white space around it and an `@` before it
/// or not, is an entry for that name; behind a `#` it is an exclusion.
pub proof fn law_usernames_make_entries(
    a: Seq<char>,
    b: Seq<char>,
    c: Seq<char>,
    name: Seq<char>,
)
    requires
        username_shaped(name),
        is_blank(a),
        is_blank(b),
        is_blank(c),
    ensures
        is_entry(a + name + c) && !is_excluded(a + name + c) && entry_name(a + name + c) == name,
        is_entry(a + (seq!['@'] + name) + c) && !is_excluded(a + (seq!['@'] + name) + c)
            && entry_name(a + (seq!['@'] + name) + c) == name,
        is_entry(a + (seq!['#'] + b + name) + c) && is_excluded(a + (seq!['#'] + b + name) + c)
            && entry_name(a + (seq!['#'] + b + name) + c) == name,
        is_entry(a + (seq!['#'] + b + (seq!['@'] + name)) + c) && is_excluded(
            a + (seq!['#'] + b + (seq!['@'] + name)) + c,
        ) && entry_name(a + (seq!['#'] + b + (seq!['@'] + name)) + c) == name,
{
    lemma_username_line(name);
    assert forall|i: int| 0 <= i < name.len() implies !is_white(#[trigger] name[i]) && name[i]
        != '#' && name[i] != '@' by {
        assert(is_username_char(name[i]));
        lemma_username_char(name[i]);
    }
    assert(name.last() == name[name.len() - 1]);
    assert(!is_white('@') && !is_white('#'));
    let none = Seq::<char>::empty();
    let at = seq!['@'] + name;
    assert(at.drop_first() =~= name);
    assert(at.last() == name.last());
    law_padding_comes_off(a, name, c);
    law_padding_comes_off(a, at, c);
    let plain = seq!['#'] + b + name;
    let marked = seq!['#'] + b + at;
    assert(plain.last() == name.last());
    assert(marked.last() == name.last());
    law_padding_comes_off(a, plain, c);
    law_padding_comes_off(a, marked, c);
    assert(plain.drop_first() =~= b + name + none);
    assert(marked.drop_first() =~= b + at + none);
    law_padding_comes_off(b, name, none);
    law_padding_comes_off(b, at, none);
}

proof fn lemma_trimmed_is_a_suffix(s: Seq<char>)
    requires
        s.len() > 0 ==> !is_white(s.last()),
    ensures
        exists|i: int|
            0 <= i <= s.len() && trimmed(s) == #[trigger] s.skip(i) && forall|k: int|
                0 <= k < i ==> is_white(#[trigger] s[k]),
{
    law_trim_takes_white_space_off(s);
    let (i, j) = choose|i: int, j: int|
        0 <= i <= j <= s.len() && trimmed(s) == #[trigger] s.subrange(i, j) && (forall|k: int|
            0 <= k < i || j <= k < s.len() ==> is_white(#[trigger] s[k])) && (i < j ==> !is_white(
            s[i],
        ) && !is_white(s[j - 1]));
    if s.len() > 0 {
        assert(s.last() == s[s.len() - 1]);
        assert(j == s.len());
    }
    assert(s.subrange(i, j) =~= s.skip(i));
}

/// An entry is nothing but a username: before it stand only white space, a `#`
/// and an `@`. It is an exclusion exactly when the first thing on it is a `#`.
pub proof fn law_entries_are_lone_usernames(raw: Seq<char>)
    requires
        is_entry(raw),
    ensures
        username_shaped(entry_name(raw)),
        exists|k: int|
            0 <= k < trimmed(raw).len() && entry_name(raw) == #[trigger] trimmed(raw).skip(k)
                && forall|i: int|
                0 <= i < k ==> (is_white(#[trigger] trimmed(raw)[i]) || trimmed(raw)[i] == '#'
                    || trimmed(raw)[i] == '@'),
        is_excluded(raw) <==> trimmed(raw)[0] == '#',
{
    let t = trimmed(raw);
    law_trim_takes_white_space_off(raw);
    let (p, q) = choose|i: int, j: int|
        0 <= i <= j <= raw.len() && trimmed(raw) == #[trigger] raw.subrange(i, j) && (forall|
            k: int,
        |
            0 <= k < i || j <= k < raw.len() ==> is_white(#[trigger] raw[k])) && (i < j
            ==> !is_white(raw[i]) && !is_white(raw[j - 1]));
    if t.len() > 0 {
        assert(t.last() == raw[q - 1]);
    }
    let body = line_body(raw);
    // How much of the line the comment sign and the white space behind it take.
    let from: int = if is_excluded(raw) {
        let u = t.drop_first();
        if u.len() > 0 {
            assert(u.last() == t.last());
        }
        lemma_trimmed_is_a_suffix(u);
        let i = choose|i: int|
            0 <= i <= u.len() && trimmed(u) == #[trigger] u.skip(i) && forall|k: int|
                0 <= k < i ==> is_white(#[trigger] u[k]);
        assert(u.skip(i) =~= t.skip(i + 1));
        assert forall|k: int| 0 <= k < i + 1 implies (is_white(#[trigger] t[k]) || t[k] == '#'
            || t[k] == '@') by {
            if k > 0 {
                assert(u[k - 1] == t[k]);
            }
        }
        i + 1
    } else {
        assert(t.skip(0) =~= t);
        0
    };
    assert(body == t.skip(from));
    let v = without_lead(body, '@');
    let next: int = if body.len() > 0 && body[0] == '@' {
        assert(v =~= t.skip(from + 1));
        assert(t[from] == body[0]);
        from + 1
    } else {
        from
    };
    assert(v == t.skip(next));
    if v.len() > 0 {
        assert(v.last() == t.last());
    }
    lemma_trimmed_is_a_suffix(v);
    let j = choose|i: int|
        0 <= i <= v.len() && trimmed(v) == #[trigger] v.skip(i) && forall|k: int|
            0 <= k < i ==> is_white(#[trigger] v[k]);
    assert(v.skip(j) =~= t.skip(next + j));
    assert forall|i: int| 0 <= i < next + j implies (is_white(#[trigger] t[i]) || t[i] == '#'
        || t[i] == '@') by {
        if i >= next {
            assert(v[i - next] == t[i]);
        }
    }
    assert(entry_name(raw) == t.skip(next + j));
}

// --- lists of names ------------------------------------------------------------------

/// Whether the scan takes the name from a line: the line is no comment, and the
/// name is what it says without white space around it and one `@` before it.
pub open spec fn line_gives(line: Seq<char>, name: Seq<char>) -> bool {
    let t = trimmed(line);
    &&& name.len() > 0
    &&& t.len() > 0 && t[0] != '#'
    &&& name == trimmed(
        if t[0] == '@' {
            t.drop_first()
        } else {
            t
        },
    )
}

/// Whether a list holds, each once and in the order in which they first come,
/// what the places of another list give.
pub open spec fn lists_in_order(
    list: Seq<Seq<char>>,
    n: nat,
    gives: spec_fn(int, Seq<char>) -> bool,
) -> bool {
    &&& list.no_duplicates()
    &&& forall|x: Seq<char>| #[trigger]
        list.contains(x) <==> exists|i: int| 0 <= i < n && #[trigger] gives(i, x)
    &&& forall|a: int, b: int|
        0 <= a < b < list.len() ==> given_before(n, gives, #[trigger] list[a], #[trigger] list[b])
}

/// Whether a place gives `x`, and neither it nor one before it gives `y`.
pub open spec fn given_before(
    n: nat,
    gives: spec_fn(int, Seq<char>) -> bool,
    x: Seq<char>,
    y: Seq<char>,
) -> bool {
    exists|i: int|
        0 <= i < n && #[trigger] gives(i, x) && forall|j: int|
            0 <= j <= i ==> !#[trigger] gives(j, y)
}

/// One more place that gives one name, or none.
proof fn lemma_lists_push(
    list: Seq<Seq<char>>,
    n: nat,
    gives: spec_fn(int, Seq<char>) -> bool,
    given: Option<Seq<char>>,
)
    requires
        lists_in_order(list, n, gives),
        forall|x: Seq<char>| #[trigger] gives(n as int, x) <==> given == Some(x),
    ensures
        lists_in_order(
            match given {
                Some(x) => if list.contains(x) {
                    list
                } else {
                    list.push(x)
                },
                None => list,
            },
            n + 1,
            gives,
        ),
{
    let all = match given {
        Some(x) => if list.contains(x) {
            list
        } else {
            list.push(x)
        },
        None => list,
    };
    assert forall|x: Seq<char>| #[trigger] all.contains(x) <==> exists|i: int|
        0 <= i < n + 1 && #[trigger] gives(i, x) by {
        if let Some(y) = given {
            lemma_push_contains(list, y, x);
        }
        if list.contains(x) {
            let i = choose|i: int| 0 <= i < n && #[trigger] gives(i, x);
            assert(gives(i, x));
        }
        if given == Some(x) {
            assert(gives(n as int, x));
        }
        if exists|i: int| 0 <= i < n + 1 && #[trigger] gives(i, x) {
            let i = choose|i: int| 0 <= i < n + 1 && #[trigger] gives(i, x);
            if i < n {
                assert(list.contains(x));
            }
        }
    }
    assert forall|a: int, b: int| 0 <= a < b < all.len() implies given_before(
        n + 1,
        gives,
        #[trigger] all[a],
        #[trigger] all[b],
    ) by {
        assert(all[a] == list[a]);
        if b < list.len() {
            assert(all[b] == list[b]);
            assert(given_before(n, gives, list[a], list[b]));
            let i = choose|i: int|
                0 <= i < n && #[trigger] gives(i, list[a]) && forall|j: int|
                    0 <= j <= i ==> !#[trigger] gives(j, list[b]);
            assert(gives(i, all[a]));
        } else {
            assert(list.contains(list[a]));
            let i = choose|i: int| 0 <= i < n && #[trigger] gives(i, list[a]);
            assert(gives(i, all[a]));
            assert forall|j: int| 0 <= j <= i implies !#[trigger] gives(j, all[b]) by {
                if gives(j, all[b]) {
                    assert(list.contains(all[b]));
                }
            }
        }
    }
    if let Some(x) = given {
        if !list.contains(x) {
            assert(all.no_duplicates());
        }
    }
}

proof fn lemma_scan_in_order(ls: Seq<Seq<char>>, n: nat)
    requires
        n <= ls.len(),
    ensures
        lists_in_order(
            distinct(scan_names(ls.take(n as int))),
            n,
            |i: int, x: Seq<char>| line_gives(ls[i], x),
        ),
    decreases n,
{
    let gives = |i: int, x: Seq<char>| line_gives(ls[i], x);
    if n == 0 {
        assert(ls.take(0) =~= Seq::<Seq<char>>::empty());
        assert(distinct(scan_names(ls.take(0))) =~= Seq::<Seq<char>>::empty());
    } else {
        lemma_scan_in_order(ls, (n - 1) as nat);
        let before = scan_names(ls.take(n - 1));
        let line = ls[n - 1];
        assert(ls.take(n as int).drop_last() =~= ls.take(n - 1));
        assert(ls.take(n as int).last() == line);
        assert forall|x: Seq<char>| #[trigger] gives(n - 1, x) <==> scan_name(line) == Some(x) by {
            lemma_blank_trim(line);
        }
        lemma_lists_push(distinct(before), (n - 1) as nat, gives, scan_name(line));
        if let Some(x) = scan_name(line) {
            assert(before.push(x).drop_last() =~= before);
        }
    }
}

proof fn lemma_blank_trim(line: Seq<char>)
    ensures
        trimmed(line).len() == 0 ==> entry_name(line).len() == 0,
{
    if trimmed(line).len() == 0 {
        let t = trimmed(line);
        assert(trim_left(t) == t);
        assert(trim_right(t) == t);
    }
}

/// The scan visits everyone whom an uncommented line names, in the order in
/// which the file first names them, each once, and nobody else.
pub proof fn law_scan_list_is_the_file_read_down(text: Seq<char>)
    ensures
        lists_in_order(
            scanned(text),
            lines_of(text).len(),
            |i: int, x: Seq<char>| line_gives(lines_of(text)[i], x),
        ),
{
    let ls = lines_of(text);
    lemma_scan_in_order(ls, ls.len());
    assert(ls.take(ls.len() as int) =~= ls);
}

/// Whether an item of a harvest is the name, but for white space around it and
/// one `@` before it.
pub open spec fn item_gives(item: Seq<char>, name: Seq<char>) -> bool {
    let t = trimmed(item);
    &&& username_shaped(name)
    &&& name == trimmed(
        if t.len() > 0 && t[0] == '@' {
            t.drop_first()
        } else {
            t
        },
    )
}

proof fn lemma_clean_in_order(list: Seq<Seq<char>>, n: nat)
    requires
        n <= list.len(),
    ensures
        lists_in_order(
            cleaned(list.take(n as int)),
            n,
            |i: int, x: Seq<char>| item_gives(list[i], x),
        ),
    decreases n,
{
    let gives = |i: int, x: Seq<char>| item_gives(list[i], x);
    if n == 0 {
        assert(list.take(0) =~= Seq::<Seq<char>>::empty());
        assert(cleaned(list.take(0)) =~= Seq::<Seq<char>>::empty());
    } else {
        lemma_clean_in_order(list, (n - 1) as nat);
        let before = harvest_names(list.take(n - 1));
        let item = list[n - 1];
        assert(list.take(n as int).drop_last() =~= list.take(n - 1));
        assert(list.take(n as int).last() == item);
        let name = trimmed(without_lead(trimmed(item), '@'));
        let given = if username_shaped(name) {
            Some(name)
        } else {
            None
        };
        assert forall|x: Seq<char>| #[trigger] gives(n - 1, x) <==> given == Some(x) by {}
        lemma_lists_push(distinct(before), (n - 1) as nat, gives, given);
        if username_shaped(name) {
            assert(before.push(name).drop_last() =~= before);
        }
    }
}

/// A harvest is cleaned to the usernames in it, in the order in which they first
/// come, each once, and nothing else.
pub proof fn law_harvest_is_read_down(list: Seq<Seq<char>>)
    ensures
        lists_in_order(
            cleaned(list),
            list.len(),
            |i: int, x: Seq<char>| item_gives(list[i], x),
        ),
{
    lemma_clean_in_order(list, list.len());
    assert(list.take(list.len() as int) =~= list);
}

// --- who leaves and who comes --------------------------------------------------------

/// Whether a list holds everyone on file, each once.
pub open spec fn is_everyone(names: Seq<Seq<char>>, ls: Seq<Seq<char>>) -> bool {
    &&& names.no_duplicates()
    &&& forall|x: Seq<char>| #[trigger] names.contains(x) <==> on_file(ls, x)
}

proof fn lemma_same_length(a: Seq<Seq<char>>, b: Seq<Seq<char>>)
    requires
        a.no_duplicates(),
        b.no_duplicates(),
        forall|x: Seq<char>| #[trigger] a.contains(x) ==> b.contains(x),
        forall|x: Seq<char>| #[trigger] b.contains(x) ==> a.contains(x),
    ensures
        a.len() == b.len(),
{
    lemma_no_longer(a, b);
    lemma_no_longer(b, a);
}

proof fn lemma_deletes_by_count(
    ls: Seq<Seq<char>>,
    h: Seq<Seq<char>>,
    allow_deletes: bool,
    names: Seq<Seq<char>>,
)
    requires
        is_everyone(names, ls),
    ensures
        deletes_on(ls, h, allow_deletes) <==> (allow_deletes && names.len() <= 2 * h.len()),
{
    let all = distinct(names_on(ls));
    lemma_distinct(names_on(ls));
    assert forall|x: Seq<char>| #[trigger] all.contains(x) implies names.contains(x) by {
        lemma_names_on(ls, x);
    }
    assert forall|x: Seq<char>| #[trigger] names.contains(x) implies all.contains(x) by {
        lemma_names_on(ls, x);
    }
    lemma_same_length(all, names);
}

/// Who is on file in what a merge wrote, and who is not commented out there.
proof fn lemma_written_says_the_same(text: Seq<char>, h: Seq<Seq<char>>, allow_deletes: bool, x: Seq<char>)
    requires
        is_harvest(h),
    ensures
        on_file(lines_of(merged_text(text, h, allow_deletes)), x) == on_file(
            merged_lines(lines_of(text), h, allow_deletes),
            x,
        ),
        active_on(lines_of(merged_text(text, h, allow_deletes)), x) == active_on(
            merged_lines(lines_of(text), h, allow_deletes),
            x,
        ),
{
    let m = merged_lines(lines_of(text), h, allow_deletes);
    let once = merged_text(text, h, allow_deletes);
    lemma_merged_reads_back(text, h, allow_deletes);
    if lines_of(once) == shorn(m) {
        lemma_shorn_on_file(m, x);
    } else {
        assert(once =~= Seq::<char>::empty());
        assert(lines_of(once) =~= Seq::<Seq<char>>::empty());
        if on_file(m, x) {
            let i = choose|i: int|
                0 <= i < m.len() && is_entry(#[trigger] m[i]) && entry_name(m[i]) == x;
            lemma_empty_written(m, i);
        }
        if active_on(m, x) {
            let i = choose|i: int|
                0 <= i < m.len() && is_entry(#[trigger] m[i]) && !is_excluded(m[i]) && entry_name(
                    m[i],
                ) == x;
            lemma_empty_written(m, i);
        }
    }
}

proof fn lemma_empty_written(m: Seq<Seq<char>>, i: int)
    requires
        0 <= i < m.len(),
        file_of(m).len() == 0,
    ensures
        !is_entry(m[i]),
{
    lemma_joined_empty(m);
    lemma_blank_line(m[i]);
}

proof fn lemma_shorn_on_file(m: Seq<Seq<char>>, x: Seq<char>)
    ensures
        on_file(shorn(m), x) == on_file(m, x),
        active_on(shorn(m), x) == active_on(m, x),
{
    let t = shorn(m);
    if on_file(m, x) {
        let i = choose|i: int|
            0 <= i < m.len() && is_entry(#[trigger] m[i]) && entry_name(m[i]) == x;
        lemma_line_without_cr(m[i]);
        assert(is_entry(t[i]));
    }
    if on_file(t, x) {
        let i = choose|i: int|
            0 <= i < t.len() && is_entry(#[trigger] t[i]) && entry_name(t[i]) == x;
        lemma_line_without_cr(m[i]);
        assert(is_entry(m[i]));
    }
    if active_on(m, x) {
        let i = choose|i: int|
            0 <= i < m.len() && is_entry(#[trigger] m[i]) && !is_excluded(m[i]) && entry_name(m[i])
                == x;
        lemma_line_without_cr(m[i]);
        assert(is_entry(t[i]));
    }
    if active_on(t, x) {
        let i = choose|i: int|
            0 <= i < t.len() && is_entry(#[trigger] t[i]) && !is_excluded(t[i]) && entry_name(t[i])
                == x;
        lemma_line_without_cr(m[i]);
        assert(is_entry(m[i]));
    }
}

/// Where deletions are allowed and the harvest holds at least half as many names
/// as the file, whoever is not in the harvest goes: the name is not on file any
/// more, the scan does not visit it, and nothing is said to be withheld. Whoever
/// is in the harvest is on file.
pub proof fn law_unfollowed_names_go(
    text: Seq<char>,
    h: Seq<Seq<char>>,
    names: Seq<Seq<char>>,
    outcome: MergeOutcome,
    name: Seq<char>,
)
    requires
        is_harvest(h),
        is_everyone(names, lines_of(text)),
        names.len() <= 2 * h.len(),
        counts_merge(outcome, text, h, true),
    ensures
        on_file(lines_of(merged_text(text, h, true)), name) <==> h.contains(name),
        on_file(lines_of(text), name) && !h.contains(name) ==> !scanned(
            merged_text(text, h, true),
        ).contains(name),
        !outcome.deletions_skipped,
{
    let ls = lines_of(text);
    lemma_deletes_by_count(ls, h, true, names);
    law_merge_decides_each_name(ls, h, true, name);
    lemma_written_says_the_same(text, h, true, name);
    if on_file(ls, name) && !h.contains(name) {
        law_merged_file_is_scanned(text, h, true);
        let left = remaining(scanned(text), h, true);
        let f = fresh(ls, h, h.len());
        lemma_remaining(scanned(text), h, true, name);
        let i = choose|i: int|
            0 <= i < ls.len() && is_entry(#[trigger] ls[i]) && entry_name(ls[i]) == name;
        assert(username_shaped(name));
        lemma_fresh(ls, h, h.len());
        if (left + f).contains(name) {
            let k = choose|k: int| 0 <= k < (left + f).len() && (left + f)[k] == name;
            if k < left.len() {
                assert(left.contains(left[k]));
            } else {
                assert(!on_file(ls, f[k - left.len()]));
            }
            assert(false);
        }
    }
}

/// Where deletions are not allowed, or the harvest holds fewer than half as many
/// names as the file, nobody goes, nobody counts as removed, and that deletions
/// were withheld is said.
pub proof fn law_withheld_deletions_keep_everyone(
    text: Seq<char>,
    h: Seq<Seq<char>>,
    allow_deletes: bool,
    names: Seq<Seq<char>>,
    outcome: MergeOutcome,
    name: Seq<char>,
)
    requires
        is_harvest(h),
        is_everyone(names, lines_of(text)),
        !allow_deletes || names.len() > 2 * h.len(),
        counts_merge(outcome, text, h, allow_deletes),
    ensures
        on_file(lines_of(merged_text(text, h, allow_deletes)), name) <==> (on_file(
            lines_of(text),
            name,
        ) || h.contains(name)),
        on_file(lines_of(text), name) ==> active_on(
            lines_of(merged_text(text, h, allow_deletes)),
            name,
        ) == active_on(lines_of(text), name),
        outcome.deletions_skipped,
        outcome.removed == 0,
{
    let ls = lines_of(text);
    lemma_deletes_by_count(ls, h, allow_deletes, names);
    law_merge_decides_each_name(ls, h, allow_deletes, name);
    lemma_written_says_the_same(text, h, allow_deletes, name);
    lemma_nothing_dropped(ls, h, false, ls.len());
}

/// Whoever is newly followed is scanned from then on; whoever stays is scanned
/// exactly when it was.
pub proof fn law_newcomers_are_scanned(
    text: Seq<char>,
    h: Seq<Seq<char>>,
    allow_deletes: bool,
    name: Seq<char>,
)
    requires
        is_harvest(h),
        h.contains(name),
    ensures
        on_file(lines_of(merged_text(text, h, allow_deletes)), name),
        active_on(lines_of(merged_text(text, h, allow_deletes)), name) <==> (active_on(
            lines_of(text),
            name,
        ) || !on_file(lines_of(text), name)),
{
    law_merge_decides_each_name(lines_of(text), h, allow_deletes, name);
    lemma_written_says_the_same(text, h, allow_deletes, name);
}

// --- counting ------------------------------------------------------------------------

proof fn lemma_two_speakers(ls: Seq<Seq<char>>, i: int, j: int)
    requires
        0 <= i < j < ls.len(),
        speaks(ls, i),
        speaks(ls, j),
    ensures
        entry_name(ls[i]) != entry_name(ls[j]),
{
    if entry_name(ls[i]) == entry_name(ls[j]) {
        assert(is_entry(ls[i]) && !shadowed(ls, i));
        assert(settled(ls, j, entry_name(ls[j])));
    }
}

proof fn lemma_dropped_names(ls: Seq<Seq<char>>, h: Seq<Seq<char>>, d: bool, n: nat) -> (names: Seq<
    Seq<char>,
>)
    requires
        n <= ls.len(),
    ensures
        names.no_duplicates(),
        names.len() == dropped_count(ls, h, d, n),
        forall|x: Seq<char>| #[trigger]
            names.contains(x) <==> exists|i: int|
                0 <= i < n && dropped(ls, h, d, i) && entry_name(#[trigger] ls[i]) == x,
    decreases n,
{
    if n == 0 {
        Seq::empty()
    } else {
        let before = lemma_dropped_names(ls, h, d, (n - 1) as nat);
        if dropped(ls, h, d, n - 1) {
            let this = entry_name(ls[n - 1]);
            if before.contains(this) {
                let i = choose|i: int|
                    0 <= i < n - 1 && dropped(ls, h, d, i) && entry_name(#[trigger] ls[i]) == this;
                lemma_two_speakers(ls, i, n - 1);
            }
            let names = before.push(this);
            assert forall|x: Seq<char>| #[trigger] names.contains(x) <==> exists|i: int|
                0 <= i < n && dropped(ls, h, d, i) && entry_name(#[trigger] ls[i]) == x by {
                lemma_push_contains(before, this, x);
                if before.contains(x) {
                    let i = choose|i: int|
                        0 <= i < n - 1 && dropped(ls, h, d, i) && entry_name(#[trigger] ls[i]) == x;
                    assert(entry_name(ls[i]) == x);
                }
                if x == this {
                    assert(entry_name(ls[n - 1]) == x);
                }
            }
            names
        } else {
            assert forall|x: Seq<char>| #[trigger] before.contains(x) <==> exists|i: int|
                0 <= i < n && dropped(ls, h, d, i) && entry_name(#[trigger] ls[i]) == x by {
                if before.contains(x) {
                    let i = choose|i: int|
                        0 <= i < n - 1 && dropped(ls, h, d, i) && entry_name(#[trigger] ls[i]) == x;
                    assert(entry_name(ls[i]) == x);
                }
            }
            before
        }
    }
}

/// Whether line `i` is an exclusion that stays.
spec fn quiet(ls: Seq<Seq<char>>, h: Seq<Seq<char>>, d: bool, i: int) -> bool {
    is_entry(ls[i]) && stays(ls, h, d, i) && is_excluded(ls[i])
}

proof fn lemma_quiet_names(ls: Seq<Seq<char>>, h: Seq<Seq<char>>, d: bool, n: nat) -> (names: Seq<
    Seq<char>,
>)
    requires
        n <= ls.len(),
    ensures
        names.no_duplicates(),
        names.len() == excluded_count(ls, h, d, n),
        forall|x: Seq<char>| #[trigger]
            names.contains(x) <==> exists|i: int|
                0 <= i < n && quiet(ls, h, d, i) && entry_name(#[trigger] ls[i]) == x,
    decreases n,
{
    if n == 0 {
        Seq::empty()
    } else {
        let before = lemma_quiet_names(ls, h, d, (n - 1) as nat);
        if quiet(ls, h, d, n - 1) {
            let this = entry_name(ls[n - 1]);
            if before.contains(this) {
                let i = choose|i: int|
                    0 <= i < n - 1 && quiet(ls, h, d, i) && entry_name(#[trigger] ls[i]) == this;
                lemma_two_speakers(ls, i, n - 1);
            }
            let names = before.push(this);
            assert forall|x: Seq<char>| #[trigger] names.contains(x) <==> exists|i: int|
                0 <= i < n && quiet(ls, h, d, i) && entry_name(#[trigger] ls[i]) == x by {
                lemma_push_contains(before, this, x);
                if before.contains(x) {
                    let i = choose|i: int|
                        0 <= i < n - 1 && quiet(ls, h, d, i) && entry_name(#[trigger] ls[i]) == x;
                    assert(entry_name(ls[i]) == x);
                }
                if x == this {
                    assert(entry_name(ls[n - 1]) == x);
                }
            }
            names
        } else {
            assert forall|x: Seq<char>| #[trigger] before.contains(x) <==> exists|i: int|
                0 <= i < n && quiet(ls, h, d, i) && entry_name(#[trigger] ls[i]) == x by {
                if before.contains(x) {
                    let i = choose|i: int|
                        0 <= i < n - 1 && quiet(ls, h, d, i) && entry_name(#[trigger] ls[i]) == x;
                    assert(entry_name(ls[i]) == x);
                }
            }
            before
        }
    }
}

/// A merge counts what it did: as removed everyone who was on file and is not
/// any more, as added everyone who was not and is, as excluded everyone who is
/// on file only behind a comment sign, and as active everyone whom the scan
/// visits from then on.
pub proof fn law_merge_counts_what_it_did(
    text: Seq<char>,
    h: Seq<Seq<char>>,
    allow_deletes: bool,
    outcome: MergeOutcome,
    gone: Seq<Seq<char>>,
    come: Seq<Seq<char>>,
    quiet_names: Seq<Seq<char>>,
)
    requires
        is_harvest(h),
        counts_merge(outcome, text, h, allow_deletes),
        gone.no_duplicates(),
        come.no_duplicates(),
        quiet_names.no_duplicates(),
        forall|x: Seq<char>| #[trigger]
            gone.contains(x) <==> on_file(lines_of(text), x) && !on_file(
                lines_of(merged_text(text, h, allow_deletes)),
                x,
            ),
        forall|x: Seq<char>| #[trigger]
            come.contains(x) <==> !on_file(lines_of(text), x) && on_file(
                lines_of(merged_text(text, h, allow_deletes)),
                x,
            ),
        forall|x: Seq<char>| #[trigger]
            quiet_names.contains(x) <==> on_file(
                lines_of(merged_text(text, h, allow_deletes)),
                x,
            ) && !active_on(lines_of(merged_text(text, h, allow_deletes)), x),
    ensures
        outcome.removed == gone.len(),
        outcome.added == come.len(),
        outcome.excluded == quiet_names.len(),
        outcome.active == scanned(merged_text(text, h, allow_deletes)).len(),
{
    let ls = lines_of(text);
    let d = deletes_on(ls, h, allow_deletes);
    let f = fresh(ls, h, h.len());
    let dropped_names = lemma_dropped_names(ls, h, d, ls.len());
    let kept_quiet = lemma_quiet_names(ls, h, d, ls.len());
    lemma_fresh(ls, h, h.len());
    assert forall|x: Seq<char>| dropped_names.contains(x) == #[trigger] gone.contains(x)
        && f.contains(x) == come.contains(x) && kept_quiet.contains(x)
        == quiet_names.contains(x) by {
        law_merge_decides_each_name(ls, h, allow_deletes, x);
        lemma_written_says_the_same(text, h, allow_deletes, x);
        if on_file(ls, x) {
            let i = lemma_file_speaker(ls, x);
            if d && !h.contains(x) {
                assert(dropped(ls, h, d, i) && entry_name(ls[i]) == x);
            }
            if (!d || h.contains(x)) && !active_on(ls, x) {
                assert(quiet(ls, h, d, i) && entry_name(ls[i]) == x);
            }
        }
        if dropped_names.contains(x) {
            let i = choose|i: int|
                0 <= i < ls.len() && dropped(ls, h, d, i) && entry_name(#[trigger] ls[i]) == x;
            assert(is_entry(ls[i]));
            assert(on_file(ls, x));
        }
        if kept_quiet.contains(x) {
            let i = choose|i: int|
                0 <= i < ls.len() && quiet(ls, h, d, i) && entry_name(#[trigger] ls[i]) == x;
            assert(is_entry(ls[i]));
            assert(on_file(ls, x));
            assert(!shadowed(ls, i));
        }
        if f.contains(x) {
            let k = choose|k: int| 0 <= k < f.len() && f[k] == x;
            assert(!on_file(ls, f[k]));
            assert(h.take(h.len() as int) =~= h);
            assert(h.contains(f[k]));
        }
        if h.contains(x) && !on_file(ls, x) {
            let k = choose|k: int| 0 <= k < h.len() && h[k] == x;
            assert(f.contains(h[k]));
        }
    }
    assert forall|x: Seq<char>| #[trigger] dropped_names.contains(x) implies gone.contains(x) by {
        assert(dropped_names.contains(x) == gone.contains(x));
    }
    lemma_same_length(dropped_names, gone);
    assert forall|x: Seq<char>| #[trigger] f.contains(x) <==> come.contains(x) by {
        assert(dropped_names.contains(x) == gone.contains(x));
    }
    lemma_same_length(f, come);
    assert forall|x: Seq<char>| #[trigger]
        kept_quiet.contains(x) <==> quiet_names.contains(x) by {
        assert(dropped_names.contains(x) == gone.contains(x));
    }
    lemma_same_length(kept_quiet, quiet_names);
}

// --- which lines are written ---------------------------------------------------------

proof fn lemma_kept_places(ls: Seq<Seq<char>>, h: Seq<Seq<char>>, d: bool, n: nat) -> (at: Seq<int>)
    requires
        n <= ls.len(),
    ensures
        rising(at, n),
        kept(ls, h, d, n) == Seq::new(at.len(), |k: int| ls[at[k]]),
        forall|i: int| 0 <= i < n ==> (#[trigger] at.contains(i) <==> stays(ls, h, d, i)),
    decreases n,
{
    if n == 0 {
        let at = Seq::<int>::empty();
        assert(kept(ls, h, d, 0) =~= Seq::new(at.len(), |k: int| ls[at[k]]));
        at
    } else {
        let before = lemma_kept_places(ls, h, d, (n - 1) as nat);
        lemma_rising_push(before, (n - 1) as nat);
        let at = if stays(ls, h, d, n - 1) {
            before.push(n - 1)
        } else {
            before
        };
        assert(kept(ls, h, d, n) =~= Seq::new(at.len(), |k: int| ls[at[k]]));
        assert forall|i: int| 0 <= i < n implies (#[trigger] at.contains(i) <==> stays(
            ls,
            h,
            d,
            i,
        )) by {
            if before.contains(i) {
                let k = choose|k: int| 0 <= k < before.len() && before[k] == i;
                assert(at[k] == i);
            }
            if i == n - 1 {
                if stays(ls, h, d, i) {
                    assert(at[before.len() as int] == i);
                } else if at.contains(i) {
                    let k = choose|k: int| 0 <= k < before.len() && before[k] == i;
                    assert(before[k] < n - 1);
                }
            } else if at.contains(i) {
                let k = choose|k: int| 0 <= k < at.len() && at[k] == i;
                if k < before.len() {
                    assert(before[k] == i);
                }
                assert(before.contains(i));
            }
        }
        at
    }
}

proof fn lemma_fresh_places(ls: Seq<Seq<char>>, h: Seq<Seq<char>>, n: nat) -> (at: Seq<int>)
    requires
        n <= h.len(),
    ensures
        rising(at, n),
        fresh(ls, h, n) == Seq::new(at.len(), |k: int| h[at[k]]),
        forall|i: int| 0 <= i < n ==> (#[trigger] at.contains(i) <==> !on_file(ls, h[i])),
    decreases n,
{
    if n == 0 {
        let at = Seq::<int>::empty();
        assert(fresh(ls, h, 0) =~= Seq::new(at.len(), |k: int| h[at[k]]));
        at
    } else {
        let before = lemma_fresh_places(ls, h, (n - 1) as nat);
        lemma_rising_push(before, (n - 1) as nat);
        let at = if on_file(ls, h[n - 1]) {
            before
        } else {
            before.push(n - 1)
        };
        assert(fresh(ls, h, n) =~= Seq::new(at.len(), |k: int| h[at[k]]));
        assert forall|i: int| 0 <= i < n implies (#[trigger] at.contains(i) <==> !on_file(
            ls,
            h[i],
        )) by {
            if before.contains(i) {
                let k = choose|k: int| 0 <= k < before.len() && before[k] == i;
                assert(at[k] == i);
            }
            if i == n - 1 {
                if !on_file(ls, h[i]) {
                    assert(at[before.len() as int] == i);
                } else if at.contains(i) {
                    let k = choose|k: int| 0 <= k < before.len() && before[k] == i;
                    assert(before[k] < n - 1);
                }
            } else if at.contains(i) {
                let k = choose|k: int| 0 <= k < at.len() && at[k] == i;
                if k < before.len() {
                    assert(before[k] == i);
                }
                assert(before.contains(i));
            }
        }
        at
    }
}

/// Whether line `i` is the first uncommented one about its name, or the first of
/// all where every one is commented out.
pub open spec fn comes_first(ls: Seq<Seq<char>>, i: int) -> bool {
    if active_on(ls, entry_name(ls[i])) {
        !is_excluded(ls[i]) && forall|j: int|
            0 <= j < i && is_entry(#[trigger] ls[j]) && entry_name(ls[j]) == entry_name(ls[i])
                ==> is_excluded(ls[j])
    } else {
        forall|j: int|
            0 <= j < i && is_entry(#[trigger] ls[j]) ==> entry_name(ls[j]) != entry_name(ls[i])
    }
}

/// A merge writes lines of the file back as they stand and in their order, and
/// then names of the harvest in theirs: of the file every line that is about no
/// one name, and for each name that stays the line that comes first; of the
/// harvest every name that was not on file.
pub proof fn law_merge_writes_lines_back_as_they_stand(
    ls: Seq<Seq<char>>,
    h: Seq<Seq<char>>,
    allow_deletes: bool,
) -> (at: (Seq<int>, Seq<int>))
    requires
        is_harvest(h),
    ensures
        rising(at.0, ls.len()),
        rising(at.1, h.len()),
        merged_lines(ls, h, allow_deletes) == Seq::new(at.0.len(), |k: int| ls[at.0[k]])
            + Seq::new(at.1.len(), |k: int| h[at.1[k]]),
        forall|i: int|
            0 <= i < ls.len() ==> (#[trigger] at.0.contains(i) <==> (is_entry(ls[i]) ==> comes_first(
                ls,
                i,
            ) && on_file(merged_lines(ls, h, allow_deletes), entry_name(ls[i])))),
        forall|i: int| 0 <= i < h.len() ==> (#[trigger] at.1.contains(i) <==> !on_file(ls, h[i])),
{
    let d = deletes_on(ls, h, allow_deletes);
    let at = lemma_kept_places(ls, h, d, ls.len());
    let new = lemma_fresh_places(ls, h, h.len());
    assert forall|i: int| 0 <= i < ls.len() implies (#[trigger] at.contains(i) <==> (is_entry(ls[i])
        ==> comes_first(ls, i) && on_file(
        merged_lines(ls, h, allow_deletes),
        entry_name(ls[i]),
    ))) by {
        if is_entry(ls[i]) {
            let x = entry_name(ls[i]);
            assert(on_file(ls, x));
            law_merge_decides_each_name(ls, h, allow_deletes, x);
            lemma_speaks_first(ls, i);
        }
    }
    (at, new)
}

proof fn lemma_speaks_first(ls: Seq<Seq<char>>, i: int)
    requires
        0 <= i < ls.len(),
        is_entry(ls[i]),
    ensures
        speaks(ls, i) <==> comes_first(ls, i),
{
    let x = entry_name(ls[i]);
    if settled(ls, i, x) {
        let j = choose|j: int|
            0 <= j < i && is_entry(#[trigger] ls[j]) && !shadowed(ls, j) && entry_name(ls[j]) == x;
        assert(is_entry(ls[j]));
    }
    if speaks(ls, i) {
        assert forall|j: int|
            0 <= j < i && is_entry(#[trigger] ls[j]) && entry_name(ls[j]) == x implies active_on(
            ls,
            x,
        ) && is_excluded(ls[j]) by {
            assert(shadowed(ls, j));
        }
        if active_on(ls, x) {
            assert(!is_excluded(ls[i]));
        }
    }
}

/// A line is read for what it is: as an entry for its name where it has one, by
/// itself or behind a `#`, and it is kept as it stands either way.
pub proof fn law_lines_are_read_for_what_they_are(
    line: Line,
    a: Seq<char>,
    b: Seq<char>,
    c: Seq<char>,
    name: Seq<char>,
)
    requires
        username_shaped(name),
        is_blank(a),
        is_blank(b),
        is_blank(c),
    ensures
        reads(line, a + name + c) ==> (line matches Line::Entry { name: read, excluded, raw }
            && read@ == name && !excluded && raw@ == a + name + c),
        reads(line, a + (seq!['#'] + b + name) + c) ==> (line matches Line::Entry {
            name: read,
            excluded,
            raw,
        } && read@ == name && excluded && raw@ == a + (seq!['#'] + b + name) + c),
{
    law_usernames_make_entries(a, b, c, name);
}

/// A line that is no entry is kept as it stands.
pub proof fn law_other_lines_are_kept(line: Line, raw: Seq<char>)
    requires
        reads(line, raw),
    ensures
        line is Entry <==> is_entry(raw),
        line matches Line::Entry { name, excluded, raw: kept } ==> kept@ == raw && name@
            == entry_name(raw) && excluded == is_excluded(raw),
        line matches Line::Other(kept) ==> kept@ == raw,
{
}

} // verus!
