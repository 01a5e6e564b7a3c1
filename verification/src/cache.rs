//! The follows list: a plain text file, one username per line, that a person
//! or a tool may edit.
//!
//! Blank lines and `#` comments are not scanned; a leading `@` and white space
//! around a name are not part of it. A commented-out username is an
//! *exclusion*: still followed, deliberately not scanned. A merge carries it
//! across a harvest, so the file is the durable record of whom to scan.
//!
//! A comment is read as an exclusion when all it holds is one token in the
//! shape of a username; any other comment is prose and is kept as it stands.

use crate::text::{
    file_text, holds, is_ascii_digit, lines, starts_with, strip_lead, trim,
};
use vstd::prelude::*;

verus! {

use crate::merge_laws::{is_everyone, law_cleaned_is_a_harvest, law_unfollowed_names_go};
use crate::text::{
    file_of, is_digit, leads, lines_of, lists, texts, trimmed, without_lead,
};

/// Usernames are at most this many characters of `[A-Za-z0-9._]`.
pub const MAX_USERNAME_LEN: usize = 30;

// --- one line ----------------------------------------------------------------------

/// One line of the follows file.
#[derive(Debug)]
pub enum Line {
    /// A lone username, commented out or not. `raw` is the line as it stands.
    Entry { name: String, excluded: bool, raw: String },
    /// Any other line: blank, or prose.
    Other(String),
}

pub open spec fn is_username_char(c: char) -> bool {
    ||| is_digit(c)
    ||| 'A' as u32 <= c as u32 <= 'Z' as u32
    ||| 'a' as u32 <= c as u32 <= 'z' as u32
    ||| c == '.'
    ||| c == '_'
}

/// Whether a text has the shape of a username.
pub open spec fn username_shaped(s: Seq<char>) -> bool {
    &&& 0 < s.len() <= MAX_USERNAME_LEN
    &&& forall|i: int| 0 <= i < s.len() ==> is_username_char(#[trigger] s[i])
}

/// Whether a line is commented out.
pub open spec fn is_excluded(raw: Seq<char>) -> bool {
    leads(trimmed(raw), '#')
}

/// What a line says once white space and a comment sign are off.
pub open spec fn line_body(raw: Seq<char>) -> Seq<char> {
    if is_excluded(raw) {
        trimmed(trimmed(raw).drop_first())
    } else {
        trimmed(raw)
    }
}

/// The name that a line is about.
pub open spec fn entry_name(raw: Seq<char>) -> Seq<char> {
    trimmed(without_lead(line_body(raw), '@'))
}

/// Whether a line is about one username and nothing else.
pub open spec fn is_entry(raw: Seq<char>) -> bool {
    username_shaped(entry_name(raw))
}

/// `line` is the reading of the line `raw`.
pub open spec fn reads(line: Line, raw: Seq<char>) -> bool {
    match line {
        Line::Entry { name, excluded, raw: kept } => {
            &&& is_entry(raw)
            &&& name@ == entry_name(raw)
            &&& excluded == is_excluded(raw)
            &&& kept@ == raw
        },
        Line::Other(kept) => !is_entry(raw) && kept@ == raw,
    }
}

pub fn is_username(s: &str) -> (r: bool)
    ensures
        r == username_shaped(s@),
{
    let n: usize = s.unicode_len();
    if n == 0 || n > MAX_USERNAME_LEN {
        return false;
    }
    let mut i: usize = 0;
    while i < n
        invariant
            0 <= i <= n == s@.len(),
            forall|j: int| 0 <= j < i ==> is_username_char(#[trigger] s@[j]),
        decreases n - i,
    {
        let c = s.get_char(i);
        let u: u32 = c as u32;
        let fits = is_ascii_digit(c) || (0x41 <= u && u <= 0x5a) || (0x61 <= u && u <= 0x7a) || c
            == '.' || c == '_';
        if !fits {
            assert(!is_username_char(s@[i as int]));
            return false;
        }
        i += 1;
    }
    true
}

/// Reads one line. Whatever is not a lone username is `Other`.
pub fn parse_line(raw: &str) -> (r: Line)
    ensures
        reads(r, raw@),
{
    let all = trim(raw);
    if all.is_empty() {
        assert(trimmed(Seq::<char>::empty()) =~= Seq::<char>::empty());
        assert(all@ =~= Seq::<char>::empty());
        return Line::Other(raw.to_owned());
    }
    let excluded = starts_with(all, '#');
    let body = if excluded {
        trim(strip_lead(all, '#'))
    } else {
        all
    };
    let name = trim(strip_lead(body, '@'));
    if is_username(name) {
        Line::Entry { name: name.to_owned(), excluded, raw: raw.to_owned() }
    } else {
        Line::Other(raw.to_owned())
    }
}

// --- lists of names ------------------------------------------------------------------

/// The members of `s` where each first stands.
pub open spec fn distinct(s: Seq<Seq<char>>) -> Seq<Seq<char>>
    decreases s.len(),
{
    if s.len() == 0 {
        s
    } else {
        let before = distinct(s.drop_last());
        if before.contains(s.last()) {
            before
        } else {
            before.push(s.last())
        }
    }
}

/// Whether the scan takes a name from a line, and which.
pub open spec fn scan_name(raw: Seq<char>) -> Option<Seq<char>> {
    if is_excluded(raw) || entry_name(raw).len() == 0 {
        None
    } else {
        Some(entry_name(raw))
    }
}

/// The names that the scan takes from lines, in order, repeats included.
pub open spec fn scan_names(ls: Seq<Seq<char>>) -> Seq<Seq<char>>
    decreases ls.len(),
{
    if ls.len() == 0 {
        Seq::empty()
    } else {
        match scan_name(ls.last()) {
            Some(name) => scan_names(ls.drop_last()).push(name),
            None => scan_names(ls.drop_last()),
        }
    }
}

/// Whom the scan visits, by the text of a follows file.
pub open spec fn scanned(text: Seq<char>) -> Seq<Seq<char>> {
    distinct(scan_names(lines_of(text)))
}

/// The usernames in a harvest, in order, repeats included: white space and one
/// leading `@` come off, and what then has not the shape of a username is
/// left out.
pub open spec fn harvest_names(list: Seq<Seq<char>>) -> Seq<Seq<char>>
    decreases list.len(),
{
    if list.len() == 0 {
        Seq::empty()
    } else {
        let name = trimmed(without_lead(trimmed(list.last()), '@'));
        if username_shaped(name) {
            harvest_names(list.drop_last()).push(name)
        } else {
            harvest_names(list.drop_last())
        }
    }
}

/// The usernames in a harvest, each once.
pub open spec fn cleaned(list: Seq<Seq<char>>) -> Seq<Seq<char>> {
    distinct(harvest_names(list))
}

/// `list` holds `name` just when its texts do.
pub proof fn lemma_lists_texts(list: Seq<String>, name: Seq<char>)
    ensures
        lists(list, name) == texts(list).contains(name),
{
    if lists(list, name) {
        let i = choose|i: int| 0 <= i < list.len() && (#[trigger] list[i])@ == name;
        assert(texts(list)[i] == name);
    }
    if texts(list).contains(name) {
        let i = choose|i: int| 0 <= i < texts(list).len() && texts(list)[i] == name;
        assert(list[i]@ == name);
    }
}

/// Adds `name` to a list of names, unless it is there.
fn push_distinct(list: &mut Vec<String>, name: &str)
    ensures
        texts(final(list)@) == (if texts(old(list)@).contains(name@) {
            texts(old(list)@)
        } else {
            texts(old(list)@).push(name@)
        }),
        forall|i: int|
            0 <= i < old(list)@.len() ==> i < final(list)@.len() && #[trigger] final(list)@[i]
                == old(list)@[i],
{
    let owned = name.to_owned();
    proof {
        lemma_lists_texts(list@, name@);
    }
    if !holds(list, &owned) {
        let ghost before = list@;
        list.push(owned);
        assert(texts(list@) =~= texts(before).push(name@));
    }
}

/// The names that a scan takes from a follows file: comments, blank lines and
/// repeats are passed over.
pub fn read_friends(text: &str) -> (r: Vec<String>)
    ensures
        texts(r@) == scanned(text@),
{
    let all = lines(text);
    let mut out: Vec<String> = Vec::new();
    let mut i: usize = 0;
    let ghost ls = lines_of(text@);
    assert(ls.take(0) =~= Seq::<Seq<char>>::empty());
    assert(texts(out@) =~= distinct(scan_names(ls.take(0))));
    while i < all.len()
        invariant
            0 <= i <= all@.len(),
            ls == texts(all@),
            texts(out@) == distinct(scan_names(ls.take(i as int))),
        decreases all@.len() - i,
    {
        let ghost next = ls.take(i + 1);
        assert(next.drop_last() =~= ls.take(i as int));
        assert(next.last() == all@[i as int]@);
        let line = trim(all[i].as_str());
        if !starts_with(line, '#') {
            let name = trim(strip_lead(line, '@'));
            if !name.is_empty() {
                let ghost names = scan_names(ls.take(i as int));
                assert(names.push(name@).drop_last() =~= names);
                push_distinct(&mut out, name);
            }
        }
        i += 1;
    }
    assert(ls.take(i as int) =~= ls);
    out
}

/// The usernames in a harvest, each once, in order.
pub fn clean(usernames: &[String]) -> (r: Vec<String>)
    ensures
        texts(r@) == cleaned(texts(usernames@)),
{
    let mut out: Vec<String> = Vec::new();
    let mut i: usize = 0;
    let ghost list = texts(usernames@);
    assert(list.take(0) =~= Seq::<Seq<char>>::empty());
    assert(texts(out@) =~= cleaned(list.take(0)));
    while i < usernames.len()
        invariant
            0 <= i <= usernames@.len(),
            list == texts(usernames@),
            texts(out@) == cleaned(list.take(i as int)),
        decreases usernames@.len() - i,
    {
        let ghost next = list.take(i + 1);
        assert(next.drop_last() =~= list.take(i as int));
        assert(next.last() == usernames@[i as int]@);
        let name = trim(strip_lead(trim(usernames[i].as_str()), '@'));
        if is_username(name) {
            let ghost names = harvest_names(list.take(i as int));
            assert(names.push(name@).drop_last() =~= names);
            push_distinct(&mut out, name);
        }
        i += 1;
    }
    assert(list.take(i as int) =~= list);
    out
}

// --- merging -------------------------------------------------------------------------

/// What a merge did.
#[derive(Debug, Default, PartialEq, Eq, Structural)]
pub struct MergeOutcome {
    /// New follows appended.
    pub added: usize,
    /// Entries dropped because the seed no longer follows them.
    pub removed: usize,
    /// Commented-out entries carried through untouched.
    pub excluded: usize,
    /// Usernames that the scan picks up afterwards.
    pub active: usize,
    /// Deletions were withheld.
    pub deletions_skipped: bool,
}

/// A harvest that returns fewer than half the entries on file is suspect even
/// when nothing reported an error: paging can end early without one.
pub fn shrank_suspiciously(harvest_len: usize, existing_entries: usize) -> (r: bool)
    ensures
        r == (harvest_len * 2 < existing_entries),
{
    harvest_len < existing_entries && harvest_len < existing_entries - harvest_len
}

/// Whether some line is about `name`.
pub open spec fn on_file(ls: Seq<Seq<char>>, name: Seq<char>) -> bool {
    exists|i: int| 0 <= i < ls.len() && is_entry(#[trigger] ls[i]) && entry_name(ls[i]) == name
}

/// Whether some uncommented line is about `name`.
pub open spec fn active_on(ls: Seq<Seq<char>>, name: Seq<char>) -> bool {
    exists|i: int|
        0 <= i < ls.len() && is_entry(#[trigger] ls[i]) && !is_excluded(ls[i]) && entry_name(ls[i])
            == name
}

/// Line `i` is a comment for a name that an uncommented line is about too.
pub open spec fn shadowed(ls: Seq<Seq<char>>, i: int) -> bool {
    is_excluded(ls[i]) && active_on(ls, entry_name(ls[i]))
}

/// Whether one of the first `n` lines settles whether `name` is scanned.
pub open spec fn settled(ls: Seq<Seq<char>>, n: int, name: Seq<char>) -> bool {
    exists|j: int|
        0 <= j < n && is_entry(#[trigger] ls[j]) && !shadowed(ls, j) && entry_name(ls[j]) == name
}

/// Line `i` is the one that speaks for its name: the first uncommented one
/// where there is one, else the first comment.
pub open spec fn speaks(ls: Seq<Seq<char>>, i: int) -> bool {
    is_entry(ls[i]) && !shadowed(ls, i) && !settled(ls, i, entry_name(ls[i]))
}

/// Line `i` goes: the harvest no longer holds its name, and deletions are on.
pub open spec fn dropped(
    ls: Seq<Seq<char>>,
    harvest: Seq<Seq<char>>,
    deletes: bool,
    i: int,
) -> bool {
    speaks(ls, i) && deletes && !harvest.contains(entry_name(ls[i]))
}

/// Line `i` is written back: prose always, and of the lines about one name the
/// one that speaks for it, unless it is dropped.
pub open spec fn stays(
    ls: Seq<Seq<char>>,
    harvest: Seq<Seq<char>>,
    deletes: bool,
    i: int,
) -> bool {
    !is_entry(ls[i]) || (speaks(ls, i) && !dropped(ls, harvest, deletes, i))
}

/// The lines among the first `n` that stay.
pub open spec fn kept(
    ls: Seq<Seq<char>>,
    harvest: Seq<Seq<char>>,
    deletes: bool,
    n: nat,
) -> Seq<Seq<char>>
    decreases n,
{
    if n == 0 {
        Seq::empty()
    } else {
        let before = kept(ls, harvest, deletes, (n - 1) as nat);
        if stays(ls, harvest, deletes, n - 1) {
            before.push(ls[n - 1])
        } else {
            before
        }
    }
}

/// How many of the first `n` lines are dropped.
pub open spec fn dropped_count(
    ls: Seq<Seq<char>>,
    harvest: Seq<Seq<char>>,
    deletes: bool,
    n: nat,
) -> nat
    decreases n,
{
    if n == 0 {
        0
    } else {
        dropped_count(ls, harvest, deletes, (n - 1) as nat) + (if dropped(
            ls,
            harvest,
            deletes,
            n - 1,
        ) {
            1nat
        } else {
            0
        })
    }
}

/// How many of the first `n` lines are exclusions that stay.
pub open spec fn excluded_count(
    ls: Seq<Seq<char>>,
    harvest: Seq<Seq<char>>,
    deletes: bool,
    n: nat,
) -> nat
    decreases n,
{
    if n == 0 {
        0
    } else {
        excluded_count(ls, harvest, deletes, (n - 1) as nat) + (if is_entry(ls[n - 1]) && stays(
            ls,
            harvest,
            deletes,
            n - 1,
        ) && is_excluded(ls[n - 1]) {
            1nat
        } else {
            0
        })
    }
}

/// The names among the first `n` of the harvest that no line is about.
pub open spec fn fresh(ls: Seq<Seq<char>>, harvest: Seq<Seq<char>>, n: nat) -> Seq<Seq<char>>
    decreases n,
{
    if n == 0 {
        Seq::empty()
    } else {
        let before = fresh(ls, harvest, (n - 1) as nat);
        if on_file(ls, harvest[n - 1]) {
            before
        } else {
            before.push(harvest[n - 1])
        }
    }
}

/// The names that lines are about, repeats included.
pub open spec fn names_on(ls: Seq<Seq<char>>) -> Seq<Seq<char>>
    decreases ls.len(),
{
    if ls.len() == 0 {
        Seq::empty()
    } else if is_entry(ls.last()) {
        names_on(ls.drop_last()).push(entry_name(ls.last()))
    } else {
        names_on(ls.drop_last())
    }
}

/// Whether a merge deletes: only where the caller allows it, and the harvest
/// holds at least half as many names as the file.
pub open spec fn deletes_on(
    ls: Seq<Seq<char>>,
    harvest: Seq<Seq<char>>,
    allow_deletes: bool,
) -> bool {
    allow_deletes && !(harvest.len() * 2 < distinct(names_on(ls)).len())
}

/// The lines that a merge writes.
pub open spec fn merged_lines(
    ls: Seq<Seq<char>>,
    harvest: Seq<Seq<char>>,
    allow_deletes: bool,
) -> Seq<Seq<char>> {
    kept(ls, harvest, deletes_on(ls, harvest, allow_deletes), ls.len()) + fresh(
        ls,
        harvest,
        harvest.len(),
    )
}

/// The file that a merge writes, from the file as it was and a cleaned harvest.
pub open spec fn merged_text(
    text: Seq<char>,
    harvest: Seq<Seq<char>>,
    allow_deletes: bool,
) -> Seq<char> {
    file_of(merged_lines(lines_of(text), harvest, allow_deletes))
}

/// `outcome` counts what the merge did.
pub open spec fn counts_merge(
    outcome: MergeOutcome,
    text: Seq<char>,
    harvest: Seq<Seq<char>>,
    allow_deletes: bool,
) -> bool {
    let ls = lines_of(text);
    let deletes = deletes_on(ls, harvest, allow_deletes);
    let added = fresh(ls, harvest, harvest.len()).len();
    &&& outcome.deletions_skipped == !deletes
    &&& outcome.added == added
    &&& outcome.removed == dropped_count(ls, harvest, deletes, ls.len())
    &&& outcome.excluded == excluded_count(ls, harvest, deletes, ls.len())
    &&& outcome.active == scanned(merged_text(text, harvest, allow_deletes)).len()
}

proof fn lemma_settled_is_on_file(ls: Seq<Seq<char>>, name: Seq<char>)
    ensures
        settled(ls, ls.len() as int, name) == on_file(ls, name),
{
    if on_file(ls, name) {
        let i = choose|i: int|
            0 <= i < ls.len() && is_entry(#[trigger] ls[i]) && entry_name(ls[i]) == name;
        if shadowed(ls, i) {
            let k = choose|k: int|
                0 <= k < ls.len() && is_entry(#[trigger] ls[k]) && !is_excluded(ls[k])
                    && entry_name(ls[k]) == name;
            assert(is_entry(ls[k]) && !shadowed(ls, k));
        } else {
            assert(is_entry(ls[i]) && !shadowed(ls, i));
        }
    }
}

/// The names that uncommented lines are about.
fn active_names(parsed: &Vec<Line>, Ghost(ls): Ghost<Seq<Seq<char>>>) -> (r: Vec<String>)
    requires
        parsed@.len() == ls.len(),
        forall|i: int| 0 <= i < ls.len() ==> reads(#[trigger] parsed@[i], ls[i]),
    ensures
        forall|name: Seq<char>| #[trigger] lists(r@, name) == active_on(ls, name),
{
    let mut out: Vec<String> = Vec::new();
    let mut i: usize = 0;
    while i < parsed.len()
        invariant
            0 <= i <= parsed@.len() == ls.len(),
            forall|j: int| 0 <= j < ls.len() ==> reads(#[trigger] parsed@[j], ls[j]),
            forall|j: int|
                0 <= j < i && is_entry(#[trigger] ls[j]) && !is_excluded(ls[j]) ==> lists(
                    out@,
                    entry_name(ls[j]),
                ),
            forall|k: int| 0 <= k < out@.len() ==> active_on(ls, (#[trigger] out@[k])@),
        decreases parsed@.len() - i,
    {
        assert(reads(parsed@[i as int], ls[i as int]));
        if let Line::Entry { name, excluded, .. } = &parsed[i] {
            if !*excluded {
                let ghost before = out@;
                out.push(name.clone());
                assert(active_on(ls, name@)) by {
                    assert(is_entry(ls[i as int]));
                }
                assert forall|j: int|
                    0 <= j < i + 1 && is_entry(#[trigger] ls[j]) && !is_excluded(ls[j]) implies lists(
                    out@,
                    entry_name(ls[j]),
                ) by {
                    if j < i {
                        assert(lists(before, entry_name(ls[j])));
                        let k = choose|k: int|
                            0 <= k < before.len() && (#[trigger] before[k])@ == entry_name(ls[j]);
                        assert(out@[k]@ == entry_name(ls[j]));
                    } else {
                        assert(out@[out@.len() - 1]@ == entry_name(ls[j]));
                    }
                }
            }
        }
        i += 1;
    }
    assert forall|name: Seq<char>| #[trigger] lists(out@, name) == active_on(ls, name) by {
        if active_on(ls, name) {
            let j = choose|j: int|
                0 <= j < ls.len() && is_entry(#[trigger] ls[j]) && !is_excluded(ls[j])
                    && entry_name(ls[j]) == name;
            assert(lists(out@, entry_name(ls[j])));
        }
    }
    out
}

/// The names that lines are about, each once.
fn distinct_names(parsed: &Vec<Line>, Ghost(ls): Ghost<Seq<Seq<char>>>) -> (r: Vec<String>)
    requires
        parsed@.len() == ls.len(),
        forall|i: int| 0 <= i < ls.len() ==> reads(#[trigger] parsed@[i], ls[i]),
    ensures
        texts(r@) == distinct(names_on(ls)),
{
    let mut out: Vec<String> = Vec::new();
    let mut i: usize = 0;
    assert(ls.take(0) =~= Seq::<Seq<char>>::empty());
    assert(texts(out@) =~= distinct(names_on(ls.take(0))));
    while i < parsed.len()
        invariant
            0 <= i <= parsed@.len() == ls.len(),
            forall|j: int| 0 <= j < ls.len() ==> reads(#[trigger] parsed@[j], ls[j]),
            texts(out@) == distinct(names_on(ls.take(i as int))),
        decreases parsed@.len() - i,
    {
        assert(ls.take(i + 1).drop_last() =~= ls.take(i as int));
        assert(ls.take(i + 1).last() == ls[i as int]);
        assert(reads(parsed@[i as int], ls[i as int]));
        if let Line::Entry { name, .. } = &parsed[i] {
            let ghost names = names_on(ls.take(i as int));
            assert(names.push(name@).drop_last() =~= names);
            push_distinct(&mut out, name.as_str());
        }
        i += 1;
    }
    assert(ls.take(i as int) =~= ls);
    out
}

/// Merges a freshly harvested list of follows into the text of the follows
/// file. Gives the text to write and what the merge did.
///
/// Entries on file are kept as they stand when the harvest still holds them,
/// so an exclusion stays an exclusion. Entries that the harvest lacks are
/// dropped. Harvested names that no line is about are appended.
///
/// `allow_deletes` must be false whenever the harvest may be cut short: absence
/// from a partial list is no evidence that anyone was unfollowed.
pub fn merge_friends(text: &str, harvested: &[String], allow_deletes: bool) -> (r: (
    String,
    MergeOutcome,
))
    ensures
        r.0@ == merged_text(text@, cleaned(texts(harvested@)), allow_deletes),
        counts_merge(r.1, text@, cleaned(texts(harvested@)), allow_deletes),
        forall|names: Seq<Seq<char>>, name: Seq<char>|
            allow_deletes && #[trigger] is_everyone(names, lines_of(text@)) && names.len() <= 2
                * cleaned(texts(harvested@)).len() ==> (#[trigger] on_file(lines_of(r.0@), name)
                <==> cleaned(texts(harvested@)).contains(name)),
{
    let raw_lines = lines(text);
    let ghost ls = lines_of(text@);
    let mut parsed: Vec<Line> = Vec::new();
    let mut i: usize = 0;
    while i < raw_lines.len()
        invariant
            0 <= i <= raw_lines@.len() == ls.len(),
            ls == texts(raw_lines@),
            parsed@.len() == i,
            forall|j: int| 0 <= j < i ==> reads(#[trigger] parsed@[j], ls[j]),
        decreases raw_lines@.len() - i,
    {
        parsed.push(parse_line(raw_lines[i].as_str()));
        i += 1;
    }
    let harvest = clean(harvested);
    let ghost h = cleaned(texts(harvested@));
    let active = active_names(&parsed, Ghost(ls));
    let names = distinct_names(&parsed, Ghost(ls));
    assert(texts(names@).len() == names@.len());
    assert(texts(harvest@).len() == harvest@.len());
    let deletes = allow_deletes && !shrank_suspiciously(harvest.len(), names.len());
    assert(deletes == deletes_on(ls, h, allow_deletes));

    let mut out: Vec<String> = Vec::new();
    let mut emitted: Vec<String> = Vec::new();
    let mut outcome = MergeOutcome {
        added: 0,
        removed: 0,
        excluded: 0,
        active: 0,
        deletions_skipped: !deletes,
    };
    let mut k: usize = 0;
    assert(texts(out@) =~= kept(ls, h, deletes, 0));
    while k < parsed.len()
        invariant
            0 <= k <= parsed@.len() == ls.len(),
            forall|j: int| 0 <= j < ls.len() ==> reads(#[trigger] parsed@[j], ls[j]),
            h == texts(harvest@),
            forall|name: Seq<char>| #[trigger] lists(active@, name) == active_on(ls, name),
            forall|name: Seq<char>| #[trigger] lists(emitted@, name) == settled(ls, k as int, name),
            texts(out@) == kept(ls, h, deletes, k as nat),
            outcome.deletions_skipped == !deletes,
            outcome.added == 0,
            outcome.removed == dropped_count(ls, h, deletes, k as nat) <= k,
            outcome.excluded == excluded_count(ls, h, deletes, k as nat) <= k,
        decreases parsed@.len() - k,
    {
        assert(reads(parsed@[k as int], ls[k as int]));
        let ghost before = out@;
        let ghost named = emitted@;
        let ghost this = entry_name(ls[k as int]);
        match &parsed[k] {
            Line::Other(raw) => {
                out.push(raw.clone());
                assert(texts(out@) =~= texts(before).push(ls[k as int]));
                assert forall|name: Seq<char>| #[trigger]
                    lists(emitted@, name) == settled(ls, k + 1, name) by {
                    assert(settled(ls, k as int, name) == settled(ls, k + 1, name));
                }
            },
            Line::Entry { name, excluded, raw } => {
                let silent = holds(&emitted, name) || (*excluded && holds(&active, name));
                assert(silent == !speaks(ls, k as int));
                if silent {
                    assert forall|other: Seq<char>| #[trigger]
                        lists(emitted@, other) == settled(ls, k + 1, other) by {
                        if settled(ls, k + 1, other) && !settled(ls, k as int, other) {
                            assert(is_entry(ls[k as int]) && !shadowed(ls, k as int) && this
                                == other);
                        }
                    }
                } else {
                    emitted.push(name.clone());
                    assert forall|other: Seq<char>| #[trigger]
                        lists(emitted@, other) == settled(ls, k + 1, other) by {
                        assert(emitted@[named.len() as int]@ == this);
                        if lists(named, other) {
                            let j = choose|j: int|
                                0 <= j < named.len() && (#[trigger] named[j])@ == other;
                            assert(emitted@[j]@ == other);
                        }
                        if lists(emitted@, other) && other != this {
                            let j = choose|j: int|
                                0 <= j < emitted@.len() && (#[trigger] emitted@[j])@ == other;
                            assert(named[j]@ == other);
                        }
                        if other == this {
                            assert(is_entry(ls[k as int]) && !shadowed(ls, k as int));
                        }
                    }
                    proof {
                        lemma_lists_texts(harvest@, name@);
                    }
                    if deletes && !holds(&harvest, name) {
                        outcome.removed += 1;
                    } else {
                        out.push(raw.clone());
                        assert(texts(out@) =~= texts(before).push(ls[k as int]));
                        if *excluded {
                            outcome.excluded += 1;
                        }
                    }
                }
            },
        }
        k += 1;
    }

    let mut m: usize = 0;
    let ghost base = texts(out@);
    assert(base + fresh(ls, h, 0) =~= base);
    while m < harvest.len()
        invariant
            0 <= m <= harvest@.len() == h.len(),
            h == texts(harvest@),
            forall|name: Seq<char>| #[trigger]
                lists(emitted@, name) == settled(ls, ls.len() as int, name),
            texts(out@) == base + fresh(ls, h, m as nat),
            base == kept(ls, h, deletes, ls.len()),
            outcome.added == fresh(ls, h, m as nat).len() <= m,
            outcome.deletions_skipped == !deletes,
            outcome.removed == dropped_count(ls, h, deletes, ls.len()),
            outcome.excluded == excluded_count(ls, h, deletes, ls.len()),
        decreases harvest@.len() - m,
    {
        proof {
            lemma_settled_is_on_file(ls, h[m as int]);
        }
        if !holds(&emitted, &harvest[m]) {
            let ghost before = out@;
            out.push(harvest[m].clone());
            assert(texts(out@) =~= texts(before).push(h[m as int]));
            assert(texts(out@) =~= base + fresh(ls, h, m as nat).push(h[m as int]));
            outcome.added += 1;
        }
        m += 1;
    }
    let body = file_text(&out);
    let scan = read_friends(body.as_str());
    assert(texts(scan@).len() == scan@.len());
    outcome.active = scan.len();
    proof {
        law_cleaned_is_a_harvest(texts(harvested@));
        assert forall|names: Seq<Seq<char>>, name: Seq<char>|
            allow_deletes && #[trigger] is_everyone(names, lines_of(text@)) && names.len() <= 2
                * h.len() implies (#[trigger] on_file(lines_of(body@), name) <==> h.contains(
            name,
        )) by {
            law_unfollowed_names_go(text@, h, names, outcome, name);
        }
    }
    (body, outcome)
}

} // verus!
