//! Searching with regular expressions.

use regex::Regex;
use vstd::prelude::*;

verus! {

/// A compiled regular expression.
#[verifier::external_type_specification]
#[verifier::external_body]
pub struct ExRegex(regex::Regex);

/// What is wrong with a regular expression.
#[verifier::external_type_specification]
#[verifier::external_body]
pub struct ExRegexError(regex::Error);

/// Whether `regex::Regex::new` takes the pattern.
pub uninterp spec fn regex_compiles(pattern: Seq<char>) -> bool;

/// The pattern that a regular expression was compiled from, which
/// `regex::Regex::as_str` gives back.
pub uninterp spec fn pattern_of(re: Regex) -> Seq<char>;

/// What `regex::Regex::captures` finds in a text with the regular expression of
/// a pattern: the texts of the groups of the leftmost match, if there is one.
/// The whole match is group 0, and a group that took no part in the match has
/// no text.
pub uninterp spec fn captures_of(pattern: Seq<char>, text: Seq<char>) -> Option<
    Seq<Option<Seq<char>>>,
>;

/// Calls `regex::Regex::new`: the result is a regular expression of the pattern
/// where the pattern can be compiled, and an error where it cannot.
#[verifier::external_body]
fn compile(pattern: &str) -> (r: Result<Regex, regex::Error>)
    ensures
        match r {
            Ok(re) => regex_compiles(pattern@) && pattern_of(re) == pattern@,
            Err(_) => !regex_compiles(pattern@),
        },
{
    Regex::new(pattern)
}

/// The texts of groups.
pub open spec fn group_texts(groups: Seq<Option<String>>) -> Seq<Option<Seq<char>>> {
    Seq::new(
        groups.len(),
        |i: int|
            match groups[i] {
                Some(s) => Some(s@),
                None => None,
            },
    )
}

/// Calls `regex::Regex::captures`: the result is what it finds, with the text
/// of each group copied.
#[verifier::external_body]
fn capture(re: &Regex, text: &str) -> (r: Option<Vec<Option<String>>>)
    ensures
        captures_of(pattern_of(*re), text@) == match r {
            Some(groups) => Some(group_texts(groups@)),
            None => None,
        },
{
    re.captures(text).map(
        |caps| caps.iter().map(|group| group.map(|m| m.as_str().to_string())).collect(),
    )
}

/// Whether a character means something other than itself in a pattern.
pub open spec fn is_special(c: char) -> bool {
    ||| c == '\\' || c == '.' || c == '+' || c == '*' || c == '?' || c == '(' || c == ')'
    ||| c == '|' || c == '[' || c == ']' || c == '{' || c == '}' || c == '^' || c == '$'
    ||| c == '#' || c == '&' || c == '-' || c == '~'
}

/// The pattern that matches a text itself: with a backslash before each special
/// character.
pub open spec fn literal_pattern(s: Seq<char>) -> Seq<char>
    decreases s.len(),
{
    if s.len() == 0 {
        s
    } else if is_special(s.last()) {
        literal_pattern(s.drop_last()).push('\\').push(s.last())
    } else {
        literal_pattern(s.drop_last()).push(s.last())
    }
}

/// Calls `regex::escape`: the result is the text with a backslash before each
/// special character.
#[verifier::external_body]
pub(crate) fn escape(s: &str) -> (r: String)
    ensures
        r@ == literal_pattern(s@),
{
    regex::escape(s)
}

/// The groups of the first match of a pattern in a text. A pattern that cannot
/// be compiled matches nothing.
pub open spec fn found(pattern: Seq<char>, text: Seq<char>) -> Option<Seq<Option<Seq<char>>>> {
    if regex_compiles(pattern) {
        captures_of(pattern, text)
    } else {
        None
    }
}

/// Looks for the first match of a pattern in a text.
pub fn find(pattern: &str, text: &str) -> (r: Option<Vec<Option<String>>>)
    ensures
        found(pattern@, text@) == match r {
            Some(groups) => Some(group_texts(groups@)),
            None => None,
        },
{
    match compile(pattern) {
        Ok(re) => capture(&re, text),
        Err(_) => None,
    }
}

/// The text of a group; none where the pattern has no such group.
pub open spec fn group_text(groups: Seq<Option<Seq<char>>>, i: int) -> Option<Seq<char>> {
    if 0 <= i < groups.len() {
        groups[i]
    } else {
        None
    }
}

/// The text of a group.
pub fn group(groups: &Vec<Option<String>>, i: usize) -> (r: Option<&String>)
    ensures
        group_text(group_texts(groups@), i as int) == match r {
            Some(s) => Some(s@),
            None => None,
        },
{
    if i < groups.len() {
        groups[i].as_ref()
    } else {
        None
    }
}

// --- laws ----------------------------------------------------------------------------

/// A text is made a pattern sign by sign: a sign that means something else is
/// marked, and every other one stands for itself.
pub proof fn law_patterns_are_made_sign_by_sign(a: Seq<char>, b: Seq<char>, c: char)
    ensures
        literal_pattern(a + b) == literal_pattern(a) + literal_pattern(b),
        is_special(c) ==> literal_pattern(seq![c]) == seq!['\\', c],
        !is_special(c) ==> literal_pattern(seq![c]) == seq![c],
    decreases b.len(),
{
    reveal_with_fuel(literal_pattern, 2);
    assert(seq![c].drop_last() =~= Seq::<char>::empty());
    assert(Seq::<char>::empty().push('\\').push(c) =~= seq!['\\', c]);
    assert(Seq::<char>::empty().push(c) =~= seq![c]);
    if b.len() == 0 {
        assert(a + b =~= a);
        assert(literal_pattern(a) + literal_pattern(b) =~= literal_pattern(a));
    } else {
        law_patterns_are_made_sign_by_sign(a, b.drop_last(), c);
        assert((a + b).drop_last() =~= a + b.drop_last());
        assert((a + b).last() == b.last());
        assert(literal_pattern(a + b) =~= literal_pattern(a) + literal_pattern(b));
    }
}

/// A pattern that cannot be compiled is found nowhere; another one as it is
/// found. A group that a match has not is no text.
pub proof fn law_groups_are_those_of_the_match(
    pattern: Seq<char>,
    text: Seq<char>,
    groups: Seq<Option<Seq<char>>>,
    i: int,
)
    ensures
        !regex_compiles(pattern) ==> found(pattern, text) is None,
        regex_compiles(pattern) ==> found(pattern, text) == captures_of(pattern, text),
        0 <= i < groups.len() ==> group_text(groups, i) == groups[i],
        i >= groups.len() ==> group_text(groups, i) is None,
{
}

} // verus!
