//! Character-level text handling: trimming, searching, replacing, line
//! splitting and decimal numbers, each stated over a string's characters.

use vstd::prelude::*;

verus! {

broadcast use vstd::string::group_string_axioms;

// --- building blocks -----------------------------------------------------------

/// `String::push` of std: appends the one character to the string's end.
pub assume_specification[ String::push ](s: &mut String, c: char)
    ensures
        final(s)@ == old(s)@.push(c),
;

/// The lower-case form of a text, by Unicode's full case mapping.
pub uninterp spec fn lowercased(s: Seq<char>) -> Seq<char>;

/// Whether all characters of a text are ASCII.
pub open spec fn is_ascii_text(s: Seq<char>) -> bool {
    forall|i: int| 0 <= i < s.len() ==> (#[trigger] s[i]) as u32 <= 0x7f
}

/// A text in small letters. Of an ASCII text the letters from `A` to `Z` become
/// those from `a` to `z`, and nothing else changes.
pub open spec fn small_letters(s: Seq<char>) -> Seq<char> {
    if is_ascii_text(s) {
        s.map_values(|c: char| ascii_lower(c))
    } else {
        lowercased(s)
    }
}

/// `str::to_lowercase` of std. Unicode maps the ASCII capitals to the ASCII
/// small letters and the other ASCII characters to themselves, so that of an
/// ASCII text the result is stated. Of any other text the mapping is only
/// named; the result depends on the text alone.
#[verifier::external_body]
pub(crate) fn to_lowercase(s: &str) -> (r: String)
    ensures
        r@ == (if is_ascii_text(s@) {
            small_letters(s@)
        } else {
            lowercased(s@)
        }),
{
    s.to_lowercase()
}

/// The characters of `s`, in order.
pub fn chars_of(s: &str) -> (r: Vec<char>)
    ensures
        r@ == s@,
{
    let mut out: Vec<char> = Vec::new();
    for c in it: s.chars()
        invariant
            it.seq() == s@,
            out@ == s@.take(it.index() as int),
    {
        out.push(c);
        assert(s@.take(it.index() + 1) =~= s@.take(it.index() as int).push(c));
    }
    assert(s@.take(s@.len() as int) =~= s@);
    out
}

/// The string made of `chars[from..to]`.
pub fn string_of(chars: &Vec<char>, from: usize, to: usize) -> (r: String)
    requires
        from <= to <= chars@.len(),
    ensures
        r@ == chars@.subrange(from as int, to as int),
{
    let mut out = String::new();
    let mut i: usize = from;
    assert(chars@.subrange(from as int, from as int) =~= Seq::<char>::empty());
    while i < to
        invariant
            from <= i <= to <= chars@.len(),
            out@ == chars@.subrange(from as int, i as int),
        decreases to - i,
    {
        out.push(chars[i]);
        assert(chars@.subrange(from as int, i + 1) =~= chars@.subrange(from as int, i as int).push(
            chars@[i as int],
        ));
        i += 1;
    }
    out
}

/// Whether two texts are the same.
pub fn same(a: &str, b: &str) -> (r: bool)
    ensures
        r == (a@ == b@),
{
    a.to_owned() == b.to_owned()
}

/// Whether `s` is one of `list`.
pub open spec fn lists(list: Seq<String>, s: Seq<char>) -> bool {
    exists|i: int| 0 <= i < list.len() && (#[trigger] list[i])@ == s
}

/// Whether `list` holds `s`.
pub fn holds(list: &Vec<String>, s: &String) -> (r: bool)
    ensures
        r == lists(list@, s@),
{
    let mut i: usize = 0;
    while i < list.len()
        invariant
            0 <= i <= list@.len(),
            forall|j: int| 0 <= j < i ==> (#[trigger] list@[j])@ != s@,
        decreases list@.len() - i,
    {
        if list[i] == *s {
            return true;
        }
        i += 1;
    }
    false
}

/// The texts of a list of strings.
pub open spec fn texts(list: Seq<String>) -> Seq<Seq<char>> {
    Seq::new(list.len(), |i: int| list[i]@)
}

// --- characters ------------------------------------------------------------------

/// Unicode's White_Space property.
pub open spec fn is_white(c: char) -> bool {
    let u = c as u32;
    ||| 0x09 <= u <= 0x0d
    ||| u == 0x20
    ||| u == 0x85
    ||| u == 0xa0
    ||| u == 0x1680
    ||| 0x2000 <= u <= 0x200a
    ||| u == 0x2028
    ||| u == 0x2029
    ||| u == 0x202f
    ||| u == 0x205f
    ||| u == 0x3000
}

pub fn is_whitespace(c: char) -> (r: bool)
    ensures
        r == is_white(c),
{
    let u: u32 = c as u32;
    (0x09 <= u && u <= 0x0d) || u == 0x20 || u == 0x85 || u == 0xa0 || u == 0x1680 || (0x2000 <= u
        && u <= 0x200a) || u == 0x2028 || u == 0x2029 || u == 0x202f || u == 0x205f || u == 0x3000
}

pub open spec fn is_digit(c: char) -> bool {
    '0' as u32 <= c as u32 <= '9' as u32
}

/// The number that a decimal digit stands for.
pub open spec fn digit_value(c: char) -> nat {
    (c as u32 - '0' as u32) as nat
}

/// The decimal digit for a number under ten.
pub open spec fn digit_char(d: nat) -> char {
    (d + '0' as u32) as char
}

pub fn is_ascii_digit(c: char) -> (r: bool)
    ensures
        r == is_digit(c),
{
    let u: u32 = c as u32;
    0x30 <= u && u <= 0x39
}

/// The digit for `d`.
fn digit(d: u8) -> (c: char)
    requires
        d < 10,
    ensures
        c == digit_char(d as nat),
        is_digit(c),
        digit_value(c) == d,
{
    let b: u8 = d + 0x30u8;
    b as char
}

/// The ASCII lower-case form of a character.
pub open spec fn ascii_lower(c: char) -> char {
    if 'A' as u32 <= c as u32 <= 'Z' as u32 {
        (c as u32 + 32) as char
    } else {
        c
    }
}

fn to_ascii_lower(c: char) -> (r: char)
    ensures
        r == ascii_lower(c),
{
    let u: u32 = c as u32;
    if 0x41 <= u && u <= 0x5a {
        let b: u8 = (u + 32) as u8;
        b as char
    } else {
        c
    }
}

/// Equality that does not tell ASCII capitals from small letters.
pub open spec fn same_ignoring_ascii_case(a: Seq<char>, b: Seq<char>) -> bool {
    &&& a.len() == b.len()
    &&& forall|i: int|
        #![trigger a[i]]
        #![trigger b[i]]
        0 <= i < a.len() ==> ascii_lower(a[i]) == ascii_lower(b[i])
}

pub fn eq_ignore_ascii_case(a: &str, b: &str) -> (r: bool)
    ensures
        r == same_ignoring_ascii_case(a@, b@),
{
    let x = chars_of(a);
    let y = chars_of(b);
    if x.len() != y.len() {
        return false;
    }
    let mut i: usize = 0;
    while i < x.len()
        invariant
            0 <= i <= x@.len(),
            x@.len() == y@.len(),
            x@ == a@,
            y@ == b@,
            forall|j: int|
                #![trigger a@[j]]
                #![trigger b@[j]]
                0 <= j < i ==> ascii_lower(a@[j]) == ascii_lower(b@[j]),
        decreases x@.len() - i,
    {
        if to_ascii_lower(x[i]) != to_ascii_lower(y[i]) {
            assert(ascii_lower(a@[i as int]) != ascii_lower(b@[i as int]));
            return false;
        }
        i += 1;
    }
    true
}

// --- trimming ----------------------------------------------------------------------

pub open spec fn trim_left(s: Seq<char>) -> Seq<char>
    decreases s.len(),
{
    if s.len() > 0 && is_white(s[0]) {
        trim_left(s.drop_first())
    } else {
        s
    }
}

pub open spec fn trim_right(s: Seq<char>) -> Seq<char>
    decreases s.len(),
{
    if s.len() > 0 && is_white(s.last()) {
        trim_right(s.drop_last())
    } else {
        s
    }
}

/// `s` without the white space at its two ends.
pub open spec fn trimmed(s: Seq<char>) -> Seq<char> {
    trim_right(trim_left(s))
}

pub fn trim<'a>(s: &'a str) -> (r: &'a str)
    ensures
        r@ == trimmed(s@),
{
    let chars = chars_of(s);
    let mut from: usize = 0;
    assert(s@.skip(0) =~= s@);
    while from < chars.len() && is_whitespace(chars[from])
        invariant
            0 <= from <= chars@.len(),
            chars@ == s@,
            trim_left(s@) == trim_left(s@.skip(from as int)),
        decreases chars@.len() - from,
    {
        assert(s@.skip(from as int).drop_first() =~= s@.skip(from + 1));
        from += 1;
    }
    assert(trim_left(s@) == s@.skip(from as int));
    let mut to: usize = chars.len();
    assert(s@.subrange(from as int, to as int) =~= s@.skip(from as int));
    while from < to && is_whitespace(chars[to - 1])
        invariant
            0 <= from <= to <= chars@.len(),
            chars@ == s@,
            trimmed(s@) == trim_right(s@.subrange(from as int, to as int)),
        decreases to - from,
    {
        assert(s@.subrange(from as int, to as int).drop_last() =~= s@.subrange(
            from as int,
            to - 1,
        ));
        assert(s@.subrange(from as int, to as int).last() == s@[to - 1]);
        to -= 1;
    }
    assert(from < to ==> s@.subrange(from as int, to as int).last() == s@[to - 1]);
    s.substring_char(from, to)
}

/// `s` without one leading `c`, if it has one.
pub open spec fn without_lead(s: Seq<char>, c: char) -> Seq<char> {
    if leads(s, c) {
        s.drop_first()
    } else {
        s
    }
}

/// Whether `s` starts with `c`.
pub open spec fn leads(s: Seq<char>, c: char) -> bool {
    s.len() > 0 && s[0] == c
}

pub fn starts_with(s: &str, c: char) -> (r: bool)
    ensures
        r == leads(s@, c),
{
    !s.is_empty() && s.get_char(0) == c
}

/// What is left of `s` after one leading `c`, if it has one; else `s`.
pub fn strip_lead<'a>(s: &'a str, c: char) -> (r: &'a str)
    ensures
        r@ == without_lead(s@, c),
{
    if starts_with(s, c) {
        let n: usize = s.unicode_len();
        assert(s@.subrange(1, n as int) =~= s@.drop_first());
        s.substring_char(1, n)
    } else {
        s
    }
}

/// `s` without any `c` at its start.
pub open spec fn without_leading(s: Seq<char>, c: char) -> Seq<char>
    decreases s.len(),
{
    if leads(s, c) {
        without_leading(s.drop_first(), c)
    } else {
        s
    }
}

pub fn trim_start_matches<'a>(s: &'a str, c: char) -> (r: &'a str)
    ensures
        r@ == without_leading(s@, c),
{
    let chars = chars_of(s);
    let mut i: usize = 0;
    assert(s@.skip(0) =~= s@);
    while i < chars.len() && chars[i] == c
        invariant
            0 <= i <= chars@.len(),
            chars@ == s@,
            without_leading(s@, c) == without_leading(s@.skip(i as int), c),
        decreases chars@.len() - i,
    {
        assert(s@.skip(i as int)[0] == s@[i as int]);
        assert(s@.skip(i as int).drop_first() =~= s@.skip(i + 1));
        i += 1;
    }
    assert(i < chars@.len() ==> s@.skip(i as int)[0] == s@[i as int]);
    let r = s.substring_char(i, chars.len());
    assert(s@.subrange(i as int, s@.len() as int) =~= s@.skip(i as int));
    r
}

/// `s` without any `c` at its end.
pub open spec fn without_trailing(s: Seq<char>, c: char) -> Seq<char>
    decreases s.len(),
{
    if s.len() > 0 && s.last() == c {
        without_trailing(s.drop_last(), c)
    } else {
        s
    }
}

pub fn trim_end_matches<'a>(s: &'a str, c: char) -> (r: &'a str)
    ensures
        r@ == without_trailing(s@, c),
{
    let chars = chars_of(s);
    let mut to: usize = chars.len();
    assert(s@.take(to as int) =~= s@);
    while to > 0 && chars[to - 1] == c
        invariant
            0 <= to <= chars@.len(),
            chars@ == s@,
            without_trailing(s@, c) == without_trailing(s@.take(to as int), c),
        decreases to,
    {
        assert(s@.take(to as int).drop_last() =~= s@.take(to - 1));
        to -= 1;
    }
    assert(s@.take(to as int) =~= s@.subrange(0, to as int));
    s.substring_char(0, to)
}

// --- searching and replacing ---------------------------------------------------------

/// Whether `p` stands in `s` at position `i`.
pub open spec fn occurs_at(s: Seq<char>, p: Seq<char>, i: int) -> bool {
    &&& 0 <= i
    &&& i + p.len() <= s.len()
    &&& s.subrange(i, i + p.len()) == p
}

/// Whether `p` stands anywhere in `s`.
pub open spec fn occurs(s: Seq<char>, p: Seq<char>) -> bool {
    exists|i: int| occurs_at(s, p, i)
}

/// `i` is the first position at which `p` stands in `s`.
pub open spec fn first_at(s: Seq<char>, p: Seq<char>, i: int) -> bool {
    occurs_at(s, p, i) && forall|j: int| 0 <= j < i ==> !occurs_at(s, p, j)
}

/// What stands in `s` before the first `p`, where there is one.
pub open spec fn text_before(s: Seq<char>, p: Seq<char>) -> Option<Seq<char>> {
    if occurs(s, p) {
        Some(s.take(choose|i: int| first_at(s, p, i)))
    } else {
        None
    }
}

/// What stands in `s` behind the first `p`, where there is one.
pub open spec fn text_after(s: Seq<char>, p: Seq<char>) -> Option<Seq<char>> {
    if occurs(s, p) {
        Some(s.skip((choose|i: int| first_at(s, p, i)) + p.len()))
    } else {
        None
    }
}

/// Whether `p` stands in `s` at `i`.
fn matches_at(s: &Vec<char>, p: &Vec<char>, i: usize) -> (r: bool)
    requires
        i <= s@.len(),
    ensures
        r == occurs_at(s@, p@, i as int),
{
    let n: usize = s.len();
    if p.len() > n - i {
        return false;
    }
    let mut k: usize = 0;
    while k < p.len()
        invariant
            0 <= k <= p@.len(),
            i + p@.len() <= n == s@.len(),
            forall|j: int| 0 <= j < k ==> s@[i + j] == #[trigger] p@[j],
        decreases p@.len() - k,
    {
        if s[i + k] != p[k] {
            assert(s@.subrange(i as int, i + p@.len())[k as int] != p@[k as int]);
            return false;
        }
        k += 1;
    }
    assert(s@.subrange(i as int, i + p@.len()) =~= p@);
    true
}

/// The first position of `p` in `s`.
fn find(s: &Vec<char>, p: &Vec<char>) -> (r: Option<usize>)
    ensures
        match r {
            Some(i) => first_at(s@, p@, i as int),
            None => !occurs(s@, p@),
        },
{
    let mut i: usize = 0;
    while i < s.len()
        invariant
            0 <= i <= s@.len(),
            forall|j: int| 0 <= j < i ==> !occurs_at(s@, p@, j),
        decreases s@.len() - i,
    {
        if matches_at(s, p, i) {
            return Some(i);
        }
        i += 1;
    }
    if matches_at(s, p, i) {
        Some(i)
    } else {
        None
    }
}

pub fn contains(s: &str, p: &str) -> (r: bool)
    ensures
        r == occurs(s@, p@),
{
    let sv = chars_of(s);
    let pv = chars_of(p);
    match find(&sv, &pv) {
        Some(i) => true,
        None => false,
    }
}

proof fn lemma_first_is_chosen(s: Seq<char>, p: Seq<char>, i: int)
    requires
        first_at(s, p, i),
    ensures
        occurs(s, p),
        (choose|k: int| first_at(s, p, k)) == i,
{
    let c = choose|k: int| first_at(s, p, k);
    assert(first_at(s, p, c));
    if c < i {
        assert(!occurs_at(s, p, c));
    }
    if i < c {
        assert(!occurs_at(s, p, i));
    }
}

/// Splits `s` at the first `p`.
pub fn split_once<'a>(s: &'a str, p: &str) -> (r: Option<(&'a str, &'a str)>)
    ensures
        match r {
            Some((before, after)) => text_before(s@, p@) == Some(before@) && text_after(s@, p@)
                == Some(after@),
            None => text_before(s@, p@) is None && text_after(s@, p@) is None,
        },
{
    let sv = chars_of(s);
    let pv = chars_of(p);
    match find(&sv, &pv) {
        Some(i) => {
            proof {
                lemma_first_is_chosen(s@, p@, i as int);
            }
            assert(s@.subrange(0, i as int) =~= s@.take(i as int));
            assert(s@.subrange(i + p@.len(), s@.len() as int) =~= s@.skip(i + p@.len()));
            let n: usize = sv.len();
            let end: usize = i + pv.len();
            Some((s.substring_char(0, i), s.substring_char(end, n)))
        },
        None => None,
    }
}

/// `s` with each `from`, taken from the left and without overlap, turned into
/// `to`.
pub open spec fn replaced(s: Seq<char>, from: Seq<char>, to: Seq<char>) -> Seq<char>
    decreases s.len(),
{
    if from.len() == 0 || s.len() < from.len() {
        s
    } else if occurs_at(s, from, 0) {
        to + replaced(s.skip(from.len() as int), from, to)
    } else {
        seq![s[0]] + replaced(s.drop_first(), from, to)
    }
}

pub fn replace(s: &str, from: &str, to: &str) -> (r: String)
    requires
        from@.len() > 0,
    ensures
        r@ == replaced(s@, from@, to@),
{
    let sv = chars_of(s);
    let fv = chars_of(from);
    let mut out = String::new();
    let mut i: usize = 0;
    assert(s@.skip(0) =~= s@);
    while i < sv.len()
        invariant
            0 <= i <= sv@.len(),
            sv@ == s@,
            fv@ == from@,
            from@.len() > 0,
            out@ + replaced(s@.skip(i as int), from@, to@) =~= replaced(s@, from@, to@),
        decreases sv@.len() - i,
    {
        let ghost rest = s@.skip(i as int);
        if matches_at(&sv, &fv, i) {
            assert(rest.subrange(0, from@.len() as int) =~= s@.subrange(
                i as int,
                i + from@.len(),
            ));
            assert(rest.skip(from@.len() as int) =~= s@.skip(i + from@.len()));
            out.append(to);
            i += fv.len();
        } else {
            assert(rest.len() >= from@.len() ==> rest.subrange(0, from@.len() as int)
                =~= s@.subrange(i as int, i + from@.len()));
            assert(rest.drop_first() =~= s@.skip(i + 1));
            assert(rest.len() < from@.len() ==> s@.skip(i + 1).len() < from@.len());
            assert(seq![rest[0]] + rest.drop_first() =~= rest);
            out.push(sv[i]);
            i += 1;
        }
    }
    assert(s@.skip(i as int) =~= Seq::<char>::empty());
    out
}

// --- lines -------------------------------------------------------------------------

/// `s` without one carriage return at its end, if it has one.
pub open spec fn without_cr(s: Seq<char>) -> Seq<char> {
    if s.len() > 0 && s.last() == '\r' {
        s.drop_last()
    } else {
        s
    }
}

/// The lines of a text from `start` on, where the line that starts there does
/// not end before `i`: a line ends with a line feed, which a carriage return
/// may precede, and the last one may end with the text.
pub open spec fn lines_from(s: Seq<char>, start: int, i: int) -> Seq<Seq<char>>
    decreases s.len() - i,
{
    if i >= s.len() || i < 0 {
        if start < s.len() {
            seq![s.subrange(start, s.len() as int)]
        } else {
            Seq::empty()
        }
    } else if s[i] == '\n' {
        seq![without_cr(s.subrange(start, i))] + lines_from(s, i + 1, i + 1)
    } else {
        lines_from(s, start, i + 1)
    }
}

/// The lines of a text.
pub open spec fn lines_of(s: Seq<char>) -> Seq<Seq<char>> {
    lines_from(s, 0, 0)
}

pub fn lines(s: &str) -> (r: Vec<String>)
    ensures
        texts(r@) == lines_of(s@),
{
    let chars = chars_of(s);
    let mut out: Vec<String> = Vec::new();
    let mut start: usize = 0;
    let mut i: usize = 0;
    while i < chars.len()
        invariant
            0 <= start <= i <= chars@.len(),
            chars@ == s@,
            texts(out@) + lines_from(s@, start as int, i as int) =~= lines_of(s@),
        decreases chars@.len() - i,
    {
        if chars[i] == '\n' {
            let ghost line = s@.subrange(start as int, i as int);
            let end: usize = if start < i && chars[i - 1] == '\r' {
                i - 1
            } else {
                i
            };
            assert(start < i ==> line.last() == s@[i - 1]);
            assert(s@.subrange(start as int, end as int) =~= without_cr(line));
            let ghost before = out@;
            out.push(string_of(&chars, start, end));
            assert(texts(out@) =~= texts(before).push(without_cr(line)));
            start = i + 1;
        }
        i += 1;
    }
    if start < chars.len() {
        let ghost before = out@;
        out.push(string_of(&chars, start, chars.len()));
        assert(texts(out@) =~= texts(before).push(s@.subrange(start as int, s@.len() as int)));
    }
    assert(texts(out@) =~= lines_of(s@));
    out
}

/// The texts of `list` with a line feed between each two.
pub open spec fn joined(list: Seq<Seq<char>>) -> Seq<char>
    decreases list.len(),
{
    if list.len() == 0 {
        Seq::empty()
    } else if list.len() == 1 {
        list[0]
    } else {
        joined(list.drop_last()).push('\n') + list.last()
    }
}

/// A file that holds the lines of `list`: each ends with a line feed, but a
/// file without any character stays empty.
pub open spec fn file_of(list: Seq<Seq<char>>) -> Seq<char> {
    if joined(list).len() == 0 {
        joined(list)
    } else {
        joined(list).push('\n')
    }
}

pub fn file_text(list: &Vec<String>) -> (r: String)
    ensures
        r@ == file_of(texts(list@)),
{
    let mut out = String::new();
    let mut i: usize = 0;
    assert(texts(list@).take(0) =~= Seq::<Seq<char>>::empty());
    while i < list.len()
        invariant
            0 <= i <= list@.len(),
            out@ == joined(texts(list@).take(i as int)),
        decreases list@.len() - i,
    {
        let ghost next = texts(list@).take(i + 1);
        assert(next.drop_last() =~= texts(list@).take(i as int));
        assert(next.last() == list@[i as int]@);
        if i > 0 {
            out.push('\n');
        }
        out.append(list[i].as_str());
        assert(i == 0 ==> out@ =~= list@[0]@);
        i += 1;
    }
    assert(texts(list@).take(i as int) =~= texts(list@));
    if !out.as_str().is_empty() {
        out.push('\n');
    }
    out
}

// --- decimal numbers -----------------------------------------------------------------

/// The decimal digits of a natural number, without leading zeros.
pub open spec fn digits(n: nat) -> Seq<char>
    decreases n,
{
    if n < 10 {
        seq![digit_char(n)]
    } else {
        digits(n / 10).push(digit_char(n % 10))
    }
}

/// The decimal text of an integer.
pub open spec fn decimal(n: int) -> Seq<char> {
    if n < 0 {
        seq!['-'] + digits((-n) as nat)
    } else {
        digits(n as nat)
    }
}

/// The number that a run of decimal digits stands for.
pub open spec fn digits_value(s: Seq<char>) -> nat
    decreases s.len(),
{
    if s.len() == 0 {
        0
    } else {
        10 * digits_value(s.drop_last()) + digit_value(s.last())
    }
}

pub open spec fn all_digits(s: Seq<char>) -> bool {
    forall|i: int| 0 <= i < s.len() ==> is_digit(#[trigger] s[i])
}

pub fn unsigned_text(n: u64) -> (r: String)
    ensures
        r@ == digits(n as nat),
    decreases n,
{
    if n < 10 {
        let mut out = String::new();
        out.push(digit(n as u8));
        assert(out@ =~= seq![digit_char(n as nat)]);
        out
    } else {
        let mut out = unsigned_text(n / 10);
        out.push(digit((n % 10) as u8));
        out
    }
}

pub fn decimal_text(n: i64) -> (r: String)
    ensures
        r@ == decimal(n as int),
{
    if n < 0 {
        let magnitude: u64 = if n == i64::MIN {
            9223372036854775808u64
        } else {
            (-n) as u64
        };
        let mut out = String::new();
        out.push('-');
        let tail = unsigned_text(magnitude);
        out.append(tail.as_str());
        assert(out@ =~= seq!['-'] + digits((-n) as nat));
        out
    } else {
        unsigned_text(n as u64)
    }
}

/// The integer that a text writes: an optional sign, then at least one digit;
/// nothing for any other text, nor for one outside the range of `i64`.
pub open spec fn integer_of(s: Seq<char>) -> Option<i64> {
    let negative = leads(s, '-');
    let body = if negative || leads(s, '+') {
        s.drop_first()
    } else {
        s
    };
    let value: int = if negative {
        -(digits_value(body) as int)
    } else {
        digits_value(body) as int
    };
    if body.len() > 0 && all_digits(body) && i64::MIN <= value <= i64::MAX {
        Some(value as i64)
    } else {
        None
    }
}

proof fn lemma_digits_value_grows(s: Seq<char>, n: int)
    requires
        0 <= n <= s.len(),
    ensures
        digits_value(s.take(n)) <= digits_value(s),
    decreases s.len() - n,
{
    if n == s.len() {
        assert(s.take(n) =~= s);
    } else {
        lemma_digits_value_grows(s, n + 1);
        assert(s.take(n + 1).drop_last() =~= s.take(n));
    }
}

pub fn parse_i64(s: &str) -> (r: Option<i64>)
    ensures
        r == integer_of(s@),
{
    let chars = chars_of(s);
    let negative = chars.len() > 0 && chars[0] == '-';
    let signed = negative || (chars.len() > 0 && chars[0] == '+');
    let from: usize = if signed {
        1
    } else {
        0
    };
    let ghost body = if signed {
        s@.drop_first()
    } else {
        s@
    };
    assert(body =~= s@.skip(from as int));
    if from >= chars.len() {
        return None;
    }
    let limit: u128 = if negative {
        9223372036854775808
    } else {
        9223372036854775807
    };
    let mut value: u128 = 0;
    let mut i: usize = from;
    assert(body.take(0) =~= Seq::<char>::empty());
    while i < chars.len()
        invariant
            from <= i <= chars@.len(),
            chars@ == s@,
            body == s@.skip(from as int),
            value == digits_value(body.take(i - from)),
            value <= limit,
            limit <= 9223372036854775808,
            forall|j: int| 0 <= j < i - from ==> is_digit(#[trigger] body[j]),
            negative ==> limit == 9223372036854775808,
            !negative ==> limit == 9223372036854775807,
            negative == leads(s@, '-'),
            body == (if leads(s@, '-') || leads(s@, '+') {
                s@.drop_first()
            } else {
                s@
            }),
        decreases chars@.len() - i,
    {
        assert(body[i - from] == s@[i as int]);
        if !is_ascii_digit(chars[i]) {
            assert(!all_digits(body));
            return None;
        }
        let ghost next = body.take(i - from + 1);
        assert(next.drop_last() =~= body.take(i - from));
        assert(next.last() == chars@[i as int]);
        value = value * 10 + (chars[i] as u32 - 0x30) as u128;
        i += 1;
        if value > limit {
            proof {
                lemma_digits_value_grows(body, i - from);
            }
            return None;
        }
    }
    assert(body.take(i - from) =~= body);
    if negative {
        Some((-(value as i128)) as i64)
    } else {
        Some(value as i64)
    }
}

// --- laws ----------------------------------------------------------------------------

proof fn lemma_digits_read_back(n: nat)
    ensures
        digits(n).len() > 0,
        all_digits(digits(n)),
        digits_value(digits(n)) == n,
        digits(n)[0] != '-',
        digits(n)[0] != '+',
    decreases n,
{
    if n < 10 {
        assert(digits(n).drop_last() =~= Seq::<char>::empty());
        assert(digits_value(Seq::<char>::empty()) == 0);
        assert(digits_value(digits(n)) == 10 * digits_value(digits(n).drop_last()) + digit_value(
            digits(n).last(),
        ));
    } else {
        lemma_digits_read_back(n / 10);
        assert(digits(n).drop_last() =~= digits(n / 10));
        assert(digits(n)[0] == digits(n / 10)[0]);
    }
}

/// Reading back the decimal text of an integer gives the integer.
pub proof fn law_decimal_reads_back(n: i64)
    ensures
        integer_of(decimal(n as int)) == Some(n),
{
    if n < 0 {
        lemma_digits_read_back((-n) as nat);
        assert(decimal(n as int).drop_first() =~= digits((-n) as nat));
    } else {
        lemma_digits_read_back(n as nat);
    }
}

/// Whether a text holds no line feed.
pub open spec fn holds_no_feed(s: Seq<char>) -> bool {
    forall|i: int| 0 <= i < s.len() ==> #[trigger] s[i] != '\n'
}

/// Whether a text is one line: it holds no line feed, and does not end with a
/// carriage return.
pub open spec fn is_line(s: Seq<char>) -> bool {
    &&& holds_no_feed(s)
    &&& !(s.len() > 0 && s.last() == '\r')
}

/// No line of a text holds a line feed.
pub proof fn lemma_lines_hold_no_feed(s: Seq<char>, start: int, i: int)
    requires
        0 <= start <= i <= s.len(),
        forall|j: int| start <= j < i ==> #[trigger] s[j] != '\n',
    ensures
        forall|k: int|
            0 <= k < lines_from(s, start, i).len() ==> holds_no_feed(
                #[trigger] lines_from(s, start, i)[k],
            ),
    decreases s.len() - i,
{
    let all = lines_from(s, start, i);
    if i < s.len() {
        if s[i] == '\n' {
            lemma_lines_hold_no_feed(s, i + 1, i + 1);
            let first = without_cr(s.subrange(start, i));
            let rest = lines_from(s, i + 1, i + 1);
            assert(holds_no_feed(first));
            assert forall|k: int| 0 <= k < all.len() implies holds_no_feed(#[trigger] all[k]) by {
                if k > 0 {
                    assert(all[k] == rest[k - 1]);
                }
            }
        } else {
            lemma_lines_hold_no_feed(s, start, i + 1);
            assert(all == lines_from(s, start, i + 1));
        }
    } else if start < s.len() {
        assert(holds_no_feed(s.subrange(start, s.len() as int)));
    }
}

/// The lines of `list`, each with a line feed behind it.
spec fn terminated(list: Seq<Seq<char>>) -> Seq<char>
    decreases list.len(),
{
    if list.len() == 0 {
        Seq::empty()
    } else {
        list[0].push('\n') + terminated(list.drop_first())
    }
}

proof fn lemma_terminated_push(list: Seq<Seq<char>>, x: Seq<char>)
    ensures
        terminated(list.push(x)) == terminated(list) + x.push('\n'),
    decreases list.len(),
{
    if list.len() == 0 {
        assert(list.push(x).drop_first() =~= list);
        assert(terminated(list) == Seq::<char>::empty());
        assert(list.push(x)[0] == x);
        assert(terminated(list.push(x)) =~= terminated(list) + x.push('\n'));
    } else {
        lemma_terminated_push(list.drop_first(), x);
        assert(list.push(x).drop_first() =~= list.drop_first().push(x));
        assert(terminated(list.push(x)) =~= terminated(list) + x.push('\n'));
    }
}

proof fn lemma_joined_terminated(list: Seq<Seq<char>>)
    requires
        list.len() > 0,
    ensures
        joined(list).push('\n') == terminated(list),
    decreases list.len(),
{
    let last = list.last();
    let rest = list.drop_last();
    assert(rest.push(last) =~= list);
    lemma_terminated_push(rest, last);
    if list.len() == 1 {
        assert(rest =~= Seq::<Seq<char>>::empty());
        assert(joined(list).push('\n') =~= terminated(rest) + last.push('\n'));
    } else {
        lemma_joined_terminated(rest);
        assert(joined(list).push('\n') =~= terminated(rest) + last.push('\n'));
    }
}

/// Lines are found in the same places when something stands in front.
proof fn lemma_lines_shift(a: Seq<char>, b: Seq<char>, start: int, i: int)
    requires
        0 <= start <= i <= b.len(),
    ensures
        lines_from(a + b, a.len() + start, a.len() + i) == lines_from(b, start, i),
    decreases b.len() - i,
{
    let s = a + b;
    if i == b.len() {
        assert(s.subrange(a.len() + start, s.len() as int) =~= b.subrange(start, b.len() as int));
    } else {
        assert(s[a.len() + i] == b[i]);
        if b[i] == '\n' {
            lemma_lines_shift(a, b, i + 1, i + 1);
            assert(s.subrange(a.len() + start, a.len() + i) =~= b.subrange(start, i));
        } else {
            lemma_lines_shift(a, b, start, i + 1);
        }
    }
}

proof fn lemma_lines_skip(s: Seq<char>, i: int, k: int)
    requires
        0 <= i <= k <= s.len(),
        forall|j: int| i <= j < k ==> #[trigger] s[j] != '\n',
    ensures
        lines_from(s, 0, i) == lines_from(s, 0, k),
    decreases k - i,
{
    if i < k {
        lemma_lines_skip(s, i + 1, k);
    }
}

/// Lines, each without one carriage return at its end, if it has one.
pub open spec fn shorn(list: Seq<Seq<char>>) -> Seq<Seq<char>> {
    Seq::new(list.len(), |i: int| without_cr(list[i]))
}

proof fn lemma_terminated_lines(list: Seq<Seq<char>>)
    requires
        forall|i: int| 0 <= i < list.len() ==> holds_no_feed(#[trigger] list[i]),
    ensures
        lines_of(terminated(list)) == shorn(list),
    decreases list.len(),
{
    if list.len() > 0 {
        let x = list[0];
        let rest = list.drop_first();
        let s = terminated(list);
        let n = x.len() as int;
        assert forall|i: int| 0 <= i < rest.len() implies holds_no_feed(#[trigger] rest[i]) by {
            assert(rest[i] == list[i + 1]);
        }
        lemma_terminated_lines(rest);
        assert(holds_no_feed(x));
        assert forall|j: int| 0 <= j < n implies #[trigger] s[j] != '\n' by {
            assert(s[j] == x[j]);
        }
        lemma_lines_skip(s, 0, n);
        assert(s[n] == '\n');
        assert(s.subrange(0, n) =~= x);
        lemma_lines_shift(x.push('\n'), terminated(rest), 0, 0);
        assert(seq![without_cr(x)] + shorn(rest) =~= shorn(list));
    } else {
        assert(lines_of(Seq::<char>::empty()) =~= shorn(list));
    }
}

/// A file that is written from lines reads as those lines again, each without a
/// carriage return at its end. A file without any character has none.
pub proof fn law_shorn_lines_read_back(list: Seq<Seq<char>>)
    requires
        forall|i: int| 0 <= i < list.len() ==> holds_no_feed(#[trigger] list[i]),
    ensures
        lines_of(file_of(list)) == (if joined(list).len() > 0 {
            shorn(list)
        } else {
            Seq::empty()
        }),
{
    if joined(list).len() > 0 {
        lemma_joined_terminated(list);
        lemma_terminated_lines(list);
    } else {
        assert(lines_of(Seq::<char>::empty()) =~= Seq::<Seq<char>>::empty());
        assert(file_of(list) =~= Seq::<char>::empty());
    }
}

/// A file that is written from lines reads as those lines again. A file without
/// any character has none.
pub proof fn law_lines_read_back(list: Seq<Seq<char>>)
    requires
        forall|i: int| 0 <= i < list.len() ==> is_line(#[trigger] list[i]),
    ensures
        lines_of(file_of(list)) == (if joined(list).len() > 0 {
            list
        } else {
            Seq::empty()
        }),
{
    assert forall|i: int| 0 <= i < list.len() implies holds_no_feed(#[trigger] list[i]) by {
        assert(is_line(list[i]));
    }
    law_shorn_lines_read_back(list);
    lemma_shorn_lines(list);
}

/// Lines that end with no carriage return stay as they are.
pub proof fn lemma_shorn_lines(list: Seq<Seq<char>>)
    requires
        forall|i: int| 0 <= i < list.len() ==> is_line(#[trigger] list[i]),
    ensures
        shorn(list) == list,
{
    assert forall|i: int| 0 <= i < list.len() implies #[trigger] shorn(list)[i] == list[i] by {
        assert(is_line(list[i]));
    }
    assert(shorn(list) =~= list);
}

/// A carriage return at the end is white space like any other.
pub proof fn lemma_trimmed_without_cr(s: Seq<char>)
    ensures
        trimmed(without_cr(s)) == trimmed(s),
    decreases s.len(),
{
    if s.len() > 0 && s.last() == '\r' {
        let t = s.drop_last();
        if s.len() == 1 {
            assert(s.drop_first() =~= t);
            assert(trim_left(s) == trim_left(t));
        } else {
            assert(t[0] == s[0]);
            if is_white(s[0]) {
                let rest = s.drop_first();
                lemma_trimmed_without_cr(rest);
                assert(rest.last() == '\r');
                assert(rest.drop_last() =~= t.drop_first());
            }
        }
    }
}

/// Only no line at all, or one empty line, makes a file without any character.
pub proof fn lemma_joined_empty(list: Seq<Seq<char>>)
    requires
        joined(list).len() == 0,
    ensures
        list.len() == 0 || (list.len() == 1 && list[0].len() == 0),
{
}

/// Capitals do not matter to the small letters of an ASCII text.
pub proof fn lemma_same_small_letters(a: Seq<char>, b: Seq<char>)
    requires
        is_ascii_text(a),
        is_ascii_text(b),
        same_ignoring_ascii_case(a, b),
    ensures
        small_letters(a) == small_letters(b),
{
    let f = |c: char| ascii_lower(c);
    assert forall|i: int| 0 <= i < a.len() implies #[trigger] a.map_values(f)[i] == b.map_values(
        f,
    )[i] by {
        assert(ascii_lower(a[i]) == ascii_lower(b[i]));
    }
    assert(a.map_values(f) =~= b.map_values(f));
}

/// Among the ASCII characters, white space is the blank, the tab, the line and
/// form feeds and the carriage return.
pub proof fn law_ascii_white_space(c: char)
    requires
        c as u32 <= 0x7f,
    ensures
        is_white(c) <==> (c == ' ' || c == '\t' || c == '\n' || c == '\r' || c as u32 == 0x0b
            || c as u32 == 0x0c),
{
}

proof fn lemma_trim_left(s: Seq<char>) -> (i: int)
    ensures
        0 <= i <= s.len(),
        trim_left(s) == s.skip(i),
        forall|k: int| 0 <= k < i ==> is_white(#[trigger] s[k]),
        i < s.len() ==> !is_white(s[i]),
    decreases s.len(),
{
    if s.len() > 0 && is_white(s[0]) {
        let rest = s.drop_first();
        let j = lemma_trim_left(rest);
        assert(rest.skip(j) =~= s.skip(j + 1));
        assert forall|k: int| 0 <= k < j + 1 implies is_white(#[trigger] s[k]) by {
            if k > 0 {
                assert(rest[k - 1] == s[k]);
            }
        }
        assert(j < rest.len() ==> rest[j] == s[j + 1]);
        j + 1
    } else {
        assert(s.skip(0) =~= s);
        0
    }
}

proof fn lemma_trim_right(s: Seq<char>) -> (j: int)
    ensures
        0 <= j <= s.len(),
        trim_right(s) == s.take(j),
        forall|k: int| j <= k < s.len() ==> is_white(#[trigger] s[k]),
        j > 0 ==> !is_white(s[j - 1]),
    decreases s.len(),
{
    if s.len() > 0 && is_white(s.last()) {
        let rest = s.drop_last();
        let j = lemma_trim_right(rest);
        assert(rest.take(j) =~= s.take(j));
        assert forall|k: int| j <= k < s.len() implies is_white(#[trigger] s[k]) by {
            if k < rest.len() {
                assert(rest[k] == s[k]);
            }
        }
        j
    } else {
        assert(s.take(s.len() as int) =~= s);
        s.len() as int
    }
}

/// Trimming takes white space off the two ends and nothing else: what is left
/// is a part of the text with only white space before and behind it, and
/// neither begins nor ends with any.
pub proof fn law_trim_takes_white_space_off(s: Seq<char>)
    ensures
        exists|i: int, j: int|
            0 <= i <= j <= s.len() && trimmed(s) == #[trigger] s.subrange(i, j) && (forall|k: int|
                0 <= k < i || j <= k < s.len() ==> is_white(#[trigger] s[k])) && (i < j
                ==> !is_white(s[i]) && !is_white(s[j - 1])),
        trimmed(trimmed(s)) == trimmed(s),
{
    let i = lemma_trim_left(s);
    let t = s.skip(i);
    let n = lemma_trim_right(t);
    let j = i + n;
    assert(t.take(n) =~= s.subrange(i, j));
    assert forall|k: int| 0 <= k < i || j <= k < s.len() implies is_white(#[trigger] s[k]) by {
        if j <= k {
            assert(t[k - i] == s[k]);
        }
    }
    if n > 0 {
        assert(t[0] == s[i]);
        assert(t[n - 1] == s[j - 1]);
        if n == t.len() {
            assert(!is_white(s[i]));
        }
        assert(!is_white(s[i]));
    }
    let r = trimmed(s);
    assert(r =~= s.subrange(i, j));
    if r.len() > 0 {
        assert(r[0] == s[i]);
        assert(r.last() == s[j - 1]);
    }
    lemma_trim_fixed(r);
}

/// A text that neither begins nor ends with white space is left as it is.
pub proof fn lemma_trim_fixed(s: Seq<char>)
    requires
        s.len() > 0 ==> !is_white(s[0]) && !is_white(s.last()),
    ensures
        trimmed(s) == s,
{
}

/// White space around a text comes off, and the text stays.
pub proof fn law_padding_comes_off(a: Seq<char>, s: Seq<char>, b: Seq<char>)
    requires
        forall|i: int| 0 <= i < a.len() ==> is_white(#[trigger] a[i]),
        forall|i: int| 0 <= i < b.len() ==> is_white(#[trigger] b[i]),
        s.len() > 0 ==> !is_white(s[0]) && !is_white(s.last()),
    ensures
        trimmed(a + s + b) == s,
{
    let t = a + s + b;
    law_trim_takes_white_space_off(t);
    let (i, j) = choose|i: int, j: int|
        0 <= i <= j <= t.len() && trimmed(t) == #[trigger] t.subrange(i, j) && (forall|k: int|
            0 <= k < i || j <= k < t.len() ==> is_white(#[trigger] t[k])) && (i < j ==> !is_white(
            t[i],
        ) && !is_white(t[j - 1]));
    let p = a.len() as int;
    let q = p + s.len();
    assert forall|k: int| 0 <= k < p || q <= k < t.len() implies is_white(#[trigger] t[k]) by {
        if k < p {
            assert(t[k] == a[k]);
        } else {
            assert(t[k] == b[k - q]);
        }
    }
    if s.len() > 0 {
        assert(t[p] == s[0]);
        assert(t[q - 1] == s.last());
        assert(i == p && j == q);
    } else {
        if i < j {
            assert(is_white(t[i]));
        }
    }
    assert(t.subrange(i, j) =~= s);
}

/// A text stands in another one exactly when that one is made of something, the
/// text, and something.
pub proof fn law_occurs_in_the_middle(s: Seq<char>, p: Seq<char>)
    ensures
        occurs(s, p) <==> exists|a: Seq<char>, b: Seq<char>| s == #[trigger] (a + p + b),
{
    if occurs(s, p) {
        let i = choose|i: int| occurs_at(s, p, i);
        assert(s =~= s.take(i) + p + s.skip(i + p.len()));
    }
    if exists|a: Seq<char>, b: Seq<char>| s == #[trigger] (a + p + b) {
        let (a, b) = choose|a: Seq<char>, b: Seq<char>| s == #[trigger] (a + p + b);
        lemma_occurs_between(a, p, b);
    }
}

pub proof fn lemma_occurs_between(a: Seq<char>, p: Seq<char>, b: Seq<char>)
    ensures
        occurs_at(a + p + b, p, a.len() as int),
        occurs(a + p + b, p),
{
    let s = a + p + b;
    assert(s.subrange(a.len() as int, (a.len() + p.len()) as int) =~= p);
    assert(occurs_at(s, p, a.len() as int));
}

/// A text is split at the first place where the separator stands, and only
/// there: what is before and behind it comes out whole.
pub proof fn law_split_at_the_first(a: Seq<char>, p: Seq<char>, b: Seq<char>)
    requires
        forall|j: int| 0 <= j < a.len() ==> !occurs_at(a + p + b, p, j),
    ensures
        text_before(a + p + b, p) == Some(a),
        text_after(a + p + b, p) == Some(b),
{
    let s = a + p + b;
    lemma_occurs_between(a, p, b);
    assert(first_at(s, p, a.len() as int));
    lemma_first_is_chosen(s, p, a.len() as int);
    assert(s.take(a.len() as int) =~= a);
    assert(s.skip((a.len() + p.len()) as int) =~= b);
}

/// A text without the separator is not split.
pub proof fn law_no_separator_no_split(s: Seq<char>, p: Seq<char>)
    ensures
        text_before(s, p) is Some <==> occurs(s, p),
        text_after(s, p) is Some <==> occurs(s, p),
{
}

proof fn lemma_replaced_before(a: Seq<char>, rest: Seq<char>, from: Seq<char>, to: Seq<char>)
    requires
        from.len() > 0,
        forall|j: int| 0 <= j < a.len() ==> !occurs_at(a + rest, from, j),
    ensures
        replaced(a + rest, from, to) == a + replaced(rest, from, to),
    decreases a.len(),
{
    let s = a + rest;
    if a.len() == 0 {
        assert(s =~= rest);
        assert(a + replaced(rest, from, to) =~= replaced(rest, from, to));
    } else if s.len() < from.len() {
        assert(replaced(rest, from, to) == rest);
    } else {
        let a1 = a.drop_first();
        let s1 = s.drop_first();
        assert(s1 =~= a1 + rest);
        assert forall|j: int| 0 <= j < a1.len() implies !occurs_at(a1 + rest, from, j) by {
            assert(!occurs_at(s, from, j + 1));
            if occurs_at(s1, from, j) {
                assert(s1.subrange(j, j + from.len()) =~= s.subrange(j + 1, j + 1 + from.len()));
            }
        }
        lemma_replaced_before(a1, rest, from, to);
        assert(seq![s[0]] + (a1 + replaced(rest, from, to)) =~= a + replaced(rest, from, to));
    }
}

/// Replacing turns the first place where a text stands into another text, leaves
/// what is before it, and goes on behind it; where the text stands nowhere,
/// nothing changes.
pub proof fn law_replacing_goes_from_place_to_place(
    a: Seq<char>,
    from: Seq<char>,
    b: Seq<char>,
    to: Seq<char>,
)
    requires
        from.len() > 0,
        forall|j: int| 0 <= j < a.len() ==> !occurs_at(a + from + b, from, j),
    ensures
        replaced(a + from + b, from, to) == a + to + replaced(b, from, to),
{
    let rest = from + b;
    assert(a + from + b =~= a + rest);
    lemma_replaced_before(a, rest, from, to);
    assert(rest.subrange(0, from.len() as int) =~= from);
    assert(rest.skip(from.len() as int) =~= b);
    assert(replaced(rest, from, to) == to + replaced(b, from, to));
    assert(a + (to + replaced(b, from, to)) =~= a + to + replaced(b, from, to));
}

/// A text that does not hold what is to be replaced stays as it is.
pub proof fn law_nothing_to_replace(s: Seq<char>, from: Seq<char>, to: Seq<char>)
    requires
        !occurs(s, from),
    ensures
        replaced(s, from, to) == s,
    decreases s.len(),
{
    if from.len() > 0 && s.len() >= from.len() {
        assert(!occurs_at(s, from, 0));
        let t = s.drop_first();
        if occurs(t, from) {
            let i = choose|i: int| occurs_at(t, from, i);
            assert(t.subrange(i, i + from.len()) =~= s.subrange(i + 1, i + 1 + from.len()));
            assert(occurs_at(s, from, i + 1));
        }
        law_nothing_to_replace(t, from, to);
        assert(seq![s[0]] + t =~= s);
    }
}

/// A text is read line by line: a line ends at the first line feed, without a
/// carriage return before it, and the lines of what is behind it follow. A text
/// without a line feed is one line, or none where it is empty.
pub proof fn law_lines_end_at_line_feeds(a: Seq<char>, b: Seq<char>)
    requires
        holds_no_feed(a),
    ensures
        lines_of(a.push('\n') + b) == seq![
            if a.len() > 0 && a.last() == '\r' {
                a.drop_last()
            } else {
                a
            },
        ] + lines_of(b),
        lines_of(a) == (if a.len() > 0 {
            seq![a]
        } else {
            Seq::<Seq<char>>::empty()
        }),
{
    let head = a.push('\n');
    let s = head + b;
    let n = a.len() as int;
    assert forall|j: int| 0 <= j < n implies #[trigger] s[j] != '\n' by {
        assert(s[j] == a[j]);
    }
    lemma_lines_skip(s, 0, n);
    assert(s[n] == '\n');
    assert(s.subrange(0, n) =~= a);
    lemma_lines_shift(head, b, 0, 0);
    lemma_lines_skip(a, 0, n);
    assert(a.subrange(0, n) =~= a);
}

/// Lines are written one behind the other, each with a line feed.
pub proof fn law_lines_are_written_in_turn(list: Seq<Seq<char>>, x: Seq<char>)
    ensures
        file_of(Seq::<Seq<char>>::empty()) == Seq::<char>::empty(),
        x.len() > 0 ==> file_of(seq![x]) == x.push('\n'),
        file_of(list).len() > 0 ==> file_of(list.push(x)) == file_of(list) + x.push('\n'),
{
    assert(joined(seq![x]) =~= x);
    let all = list.push(x);
    assert(all.drop_last() =~= list);
    assert(joined(Seq::<Seq<char>>::empty()) =~= Seq::<char>::empty());
    if joined(list).len() > 0 {
        assert(list.len() > 0);
        assert(joined(all) =~= joined(list).push('\n') + x);
        assert(file_of(all) =~= file_of(list) + x.push('\n'));
    }
}

/// ASCII capitals and small letters are the same letters; any two other
/// characters are the same only where they are equal.
pub proof fn law_ascii_case(a: char, b: char)
    ensures
        same_ignoring_ascii_case(seq![a], seq![b]) <==> (a == b || ('A' as u32 <= a as u32 <= 'Z' as u32
            && b as u32 == a as u32 + 32) || ('A' as u32 <= b as u32 <= 'Z' as u32 && a as u32
            == b as u32 + 32)),
{
    assert(seq![a][0] == a && seq![b][0] == b);
    if same_ignoring_ascii_case(seq![a], seq![b]) {
        assert(ascii_lower(seq![a][0]) == ascii_lower(seq![b][0]));
    }
    lemma_ascii_lower(a);
    lemma_ascii_lower(b);
}

proof fn lemma_ascii_lower(c: char)
    ensures
        ascii_lower(c) as u32 == (if 'A' as u32 <= c as u32 <= 'Z' as u32 {
            c as u32 + 32
        } else {
            c as u32 as int
        }),
{
}

/// Texts are the same but for ASCII capitals exactly when they are so part by
/// part.
pub proof fn law_ascii_case_of_parts(a: Seq<char>, b: Seq<char>, x: Seq<char>, y: Seq<char>)
    requires
        a.len() == b.len(),
    ensures
        same_ignoring_ascii_case(a + x, b + y) <==> (same_ignoring_ascii_case(a, b)
            && same_ignoring_ascii_case(x, y)),
{
    if same_ignoring_ascii_case(a + x, b + y) {
        assert forall|i: int|
            #![trigger a[i]]
            #![trigger b[i]]
            0 <= i < a.len() implies ascii_lower(a[i]) == ascii_lower(b[i]) by {
            assert((a + x)[i] == a[i] && (b + y)[i] == b[i]);
        }
        assert forall|i: int| #![trigger x[i]] #![trigger y[i]] 0 <= i < x.len() implies ascii_lower(x[i]) == ascii_lower(y[i]) by {
            assert((a + x)[a.len() + i] == x[i] && (b + y)[a.len() + i] == y[i]);
        }
    }
    if same_ignoring_ascii_case(a, b) && same_ignoring_ascii_case(x, y) {
        assert forall|i: int| #![trigger (a + x)[i]] #![trigger (b + y)[i]] 0 <= i < (a + x).len() implies ascii_lower((a + x)[i]) == ascii_lower((b + y)[i]) by {
            if i < a.len() {
                assert((a + x)[i] == a[i] && (b + y)[i] == b[i]);
            } else {
                assert((a + x)[i] == x[i - a.len()] && (b + y)[i] == y[i - a.len()]);
            }
        }
    }
}

/// Taking a character off an end takes all of it off, and nothing else.
pub proof fn law_runs_come_off_the_ends(s: Seq<char>, c: char, n: nat)
    requires
        s.len() > 0 ==> s[0] != c && s.last() != c,
    ensures
        without_trailing(s + Seq::new(n, |i: int| c), c) == s,
        without_leading(Seq::new(n, |i: int| c) + s, c) == s,
    decreases n,
{
    let run = Seq::new(n, |i: int| c);
    if n == 0 {
        assert(s + run =~= s);
        assert(run + s =~= s);
    } else {
        let less = Seq::new((n - 1) as nat, |i: int| c);
        law_runs_come_off_the_ends(s, c, (n - 1) as nat);
        assert((s + run).drop_last() =~= s + less);
        assert((run + s).drop_first() =~= less + s);
    }
}

/// A run of digits is the number that it writes, whatever zeros stand in front;
/// a sign in front is taken, and nothing else is.
pub proof fn law_integers_are_read(d: Seq<char>)
    requires
        d.len() > 0,
        all_digits(d),
    ensures
        integer_of(d) == (if digits_value(d) <= i64::MAX {
            Some(digits_value(d) as i64)
        } else {
            None
        }),
        integer_of(seq!['+'] + d) == integer_of(d),
        integer_of(seq!['-'] + d) == (if digits_value(d) <= 0x8000_0000_0000_0000 {
            Some((-(digits_value(d) as int)) as i64)
        } else {
            None
        }),
        digits_value(seq!['0'] + d) == digits_value(d),
{
    assert(is_digit(d[0]));
    assert((seq!['+'] + d).drop_first() =~= d);
    assert((seq!['-'] + d).drop_first() =~= d);
    lemma_zero_in_front(d);
}

proof fn lemma_zero_in_front(d: Seq<char>)
    ensures
        digits_value(seq!['0'] + d) == digits_value(d),
    decreases d.len(),
{
    let z = seq!['0'] + d;
    if d.len() == 0 {
        assert(z =~= seq!['0']);
        assert(z.drop_last() =~= d);
        assert(digits_value(z) == 10 * digits_value(z.drop_last()) + digit_value(z.last()));
    } else {
        assert(z.drop_last() =~= seq!['0'] + d.drop_last());
        lemma_zero_in_front(d.drop_last());
    }
}

/// A text that holds anything but digits behind its sign, or no digit, is no
/// integer.
pub proof fn law_other_texts_are_no_integers(s: Seq<char>, i: int)
    ensures
        0 <= i < s.len() && !is_digit(s[i]) && !(i == 0 && (s[0] == '-' || s[0] == '+'))
            ==> integer_of(s) is None,
        s.len() == 0 ==> integer_of(s) is None,
        s.len() == 1 && !is_digit(s[0]) ==> integer_of(s) is None,
{
    if 0 <= i < s.len() && !is_digit(s[i]) && !(i == 0 && (s[0] == '-' || s[0] == '+')) {
        if s[0] == '-' || s[0] == '+' {
            assert(s.drop_first()[i - 1] == s[i]);
            assert(!all_digits(s.drop_first()));
        } else {
            assert(!all_digits(s));
        }
    }
    if s.len() == 1 && !is_digit(s[0]) {
        assert(s.drop_first().len() == 0);
    }
}

/// A number is written with its own digits: the last one is what is left over
/// by ten, and those before it are the rest of the number.
pub proof fn law_numbers_are_written_in_tens(n: nat, d: nat)
    requires
        d < 10,
    ensures
        digits(d) == seq![(48 + d) as char],
        n > 0 ==> digits(10 * n + d) == digits(n).push((48 + d) as char),
        decimal(-(n as int) - 1) == seq!['-'] + digits(n + 1),
        decimal(n as int) == digits(n),
        is_digit((48 + d) as char),
        digit_value((48 + d) as char) == d,
{
    assert((10 * n + d) / 10 == n);
    assert((10 * n + d) % 10 == d);
}

/// Whether places in a list of `n` are named in order, none of them twice.
pub open spec fn rising(at: Seq<int>, n: nat) -> bool {
    &&& forall|i: int| 0 <= i < at.len() ==> 0 <= #[trigger] at[i] < n
    &&& forall|i: int, j: int| 0 <= i < j < at.len() ==> #[trigger] at[i] < #[trigger] at[j]
}

/// One more place behind the others.
pub proof fn lemma_rising_push(at: Seq<int>, n: nat)
    requires
        rising(at, n),
    ensures
        rising(at, n + 1),
        rising(at.push(n as int), n + 1),
{
    let all = at.push(n as int);
    assert forall|i: int| 0 <= i < all.len() implies 0 <= #[trigger] all[i] < n + 1 by {
        if i < at.len() {
            assert(all[i] == at[i]);
        }
    }
    assert forall|i: int, j: int| 0 <= i < j < all.len() implies #[trigger] all[i] < #[trigger] all[j] by {
        assert(all[i] == at[i]);
        if j < at.len() {
            assert(all[j] == at[j]);
        }
    }
}

/// Where a text stands anywhere, it stands somewhere first.
pub proof fn lemma_first_exists(s: Seq<char>, p: Seq<char>, i: int)
    requires
        occurs_at(s, p, i),
    ensures
        exists|k: int| first_at(s, p, k),
    decreases i,
{
    if forall|j: int| 0 <= j < i ==> !occurs_at(s, p, j) {
        assert(first_at(s, p, i));
    } else {
        let j = choose|j: int| 0 <= j < i && occurs_at(s, p, j);
        lemma_first_exists(s, p, j);
    }
}

/// A list of strings is the list of their texts, one for one.
pub proof fn law_lists_are_read_one_for_one(list: Seq<String>, i: int)
    requires
        0 <= i < list.len(),
    ensures
        texts(list).len() == list.len(),
        texts(list)[i] == list[i]@,
{
}

} // verus!
