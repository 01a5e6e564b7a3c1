//! What the page of a profile says in its meta tags.

use crate::count::parse_abbreviated_count;
use crate::pattern::{escape, find, group};
use crate::text::{contains, replace, split_once, to_lowercase, trim};
use vstd::prelude::*;

verus! {

use crate::cache::{is_username_char, username_shaped};
use crate::count::abbreviated_count;
use crate::pattern::{found, group_text, group_texts, literal_pattern};
use crate::record::opt_text;
use crate::text::{
    ascii_lower, first_at, is_white, law_nothing_to_replace, law_padding_comes_off,
    law_replacing_goes_from_place_to_place, law_split_at_the_first, lemma_first_exists,
    lemma_occurs_between, lemma_same_small_letters, occurs, occurs_at, replaced,
    same_ignoring_ascii_case, small_letters, text_before, trimmed,
};

/// Profile fields that the meta tags of a page give.
#[derive(Debug, PartialEq)]
pub struct HtmlProfile {
    pub full_name: Option<String>,
    pub followers: Option<i64>,
    pub following: Option<i64>,
    pub posts: Option<i64>,
    pub is_private: Option<bool>,
}

/// What the meta tags of a page say.
pub struct HtmlView {
    pub full_name: Option<Seq<char>>,
    pub followers: Option<i64>,
    pub following: Option<i64>,
    pub posts: Option<i64>,
    pub is_private: Option<bool>,
}

impl View for HtmlProfile {
    type V = HtmlView;

    open spec fn view(&self) -> HtmlView {
        HtmlView {
            full_name: opt_text(self.full_name),
            followers: self.followers,
            following: self.following,
            posts: self.posts,
            is_private: self.is_private,
        }
    }
}

/// What a page says that says nothing.
pub open spec fn nothing_said() -> HtmlView {
    HtmlView { full_name: None, followers: None, following: None, posts: None, is_private: None }
}

impl Default for HtmlProfile {
    fn default() -> (r: Self)
        ensures
            r@ == nothing_said(),
    {
        HtmlProfile {
            full_name: None,
            followers: None,
            following: None,
            posts: None,
            is_private: None,
        }
    }
}

// --- meta tags -----------------------------------------------------------------------

/// The pattern of a meta tag with its key before its content, up to the key.
pub const META_BEFORE_KEY: &'static str = r#"(?is)<meta[^>]*(?:property|name)\s*=\s*["']"#;

/// From the key to the end, and on to the key of a tag that has it behind its
/// content.
pub const META_BETWEEN_KEYS: &'static str =
    r#"["'][^>]*content\s*=\s*["']([^"']*)["']|<meta[^>]*content\s*=\s*["']([^"']*)["'][^>]*(?:property|name)\s*=\s*["']"#;

/// From that key to the end.
pub const META_AFTER_KEY: &'static str = r#"["']"#;

/// The counts in a description.
pub const COUNTS_PATTERN: &'static str =
    r"(?i)([0-9][0-9,.]*\s*[KMB]?)\s+Followers,\s*([0-9][0-9,.]*\s*[KMB]?)\s+Following,\s*([0-9][0-9,.]*\s*[KMB]?)\s+Posts";

/// The pattern of a meta tag with the key.
pub open spec fn meta_pattern(key: Seq<char>) -> Seq<char> {
    META_BEFORE_KEY@ + literal_pattern(key) + META_BETWEEN_KEYS@ + literal_pattern(key)
        + META_AFTER_KEY@
}

/// A text with the entities of HTML's own signs resolved. `&amp;` is resolved
/// before `&lt;` and `&gt;`, so that `&amp;lt;` becomes `<`.
pub open spec fn decoded(s: Seq<char>) -> Seq<char> {
    let s1 = replaced(s, "&quot;"@, "\""@);
    let s2 = replaced(s1, "&#039;"@, "'"@);
    let s3 = replaced(s2, "&#39;"@, "'"@);
    let s4 = replaced(s3, "&amp;"@, "&"@);
    let s5 = replaced(s4, "&lt;"@, "<"@);
    replaced(s5, "&gt;"@, ">"@)
}

pub fn decode_entities(s: &str) -> (r: String)
    ensures
        r@ == decoded(s@),
{
    proof {
        reveal_strlit("&quot;");
        reveal_strlit("&#039;");
        reveal_strlit("&#39;");
        reveal_strlit("&amp;");
        reveal_strlit("&lt;");
        reveal_strlit("&gt;");
    }
    let s1 = replace(s, "&quot;", "\"");
    let s2 = replace(s1.as_str(), "&#039;", "'");
    let s3 = replace(s2.as_str(), "&#39;", "'");
    let s4 = replace(s3.as_str(), "&amp;", "&");
    let s5 = replace(s4.as_str(), "&lt;", "<");
    replace(s5.as_str(), "&gt;", ">")
}

/// The content of a meta tag by the groups of its match: the first group is the
/// content of a tag that has its key first, the second that of the other kind.
/// An empty content is none.
pub open spec fn content_of_groups(groups: Seq<Option<Seq<char>>>) -> Option<Seq<char>> {
    let raw = match group_text(groups, 1) {
        Some(s) => s,
        None => match group_text(groups, 2) {
            Some(s) => s,
            None => Seq::empty(),
        },
    };
    if raw.len() == 0 {
        None
    } else {
        Some(decoded(raw))
    }
}

pub fn content_from_groups(groups: &Vec<Option<String>>) -> (r: Option<String>)
    ensures
        opt_text(r) == content_of_groups(group_texts(groups@)),
{
    match group(groups, 1) {
        Some(raw) => {
            if raw.as_str().is_empty() {
                None
            } else {
                Some(decode_entities(raw.as_str()))
            }
        },
        None => match group(groups, 2) {
            Some(raw) => {
                if raw.as_str().is_empty() {
                    None
                } else {
                    Some(decode_entities(raw.as_str()))
                }
            },
            None => None,
        },
    }
}

/// The content of the first meta tag with the key.
pub open spec fn meta_of(html: Seq<char>, key: Seq<char>) -> Option<Seq<char>> {
    match found(meta_pattern(key), html) {
        Some(groups) => content_of_groups(groups),
        None => None,
    }
}

/// The content of the first meta tag with the key, with its entities resolved.
pub fn meta_content(html: &str, key: &str) -> (r: Option<String>)
    ensures
        opt_text(r) == meta_of(html@, key@),
{
    let literal = escape(key);
    let mut pattern = META_BEFORE_KEY.to_owned();
    pattern.append(literal.as_str());
    pattern.append(META_BETWEEN_KEYS);
    pattern.append(literal.as_str());
    pattern.append(META_AFTER_KEY);
    match find(pattern.as_str(), html) {
        Some(groups) => content_from_groups(&groups),
        None => None,
    }
}

// --- whose tags they are -------------------------------------------------------------

/// Whether a text in small letters names a handle in small letters, as
/// `(@handle)`.
pub open spec fn names_handle(lower: Seq<char>, handle: Seq<char>) -> bool {
    occurs(lower, "(@"@ + handle + ")"@)
}

/// Whether a text in small letters names a handle in small letters.
pub fn handle_is_named(lower: &str, handle: &str) -> (r: bool)
    ensures
        r == names_handle(lower@, handle@),
{
    let mut mention = "(@".to_owned();
    mention.append(handle);
    mention.append(")");
    contains(lower, mention.as_str())
}

/// Whether a text names the account.
pub open spec fn mentions(text: Seq<char>, username: Seq<char>) -> bool {
    names_handle(small_letters(text), small_letters(username))
}

fn mentions_handle(text: &str, username: &str) -> (r: bool)
    ensures
        r == mentions(text@, username@),
{
    let lower = to_lowercase(text);
    let handle = to_lowercase(username);
    handle_is_named(lower.as_str(), handle.as_str())
}

/// A content that names the account; none where it names none or another.
pub open spec fn if_named(content: Option<Seq<char>>, username: Seq<char>) -> Option<Seq<char>> {
    match content {
        Some(s) => if mentions(s, username) {
            Some(s)
        } else {
            None
        },
        None => None,
    }
}

fn keep_if_named(content: Option<String>, username: &str) -> (r: Option<String>)
    ensures
        opt_text(r) == if_named(opt_text(content), username@),
{
    match content {
        Some(s) => {
            if mentions_handle(s.as_str(), username) {
                Some(s)
            } else {
                None
            }
        },
        None => None,
    }
}

// --- the fields ----------------------------------------------------------------------

/// A count by the group of its match.
pub open spec fn count_in_group(groups: Seq<Option<Seq<char>>>, i: int) -> Option<i64> {
    match group_text(groups, i) {
        Some(s) => abbreviated_count(s),
        None => None,
    }
}

fn count_from_group(groups: &Vec<Option<String>>, i: usize) -> (r: Option<i64>)
    ensures
        r == count_in_group(group_texts(groups@), i as int),
{
    match group(groups, i) {
        Some(s) => parse_abbreviated_count(s.as_str()),
        None => None,
    }
}

/// The name in a title such as `Jane Doe (@jane)`: what stands before the
/// handle. An empty name is none.
pub open spec fn name_in_title(title: Seq<char>) -> Option<Seq<char>> {
    match text_before(title, " (@"@) {
        Some(before) => if trimmed(before).len() > 0 {
            Some(trimmed(before))
        } else {
            None
        },
        None => None,
    }
}

/// What a page says, by the groups of its counts, its title and whether it is
/// marked private.
pub open spec fn fields_of(
    counts: Option<Seq<Option<Seq<char>>>>,
    title: Option<Seq<char>>,
    private: bool,
) -> HtmlView {
    HtmlView {
        full_name: match title {
            Some(t) => name_in_title(t),
            None => None,
        },
        followers: match counts {
            Some(groups) => count_in_group(groups, 1),
            None => None,
        },
        following: match counts {
            Some(groups) => count_in_group(groups, 2),
            None => None,
        },
        posts: match counts {
            Some(groups) => count_in_group(groups, 3),
            None => None,
        },
        is_private: if private {
            Some(true)
        } else {
            None
        },
    }
}

/// Reads the fields from the groups of the counts, the title and whether the
/// page is marked private.
pub fn fields_from(
    counts: Option<&Vec<Option<String>>>,
    title: Option<&String>,
    private: bool,
) -> (r: HtmlProfile)
    ensures
        r@ == fields_of(
            match counts {
                Some(groups) => Some(group_texts(groups@)),
                None => None,
            },
            match title {
                Some(t) => Some(t@),
                None => None,
            },
            private,
        ),
        title matches Some(t) ==> forall|name: Seq<char>, rest: Seq<char>|
            #![trigger name + " (@"@ + rest]
            t@ == name + " (@"@ + rest && name.len() > 0 && !is_white(name[0]) && !is_white(
                name.last(),
            ) && !occurs(name, " (@"@) ==> opt_text(r.full_name) == Some(name),
{
    proof {
        if let Some(t) = title {
            assert forall|name: Seq<char>, rest: Seq<char>|
                #![trigger name + " (@"@ + rest]
                t@ == name + " (@"@ + rest && name.len() > 0 && !is_white(name[0]) && !is_white(
                    name.last(),
                ) && !occurs(name, " (@"@) implies name_in_title(t@) == Some(name) by {
                let none = Seq::<char>::empty();
                assert(none + name + none =~= name);
                law_title_gives_the_whole_name(none, name, none, rest);
            }
        }
    }
    let mut out = HtmlProfile::default();
    if let Some(groups) = counts {
        out.followers = count_from_group(groups, 1);
        out.following = count_from_group(groups, 2);
        out.posts = count_from_group(groups, 3);
    }
    if let Some(t) = title {
        if let Some((before, _)) = split_once(t.as_str(), " (@") {
            let name = trim(before);
            if !name.is_empty() {
                out.full_name = Some(name.to_owned());
            }
        }
    }
    if private {
        out.is_private = Some(true);
    }
    out
}

/// The description of a page.
pub open spec fn description_of(html: Seq<char>) -> Option<Seq<char>> {
    match meta_of(html, "og:description"@) {
        Some(d) => Some(d),
        None => meta_of(html, "description"@),
    }
}

/// Whether a page is marked private.
pub open spec fn is_marked_private(html: Seq<char>) -> bool {
    occurs(html, "This Account is Private"@) || occurs(html, "This account is private"@)
}

/// What the page of an account says of it. Only a tag that names the account
/// is taken to be about it.
pub open spec fn html_fields(username: Seq<char>, html: Seq<char>) -> HtmlView {
    fields_of(
        match if_named(description_of(html), username) {
            Some(d) => found(COUNTS_PATTERN@, d),
            None => None,
        },
        if_named(meta_of(html, "og:title"@), username),
        is_marked_private(html),
    )
}

/// Reads what the page of an account says of it in its meta tags.
///
/// Large accounts have their counts abbreviated there, so that theirs are
/// rounded; others have them in full.
pub fn profile_fields_from_html(username: &str, html: &str) -> (r: HtmlProfile)
    ensures
        r@ == html_fields(username@, html@),
{
    let description = match meta_content(html, "og:description") {
        Some(d) => Some(d),
        None => meta_content(html, "description"),
    };
    let counts = match keep_if_named(description, username) {
        Some(d) => find(COUNTS_PATTERN, d.as_str()),
        None => None,
    };
    let title = keep_if_named(meta_content(html, "og:title"), username);
    let private = contains(html, "This Account is Private") || contains(
        html,
        "This account is private",
    );
    fields_from(counts.as_ref(), title.as_ref(), private)
}

// --- laws ----------------------------------------------------------------------------

/// A page is never taken to be about another account: where neither its
/// description nor its title names the account, nothing but the private mark
/// is read from it.
pub proof fn law_other_accounts_tags_are_ignored(username: Seq<char>, html: Seq<char>)
    requires
        description_of(html) matches Some(d) ==> !mentions(d, username),
        meta_of(html, "og:title"@) matches Some(t) ==> !mentions(t, username),
    ensures
        html_fields(username, html) == (HtmlView {
            is_private: html_fields(username, html).is_private,
            ..nothing_said()
        }),
{
}

/// Handles with the same small letters are the same to a page.
pub proof fn law_page_reads_small_letters(a: Seq<char>, b: Seq<char>, html: Seq<char>)
    requires
        small_letters(a) == small_letters(b),
    ensures
        html_fields(a, html) == html_fields(b, html),
{
}

/// The letter case of a handle does not matter: a username gives the same
/// fields in capitals, in small letters and in any mixture of them.
pub proof fn law_case_of_the_handle_is_ignored(a: Seq<char>, b: Seq<char>, html: Seq<char>)
    requires
        username_shaped(a),
        same_ignoring_ascii_case(a, b),
    ensures
        html_fields(a, html) == html_fields(b, html),
{
    assert forall|i: int| 0 <= i < a.len() implies (#[trigger] a[i]) as u32 <= 0x7f by {
        assert(is_username_char(a[i]));
    }
    assert forall|i: int| 0 <= i < b.len() implies (#[trigger] b[i]) as u32 <= 0x7f by {
        lemma_ascii_case(a[i], b[i]);
    }
    lemma_same_small_letters(a, b);
    law_page_reads_small_letters(a, b, html);
}

proof fn lemma_ascii_case(a: char, b: char)
    requires
        a as u32 <= 0x7f,
        ascii_lower(a) == ascii_lower(b),
    ensures
        b as u32 <= 0x7f,
{
}

/// The name in a title is everything before the handle, whole: all its words,
/// without the white space around it.
pub proof fn law_title_gives_the_whole_name(
    before: Seq<char>,
    name: Seq<char>,
    behind: Seq<char>,
    rest: Seq<char>,
)
    requires
        name.len() > 0,
        !is_white(name[0]),
        !is_white(name.last()),
        forall|i: int| 0 <= i < before.len() ==> is_white(#[trigger] before[i]),
        forall|i: int| 0 <= i < behind.len() ==> is_white(#[trigger] behind[i]),
        !occurs(before + name + behind, " (@"@),
    ensures
        name_in_title(before + name + behind + " (@"@ + rest) == Some(name),
{
    let whole = before + name + behind;
    reveal_strlit(" (@");
    let p = " (@"@;
    let title = whole + p + rest;
    assert forall|j: int| 0 <= j < whole.len() implies !occurs_at(title, p, j) by {
        if occurs_at(title, p, j) {
            let part = title.subrange(j, j + p.len());
            assert(part[2] == '@');
            assert(title[j + 2] == '@');
            if j + 2 < whole.len() {
                assert(whole.subrange(j, j + p.len()) =~= part);
                assert(occurs_at(whole, p, j));
            } else if j + 2 == whole.len() {
                assert(title[j + 2] == p[0]);
            } else {
                assert(title[j + 2] == p[1]);
            }
            assert(false);
        }
    }
    law_split_at_the_first(whole, p, rest);
    law_padding_comes_off(before, name, behind);
}

/// A title without a handle gives no name, nor does one with nothing but white
/// space before it.
pub proof fn law_title_without_a_name(title: Seq<char>, blank: Seq<char>, rest: Seq<char>)
    requires
        !occurs(title, " (@"@),
        forall|i: int| 0 <= i < blank.len() ==> is_white(#[trigger] blank[i]),
    ensures
        name_in_title(title) is None,
        name_in_title(blank + " (@"@ + rest) is None,
{
    reveal_strlit(" (@");
    let p = " (@"@;
    let s = blank + p + rest;
    lemma_occurs_between(blank, p, rest);
    let i = choose|i: int| first_at(s, p, i);
    assert(exists|i: int| first_at(s, p, i)) by {
        lemma_first_exists(s, p, blank.len() as int);
    }
    assert(i <= blank.len()) by {
        if i > blank.len() {
            assert(!occurs_at(s, p, blank.len() as int));
        }
    }
    let head = s.take(i);
    assert forall|k: int| 0 <= k < head.len() implies is_white(#[trigger] head[k]) by {
        assert(head[k] == blank[k]);
    }
    law_padding_comes_off(head, Seq::empty(), Seq::empty());
    assert(head + Seq::<char>::empty() + Seq::<char>::empty() =~= head);
}

/// The counts are those of the description's three groups in turn, the name that
/// of the title, and the private mark is set or left open.
pub proof fn law_fields_come_from_their_places(
    groups: Seq<Option<Seq<char>>>,
    title: Option<Seq<char>>,
    private: bool,
)
    requires
        groups.len() == 4,
    ensures
        fields_of(Some(groups), title, private).followers == (match groups[1] {
            Some(s) => abbreviated_count(s),
            None => None,
        }),
        fields_of(Some(groups), title, private).following == (match groups[2] {
            Some(s) => abbreviated_count(s),
            None => None,
        }),
        fields_of(Some(groups), title, private).posts == (match groups[3] {
            Some(s) => abbreviated_count(s),
            None => None,
        }),
        title matches Some(t) ==> fields_of(Some(groups), title, private).full_name
            == name_in_title(t) && fields_of(None, title, private).full_name == name_in_title(t),
        title is None ==> fields_of(Some(groups), title, private).full_name is None,
        fields_of(Some(groups), title, private).is_private == (if private {
            Some(true)
        } else {
            None
        }),
        fields_of(None, title, private).followers is None,
        fields_of(None, title, private).following is None,
        fields_of(None, title, private).posts is None,
        fields_of(None, title, private).is_private == fields_of(
            Some(groups),
            title,
            private,
        ).is_private,
{
}

/// A page whose description and title name the account is read from them: its
/// counts are found in the description, its name in the title. The description
/// for other sites comes before the plain one.
pub proof fn law_page_is_read_from_its_tags(
    username: Seq<char>,
    html: Seq<char>,
    description: Seq<char>,
    title: Seq<char>,
)
    requires
        meta_of(html, "og:description"@) == Some(description) || (meta_of(
            html,
            "og:description"@,
        ) is None && meta_of(html, "description"@) == Some(description)),
        occurs(small_letters(description), "(@"@ + small_letters(username) + ")"@),
        meta_of(html, "og:title"@) == Some(title),
        occurs(small_letters(title), "(@"@ + small_letters(username) + ")"@),
    ensures
        html_fields(username, html) == fields_of(
            found(COUNTS_PATTERN@, description),
            Some(title),
            html_fields(username, html).is_private == Some(true),
        ),
        html_fields(username, html).is_private == Some(true) <==> (occurs(
            html,
            "This Account is Private"@,
        ) || occurs(html, "This account is private"@)),
{
}

/// The content of a tag is the first of its two groups that took part in the
/// match, with its entities resolved; an empty one is none.
pub proof fn law_content_is_the_group_that_matched(
    g0: Option<Seq<char>>,
    a: Seq<char>,
    g2: Option<Seq<char>>,
)
    ensures
        a.len() > 0 ==> content_of_groups(seq![g0, Some(a), g2]) == Some(decoded(a)),
        a.len() > 0 ==> content_of_groups(seq![g0, None, Some(a)]) == Some(decoded(a)),
        a.len() == 0 ==> content_of_groups(seq![g0, Some(a), g2]) is None,
        content_of_groups(seq![g0, None, None]) is None,
{
}

/// Whether a text holds no ampersand.
pub open spec fn holds_no_ampersand(s: Seq<char>) -> bool {
    forall|i: int| 0 <= i < s.len() ==> #[trigger] s[i] != '&'
}

proof fn lemma_only_there(a: Seq<char>, entity: Seq<char>, b: Seq<char>, p: Seq<char>, at: int)
    requires
        holds_no_ampersand(a),
        holds_no_ampersand(b),
        0 < at < entity.len(),
        at < p.len(),
        p[0] == '&',
        p[at] != entity[at],
        forall|i: int| 0 < i < entity.len() ==> #[trigger] entity[i] != '&',
    ensures
        !occurs(a + entity + b, p),
{
    let s = a + entity + b;
    if occurs(s, p) {
        let i = choose|i: int| occurs_at(s, p, i);
        let part = s.subrange(i, i + p.len());
        assert(part[0] == s[i]);
        assert(part[at] == s[i + at]);
        if i < a.len() {
            assert(s[i] == a[i]);
        } else if i > a.len() && i < a.len() + entity.len() {
            assert(s[i] == entity[i - a.len()]);
        } else if i > a.len() {
            assert(s[i] == b[i - a.len() - entity.len()]);
        } else {
            assert(s[i + at] == entity[at]);
        }
        assert(false);
    }
}

proof fn lemma_resolved(a: Seq<char>, entity: Seq<char>, b: Seq<char>, to: Seq<char>)
    requires
        holds_no_ampersand(a),
        holds_no_ampersand(b),
        entity.len() > 0,
        entity[0] == '&',
    ensures
        replaced(a + entity + b, entity, to) == a + to + b,
{
    let s = a + entity + b;
    assert forall|j: int| 0 <= j < a.len() implies !occurs_at(s, entity, j) by {
        if occurs_at(s, entity, j) {
            assert(s.subrange(j, j + entity.len())[0] == s[j]);
            assert(s[j] == a[j]);
        }
    }
    law_replacing_goes_from_place_to_place(a, entity, b, to);
    lemma_no_entity(b, entity);
    law_nothing_to_replace(b, entity, to);
}

proof fn lemma_no_entity(s: Seq<char>, p: Seq<char>)
    requires
        holds_no_ampersand(s),
        p.len() > 0,
        p[0] == '&',
    ensures
        !occurs(s, p),
{
    if occurs(s, p) {
        let i = choose|i: int| occurs_at(s, p, i);
        assert(s.subrange(i, i + p.len())[0] == s[i]);
    }
}

/// There is nothing to resolve in a text without an ampersand.
proof fn lemma_nothing_resolved(s: Seq<char>)
    requires
        holds_no_ampersand(s),
    ensures
        replaced(s, "&quot;"@, "\""@) == s,
        replaced(s, "&#039;"@, "'"@) == s,
        replaced(s, "&#39;"@, "'"@) == s,
        replaced(s, "&amp;"@, "&"@) == s,
        replaced(s, "&lt;"@, "<"@) == s,
        replaced(s, "&gt;"@, ">"@) == s,
{
    reveal_strlit("&quot;");
    reveal_strlit("&#039;");
    reveal_strlit("&#39;");
    reveal_strlit("&amp;");
    reveal_strlit("&lt;");
    reveal_strlit("&gt;");
    lemma_no_entity(s, "&quot;"@);
    lemma_no_entity(s, "&#039;"@);
    lemma_no_entity(s, "&#39;"@);
    lemma_no_entity(s, "&amp;"@);
    lemma_no_entity(s, "&lt;"@);
    lemma_no_entity(s, "&gt;"@);
    law_nothing_to_replace(s, "&quot;"@, "\""@);
    law_nothing_to_replace(s, "&#039;"@, "'"@);
    law_nothing_to_replace(s, "&#39;"@, "'"@);
    law_nothing_to_replace(s, "&amp;"@, "&"@);
    law_nothing_to_replace(s, "&lt;"@, "<"@);
    law_nothing_to_replace(s, "&gt;"@, ">"@);
}

/// A text without an ampersand is left as it is.
pub proof fn law_plain_text_is_not_decoded(s: Seq<char>)
    requires
        holds_no_ampersand(s),
    ensures
        decoded(s) == s,
{
    lemma_nothing_resolved(s);
}

proof fn lemma_joined_plain(a: Seq<char>, c: Seq<char>, b: Seq<char>)
    requires
        holds_no_ampersand(a),
        holds_no_ampersand(b),
        c.len() == 1,
        c[0] != '&',
    ensures
        holds_no_ampersand(a + c + b),
{
    let s = a + c + b;
    assert forall|i: int| 0 <= i < s.len() implies #[trigger] s[i] != '&' by {
        if i < a.len() {
            assert(s[i] == a[i]);
        } else if i == a.len() {
            assert(s[i] == c[0]);
        } else {
            assert(s[i] == b[i - a.len() - 1]);
        }
    }
}

/// Quotation marks and apostrophes are resolved wherever they stand.
pub proof fn law_quotes_are_decoded(a: Seq<char>, b: Seq<char>)
    requires
        holds_no_ampersand(a),
        holds_no_ampersand(b),
    ensures
        decoded(a + "&quot;"@ + b) == a + "\""@ + b,
        decoded(a + "&#039;"@ + b) == a + "'"@ + b,
        decoded(a + "&#39;"@ + b) == a + "'"@ + b,
{
    reveal_strlit("&quot;");
    reveal_strlit("&#039;");
    reveal_strlit("&#39;");
    reveal_strlit("\"");
    reveal_strlit("'");
    let (q, z, n) = ("&quot;"@, "&#039;"@, "&#39;"@);
    lemma_resolved(a, q, b, "\""@);
    lemma_joined_plain(a, "\""@, b);
    lemma_nothing_resolved(a + "\""@ + b);
    lemma_resolved(a, z, b, "'"@);
    lemma_resolved(a, n, b, "'"@);
    lemma_joined_plain(a, "'"@, b);
    lemma_nothing_resolved(a + "'"@ + b);
    lemma_only_there(a, z, b, q, 1);
    law_nothing_to_replace(a + z + b, q, "\""@);
    lemma_only_there(a, n, b, q, 1);
    law_nothing_to_replace(a + n + b, q, "\""@);
    lemma_only_there(a, n, b, z, 2);
    law_nothing_to_replace(a + n + b, z, "'"@);
}

/// Angle brackets are resolved wherever they stand.
pub proof fn law_angle_brackets_are_decoded(a: Seq<char>, b: Seq<char>)
    requires
        holds_no_ampersand(a),
        holds_no_ampersand(b),
    ensures
        decoded(a + "&lt;"@ + b) == a + "<"@ + b,
        decoded(a + "&gt;"@ + b) == a + ">"@ + b,
{
    reveal_strlit("&quot;");
    reveal_strlit("&#039;");
    reveal_strlit("&#39;");
    reveal_strlit("&amp;");
    reveal_strlit("&lt;");
    reveal_strlit("&gt;");
    reveal_strlit("<");
    reveal_strlit(">");
    let (q, z, n, m) = ("&quot;"@, "&#039;"@, "&#39;"@, "&amp;"@);
    let (l, g) = ("&lt;"@, "&gt;"@);
    lemma_only_there(a, l, b, q, 1);
    law_nothing_to_replace(a + l + b, q, "\""@);
    lemma_only_there(a, l, b, z, 1);
    law_nothing_to_replace(a + l + b, z, "'"@);
    lemma_only_there(a, l, b, n, 1);
    law_nothing_to_replace(a + l + b, n, "'"@);
    lemma_only_there(a, l, b, m, 1);
    law_nothing_to_replace(a + l + b, m, "&"@);
    lemma_resolved(a, l, b, "<"@);
    lemma_joined_plain(a, "<"@, b);
    lemma_nothing_resolved(a + "<"@ + b);
    lemma_only_there(a, g, b, q, 1);
    law_nothing_to_replace(a + g + b, q, "\""@);
    lemma_only_there(a, g, b, z, 1);
    law_nothing_to_replace(a + g + b, z, "'"@);
    lemma_only_there(a, g, b, n, 1);
    law_nothing_to_replace(a + g + b, n, "'"@);
    lemma_only_there(a, g, b, m, 1);
    law_nothing_to_replace(a + g + b, m, "&"@);
    lemma_only_there(a, g, b, l, 1);
    law_nothing_to_replace(a + g + b, l, "<"@);
    lemma_resolved(a, g, b, ">"@);
}

/// An ampersand is resolved wherever it stands. What stands behind it may make
/// an angle bracket of it, and then becomes one.
pub proof fn law_ampersands_are_decoded(a: Seq<char>, b: Seq<char>)
    requires
        holds_no_ampersand(a),
        holds_no_ampersand(b),
        b.len() > 0 ==> b[0] != 'l' && b[0] != 'g',
    ensures
        decoded(a + "&amp;"@ + b) == a + "&"@ + b,
        decoded(a + "&amp;lt;"@ + b) == a + "<"@ + b,
{
    reveal_strlit("&quot;");
    reveal_strlit("&#039;");
    reveal_strlit("&#39;");
    reveal_strlit("&amp;");
    reveal_strlit("&amp;lt;");
    reveal_strlit("&lt;");
    reveal_strlit("&gt;");
    reveal_strlit("&");
    reveal_strlit("<");
    let (q, z, n, m) = ("&quot;"@, "&#039;"@, "&#39;"@, "&amp;"@);
    let (l, g) = ("&lt;"@, "&gt;"@);
    let s = a + m + b;
    lemma_only_there(a, m, b, q, 1);
    law_nothing_to_replace(s, q, "\""@);
    lemma_only_there(a, m, b, z, 1);
    law_nothing_to_replace(s, z, "'"@);
    lemma_only_there(a, m, b, n, 1);
    law_nothing_to_replace(s, n, "'"@);
    lemma_resolved(a, m, b, "&"@);
    let t = a + "&"@ + b;
    if b.len() == 0 {
        lemma_short(a, b, l);
        lemma_short(a, b, g);
    } else {
        let tail = b.drop_first();
        let two = seq!['&', b[0]];
        assert(t =~= a + two + tail);
        assert forall|i: int| 0 <= i < tail.len() implies #[trigger] tail[i] != '&' by {
            assert(tail[i] == b[i + 1]);
        }
        assert(b[0] != '&');
        lemma_only_there(a, two, tail, l, 1);
        lemma_only_there(a, two, tail, g, 1);
    }
    law_nothing_to_replace(t, l, "<"@);
    law_nothing_to_replace(t, g, ">"@);
    let u = a + "&amp;lt;"@ + b;
    let lt = seq!['l', 't', ';'];
    let behind = lt + b;
    assert(u =~= a + m + behind);
    assert forall|i: int| 0 <= i < behind.len() implies #[trigger] behind[i] != '&' by {
        if i >= 3 {
            assert(behind[i] == b[i - 3]);
        }
    }
    lemma_only_there(a, m, behind, q, 1);
    law_nothing_to_replace(u, q, "\""@);
    lemma_only_there(a, m, behind, z, 1);
    law_nothing_to_replace(u, z, "'"@);
    lemma_only_there(a, m, behind, n, 1);
    law_nothing_to_replace(u, n, "'"@);
    lemma_resolved(a, m, behind, "&"@);
    assert(a + "&"@ + behind =~= a + l + b);
    lemma_resolved(a, l, b, "<"@);
    lemma_joined_plain(a, "<"@, b);
    lemma_nothing_resolved(a + "<"@ + b);
}

proof fn lemma_short(a: Seq<char>, b: Seq<char>, p: Seq<char>)
    requires
        holds_no_ampersand(a),
        b.len() == 0,
        p.len() > 1,
        p[0] == '&',
    ensures
        !occurs(a + "&"@ + b, p),
{
    reveal_strlit("&");
    let s = a + "&"@ + b;
    if occurs(s, p) {
        let i = choose|i: int| occurs_at(s, p, i);
        assert(s.subrange(i, i + p.len())[0] == s[i]);
        assert(s[i] == a[i]);
    }
}

/// The tag with a key is found by the key alone: every sign in it stands for
/// itself, and it is looked for before its content and behind it.
pub proof fn law_tags_are_found_by_their_key(html: Seq<char>, key: Seq<char>)
    ensures
        meta_pattern(key) == META_BEFORE_KEY@ + literal_pattern(key) + META_BETWEEN_KEYS@
            + literal_pattern(key) + META_AFTER_KEY@,
        found(meta_pattern(key), html) is None ==> meta_of(html, key) is None,
        found(meta_pattern(key), html) matches Some(groups) ==> meta_of(html, key)
            == content_of_groups(groups),
{
}

/// Each tag is read by itself: one that is missing or names another account
/// leaves its own fields unsaid, and no others.
pub proof fn law_tags_are_read_each_by_itself(username: Seq<char>, html: Seq<char>)
    ensures
        ({
            let d = if meta_of(html, "og:description"@) is Some {
                meta_of(html, "og:description"@)
            } else {
                meta_of(html, "description"@)
            };
            let named = d is Some && occurs(
                small_letters(d->0),
                "(@"@ + small_letters(username) + ")"@,
            );
            let t = meta_of(html, "og:title"@);
            let titled = t is Some && occurs(
                small_letters(t->0),
                "(@"@ + small_letters(username) + ")"@,
            );
            let r = html_fields(username, html);
            &&& !named ==> r.followers is None && r.following is None && r.posts is None
            &&& named ==> {
                let c = fields_of(found(COUNTS_PATTERN@, d->0), None, false);
                r.followers == c.followers && r.following == c.following && r.posts == c.posts
            }
            &&& !titled ==> r.full_name is None
            &&& titled ==> r.full_name == fields_of(None, Some(t->0), false).full_name
        }),
{
}

/// What a page says leaves nothing out.
pub proof fn law_fields_are_known_whole(p: HtmlProfile)
    ensures
        p.full_name is Some <==> p@.full_name is Some,
        p.full_name matches Some(s) ==> p@.full_name == Some(s@),
        p@.followers == p.followers && p@.following == p.following && p@.posts == p.posts,
        p@.is_private == p.is_private,
{
}

} // verus!
