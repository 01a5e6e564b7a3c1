//! A profile's header, as a GraphQL response carries it.

use crate::clock::{utc_now, Timestamp};
use crate::double::truncate;
use crate::feed::is_account;
use crate::json::{read_json, Json};
use crate::record::ScrapeResult;
use crate::text::{contains, parse_i64, to_lowercase};
use vstd::prelude::*;

verus! {

use crate::double::truncated;
use crate::feed::goes_by;
use crate::json::{json_of_bytes, JsonTree, NumberTree};
use crate::record::{bare_record, opt_text, RecordView};
use crate::text::{
    decimal, integer_of, law_decimal_reads_back, occurs, same_ignoring_ascii_case, small_letters,
    texts,
};

/// The fields that a profile's header is expected to have.
pub const EXPECTED_GRAPHQL_PROFILE_FIELDS: [&'static str; 6] = [
    "username",
    "full_name",
    "biography",
    "follower_count",
    "following_count",
    "media_count",
];

/// The fields that hold a count, in either spelling.
pub const COUNT_FIELDS: [&'static str; 6] = [
    "follower_count",
    "following_count",
    "media_count",
    "edge_followed_by",
    "edge_follow",
    "edge_owner_to_timeline_media",
];

// --- logged out ----------------------------------------------------------------------

/// Whether a message in small letters asks for a login.
pub open spec fn asks_for_login(lower: Seq<char>) -> bool {
    occurs(lower, "login"@) || occurs(lower, "log in"@)
}

/// Whether a message in small letters asks for a login.
pub fn message_asks_for_login(lower: &str) -> (r: bool)
    ensures
        r == asks_for_login(lower@),
{
    contains(lower, "login") || contains(lower, "log in")
}

/// Whether a response says in so many words that a login is needed.
pub open spec fn wants_login(doc: JsonTree) -> bool {
    ||| doc.field_truth("require_login"@) == Some(true)
    ||| doc.field_truth("requires_login"@) == Some(true)
    ||| match doc.field_text("message"@) {
        Some(m) => asks_for_login(small_letters(m)),
        None => false,
    }
}

fn requires_login(doc: &Json) -> (r: bool)
    ensures
        r == wants_login(doc@),
{
    if let Some(flag) = doc.get_bool("require_login") {
        if flag {
            return true;
        }
    }
    if let Some(flag) = doc.get_bool("requires_login") {
        if flag {
            return true;
        }
    }
    if let Some(message) = doc.get_str("message") {
        let lower = to_lowercase(message.as_str());
        return message_asks_for_login(lower.as_str());
    }
    false
}

// --- finding the header --------------------------------------------------------------

/// A document and everything in it, in the order in which a walk meets it that
/// goes on with the last thing it put off.
pub open spec fn walk(t: JsonTree) -> Seq<JsonTree>
    decreases t, 0nat,
{
    match t {
        JsonTree::List(items) => {
            proof {
                assert(decreases_to!(t => t->List_0));
            }
            seq![t] + walk_back(items, items.len())
        },
        JsonTree::Table(entries) => {
            proof {
                assert(decreases_to!(t => t->Table_0));
            }
            seq![t] + walk_entries(entries, entries.len())
        },
        _ => seq![t],
    }
}

/// The walks over the first `n` documents, the last of them first.
pub open spec fn walk_back(items: Seq<JsonTree>, n: nat) -> Seq<JsonTree>
    decreases items, n,
{
    if n == 0 || n > items.len() {
        Seq::empty()
    } else {
        proof {
            assert(decreases_to!(items => items[n - 1]));
        }
        walk(items[n - 1]) + walk_back(items, (n - 1) as nat)
    }
}

/// The walks over the values of the first `n` entries, the last of them first.
pub open spec fn walk_entries(entries: Seq<(Seq<char>, JsonTree)>, n: nat) -> Seq<JsonTree>
    decreases entries, n,
{
    if n == 0 || n > entries.len() {
        Seq::empty()
    } else {
        proof {
            assert(decreases_to!(entries => entries[n - 1]));
            assert(decreases_to!(entries[n - 1] => entries[n - 1].1));
        }
        walk(entries[n - 1].1) + walk_entries(entries, (n - 1) as nat)
    }
}

/// How many of the first `n` expected fields a document has.
pub open spec fn fields_present(t: JsonTree, n: nat) -> nat
    decreases n,
{
    if n == 0 {
        0
    } else if t.has_value(EXPECTED_GRAPHQL_PROFILE_FIELDS[n - 1]@) {
        fields_present(t, (n - 1) as nat) + 1
    } else {
        fields_present(t, (n - 1) as nat)
    }
}

/// Whether a document has a count.
pub open spec fn has_counts(t: JsonTree) -> bool {
    exists|i: int| 0 <= i < 6 && t.has_value(#[trigger] COUNT_FIELDS[i]@)
}

/// Whether a document may be the header of the account: it goes by the
/// username and has a count. A post's mention of an account has none.
pub open spec fn is_header(t: JsonTree, username: Seq<char>) -> bool {
    goes_by(t, username) && has_counts(t)
}

/// The first of the first `n` documents that may be the header and has most of
/// the expected fields.
pub open spec fn fullest(nodes: Seq<JsonTree>, username: Seq<char>, n: nat) -> Option<JsonTree>
    decreases n,
{
    if n == 0 {
        None
    } else {
        let before = fullest(nodes, username, (n - 1) as nat);
        let t = nodes[n - 1];
        if !is_header(t, username) {
            before
        } else {
            match before {
                Some(b) => if fields_present(t, 6) > fields_present(b, 6) {
                    Some(t)
                } else {
                    before
                },
                None => Some(t),
            }
        }
    }
}

/// The header of the account in a document.
pub open spec fn header(doc: JsonTree, username: Seq<char>) -> Option<JsonTree> {
    fullest(walk(doc), username, walk(doc).len())
}

/// The trees of documents that are looked at.
spec fn seen(stack: Seq<&Json>) -> Seq<JsonTree> {
    Seq::new(stack.len(), |i: int| stack[i]@)
}

proof fn lemma_walk_back_prefix(a: Seq<JsonTree>, b: Seq<JsonTree>, n: nat)
    requires
        n <= a.len(),
        n <= b.len(),
        forall|i: int| 0 <= i < n ==> a[i] == b[i],
    ensures
        walk_back(a, n) == walk_back(b, n),
    decreases n,
{
    if n > 0 {
        lemma_walk_back_prefix(a, b, (n - 1) as nat);
    }
}

/// What is put on top of the stack is walked first.
proof fn lemma_walk_pushed(stack: Seq<JsonTree>, t: JsonTree)
    ensures
        walk_back(stack.push(t), stack.len() + 1) == walk(t) + walk_back(stack, stack.len()),
{
    lemma_walk_back_prefix(stack.push(t), stack, stack.len());
}

fn count_present(t: &Json) -> (r: usize)
    ensures
        r == fields_present(t@, 6),
        r <= 6,
{
    let mut score: usize = 0;
    let mut i: usize = 0;
    while i < 6
        invariant
            i <= 6,
            score <= i,
            score == fields_present(t@, i as nat),
        decreases 6 - i,
    {
        if t.holds_value(EXPECTED_GRAPHQL_PROFILE_FIELDS[i]) {
            score += 1;
        }
        i += 1;
    }
    score
}

fn holds_counts(t: &Json) -> (r: bool)
    ensures
        r == has_counts(t@),
{
    let mut i: usize = 0;
    while i < 6
        invariant
            i <= 6,
            forall|k: int| 0 <= k < i ==> !t@.has_value(#[trigger] COUNT_FIELDS[k]@),
        decreases 6 - i,
    {
        if t.holds_value(COUNT_FIELDS[i]) {
            return true;
        }
        i += 1;
    }
    false
}

fn find_user_object<'a>(doc: &'a Json, username: &str) -> (r: Option<&'a Json>)
    ensures
        match r {
            Some(v) => header(doc@, username@) == Some(v@),
            None => header(doc@, username@) is None,
        },
{
    let mut best: Option<(usize, &'a Json)> = None;
    let mut stack: Vec<&'a Json> = Vec::new();
    stack.push(doc);
    let ghost all = walk(doc@);
    let ghost mut done = Seq::<JsonTree>::empty();
    proof {
        assert(seen(stack@) =~= Seq::<JsonTree>::empty().push(doc@));
        lemma_walk_pushed(Seq::empty(), doc@);
        assert(all =~= done + walk_back(seen(stack@), stack@.len()));
    }
    while stack.len() > 0
        invariant
            all == walk(doc@),
            all == done + walk_back(seen(stack@), stack@.len()),
            match best {
                Some((score, v)) => {
                    &&& fullest(all, username@, done.len()) == Some(v@)
                    &&& score == fields_present(v@, 6)
                },
                None => fullest(all, username@, done.len()) is None,
            },
        decreases walk_back(seen(stack@), stack@.len()).len(),
    {
        let ghost before = seen(stack@);
        let v: &'a Json = match stack.pop() {
            Some(v) => v,
            None => {
                return None;
            },
        };
        let ghost base = seen(stack@);
        let ghost left = walk_back(base, base.len());
        proof {
            assert(before =~= base.push(v@));
            lemma_walk_pushed(base, v@);
            assert(all[done.len() as int] == v@);
        }
        if is_account(v, username) && holds_counts(v) {
            let score: usize = count_present(v);
            let better = match best {
                Some((s, _)) => score > s,
                None => true,
            };
            if better {
                best = Some((score, v));
            }
        }
        let ghost rest = walk(v@).drop_first() + left;
        match v {
            Json::Table(entries) => {
                let ghost values = v@->Table_0;
                let mut i: usize = 0;
                while i < entries.len()
                    invariant
                        0 <= i <= entries@.len() == values.len(),
                        v@ == Json::Table(*entries)@,
                        v@ == JsonTree::Table(values),
                        walk_back(seen(stack@), stack@.len()) == walk_entries(values, i as nat)
                            + left,
                    decreases entries@.len() - i,
                {
                    let ghost low = seen(stack@);
                    assert(values[i as int] == (entries@[i as int].0@, entries@[i as int].1@));
                    stack.push(&entries[i].1);
                    proof {
                        assert(seen(stack@) =~= low.push(values[i as int].1));
                        lemma_walk_pushed(low, values[i as int].1);
                    }
                    i += 1;
                }
                assert(rest =~= walk_entries(values, values.len()) + left);
            },
            Json::List(items) => {
                let ghost values = v@->List_0;
                let mut i: usize = 0;
                while i < items.len()
                    invariant
                        0 <= i <= items@.len() == values.len(),
                        v@ == Json::List(*items)@,
                        v@ == JsonTree::List(values),
                        walk_back(seen(stack@), stack@.len()) == walk_back(values, i as nat)
                            + left,
                    decreases items@.len() - i,
                {
                    let ghost low = seen(stack@);
                    assert(values[i as int] == items@[i as int]@);
                    stack.push(&items[i]);
                    proof {
                        assert(seen(stack@) =~= low.push(values[i as int]));
                        lemma_walk_pushed(low, values[i as int]);
                    }
                    i += 1;
                }
                assert(rest =~= walk_back(values, values.len()) + left);
            },
            _ => {
                assert(rest =~= left);
            },
        }
        proof {
            assert(all =~= done.push(v@) + rest);
            done = done.push(v@);
        }
    }
    proof {
        assert(all =~= done);
    }
    match best {
        Some((_, v)) => Some(v),
        None => None,
    }
}

// --- reading the header --------------------------------------------------------------

/// A whole number: a number, cut to a whole one, or a text of one.
pub open spec fn whole_number(v: JsonTree) -> Option<i64> {
    match v {
        JsonTree::Number(n) => match n.int {
            Some(i) => Some(i),
            None => match n.bits {
                Some(bits) => Some(truncated(bits)),
                None => None,
            },
        },
        JsonTree::Text(s) => integer_of(s),
        _ => None,
    }
}

/// What is found under one spelling of a count, where something is: a number
/// itself, of which only one in the range of `i64` counts, or the `count` of a
/// table.
pub open spec fn count_at(user: JsonTree, key: Seq<char>) -> Option<Option<i64>> {
    match user.field(key) {
        Some(JsonTree::Number(n)) => Some(n.int),
        Some(JsonTree::Table(entries)) => match JsonTree::Table(entries).field("count"@) {
            Some(v) => match whole_number(v) {
                Some(c) => Some(Some(c)),
                None => None,
            },
            None => None,
        },
        _ => None,
    }
}

/// A count that is spelled flat or nested.
pub open spec fn count_of(user: JsonTree, flat: Seq<char>, nested: Seq<char>) -> Option<i64> {
    match count_at(user, flat) {
        Some(c) => c,
        None => match count_at(user, nested) {
            Some(c) => c,
            None => None,
        },
    }
}

fn nav_int(v: &Json) -> (r: Option<i64>)
    ensures
        r == whole_number(v@),
{
    match v {
        Json::Number(n) => match n.int {
            Some(i) => Some(i),
            None => match n.bits {
                Some(bits) => Some(truncate(bits)),
                None => None,
            },
        },
        Json::Text(s) => parse_i64(s.as_str()),
        _ => None,
    }
}

fn count_under(user: &Json, key: &str) -> (r: Option<Option<i64>>)
    ensures
        r == count_at(user@, key@),
{
    match user.get(key) {
        Some(v) => match v {
            Json::Number(n) => Some(n.int),
            Json::Table(_) => match v.get("count") {
                Some(c) => match nav_int(c) {
                    Some(i) => Some(Some(i)),
                    None => None,
                },
                None => None,
            },
            _ => None,
        },
        None => None,
    }
}

fn profile_count(user: &Json, flat: &str, nested: &str) -> (r: Option<i64>)
    ensures
        r == count_of(user@, flat@, nested@),
{
    match count_under(user, flat) {
        Some(c) => c,
        None => match count_under(user, nested) {
            Some(c) => c,
            None => None,
        },
    }
}

/// An id as a text; empty where it is neither a text nor a number.
pub open spec fn id_or_empty(v: Option<JsonTree>) -> Seq<char> {
    match v {
        Some(JsonTree::Text(s)) => s,
        Some(JsonTree::Number(n)) => n.text,
        _ => Seq::empty(),
    }
}

fn id_field(user: &Json, key: &str) -> (r: String)
    ensures
        r@ == id_or_empty(user@.field(key@)),
{
    let none = String::new();
    assert(none@ =~= Seq::<char>::empty());
    match user.get(key) {
        Some(v) => match v {
            Json::Text(s) => s.clone(),
            Json::Number(n) => n.text.clone(),
            _ => none,
        },
        None => none,
    }
}

/// What the header of a profile says.
pub struct ProfileView {
    pub user_id: Seq<char>,
    pub full_name: Option<Seq<char>>,
    pub biography: Option<Seq<char>>,
    pub is_private: Option<bool>,
    pub followers: Option<i64>,
    pub following: Option<i64>,
    pub posts: Option<i64>,
}

/// What a header says.
pub open spec fn header_view(user: JsonTree) -> ProfileView {
    ProfileView {
        user_id: if id_or_empty(user.field("pk"@)).len() > 0 {
            id_or_empty(user.field("pk"@))
        } else {
            id_or_empty(user.field("id"@))
        },
        full_name: user.field_text("full_name"@),
        biography: user.field_text("biography"@),
        is_private: user.field_truth("is_private"@),
        followers: count_of(user, "follower_count"@, "edge_followed_by"@),
        following: count_of(user, "following_count"@, "edge_follow"@),
        posts: count_of(user, "media_count"@, "edge_owner_to_timeline_media"@),
    }
}

/// Which of the first `n` expected fields a header lacks.
pub open spec fn absent_fields(user: JsonTree, n: nat) -> Seq<Seq<char>>
    decreases n,
{
    if n == 0 {
        Seq::empty()
    } else if user.has_value(EXPECTED_GRAPHQL_PROFILE_FIELDS[n - 1]@) {
        absent_fields(user, (n - 1) as nat)
    } else {
        absent_fields(user, (n - 1) as nat).push(EXPECTED_GRAPHQL_PROFILE_FIELDS[n - 1]@)
    }
}

fn missing_fields(user: &Json) -> (r: Vec<String>)
    ensures
        texts(r@) == absent_fields(user@, 6),
{
    let mut missing: Vec<String> = Vec::new();
    let mut i: usize = 0;
    assert(texts(missing@) =~= absent_fields(user@, 0));
    while i < 6
        invariant
            i <= 6,
            texts(missing@) == absent_fields(user@, i as nat),
        decreases 6 - i,
    {
        if !user.holds_value(EXPECTED_GRAPHQL_PROFILE_FIELDS[i]) {
            let ghost before = missing@;
            let name = EXPECTED_GRAPHQL_PROFILE_FIELDS[i].to_owned();
            missing.push(name);
            assert(texts(missing@) =~= texts(before).push(name@));
        }
        i += 1;
    }
    missing
}

/// A header that was read, or the finding that a login is needed.
#[derive(Debug)]
pub struct ParsedProfile {
    pub result: Option<ScrapeResult>,
    /// The expected fields that the header lacks.
    pub missing: Vec<String>,
    pub requires_login: bool,
}

/// Why a response gave no profile.
#[derive(Debug)]
pub enum ProfileError {
    /// It is no JSON, for the reason given.
    Json(String),
    NoProfile,
}

/// Why a response gives no profile.
pub enum ProfileFault {
    Json(Seq<char>),
    NoProfile,
}

impl View for ProfileError {
    type V = ProfileFault;

    open spec fn view(&self) -> ProfileFault {
        match self {
            ProfileError::Json(m) => ProfileFault::Json(m@),
            ProfileError::NoProfile => ProfileFault::NoProfile,
        }
    }
}

impl ProfileFault {
    /// The message that is logged.
    pub open spec fn text(self) -> Seq<char> {
        match self {
            ProfileFault::Json(m) => m,
            ProfileFault::NoProfile => "no profile object in response"@,
        }
    }
}

impl ProfileError {
    pub fn message(&self) -> (r: String)
        ensures
            r@ == self@.text(),
    {
        match self {
            ProfileError::Json(m) => m.clone(),
            ProfileError::NoProfile => "no profile object in response".to_owned(),
        }
    }
}

/// What is to be read from a response.
pub enum Reading {
    Login,
    Header(JsonTree),
}

/// What is to be read from a response about an account.
pub open spec fn reading_of(doc: JsonTree, username: Seq<char>) -> Result<Reading, ProfileFault> {
    if wants_login(doc) {
        Ok(Reading::Login)
    } else {
        match header(doc, username) {
            Some(user) => Ok(Reading::Header(user)),
            None => Err(ProfileFault::NoProfile),
        }
    }
}

/// What is to be read from the bytes of a response about an account.
pub open spec fn reading_of_bytes(raw: Seq<u8>, username: Seq<char>) -> Result<
    Reading,
    ProfileFault,
> {
    match json_of_bytes(raw) {
        Ok(doc) => reading_of(doc, username),
        Err(m) => Err(ProfileFault::Json(m)),
    }
}

/// What a record says of an account that says what its header says, and no
/// more.
pub open spec fn told(username: Seq<char>, v: ProfileView, now: Timestamp) -> RecordView {
    RecordView {
        user_id: v.user_id,
        full_name: v.full_name,
        biography: v.biography,
        is_private: v.is_private,
        followers: v.followers,
        following: v.following,
        posts: v.posts,
        ..bare_record(username, "graphql"@, now)
    }
}

impl ParsedProfile {
    /// Whether this is what is to be read.
    pub open spec fn shows(self, username: Seq<char>, reading: Reading) -> bool {
        match reading {
            Reading::Login => {
                &&& self.requires_login
                &&& self.result is None
                &&& self.missing@ == Seq::<String>::empty()
            },
            Reading::Header(user) => {
                &&& !self.requires_login
                &&& texts(self.missing@) == absent_fields(user, 6)
                &&& self.result is Some
                &&& self.result->0@ == told(
                    username,
                    header_view(user),
                    self.result->0.scraped_at,
                )
            },
        }
    }
}

fn copied(s: Option<&String>) -> (r: Option<String>)
    ensures
        opt_text(r) == match s {
            Some(t) => Some(t@),
            None => None,
        },
{
    match s {
        Some(t) => Some(t.clone()),
        None => None,
    }
}

/// Reads the header of an account from a response, at `now`.
pub fn profile_from_json(username: &str, doc: &Json, now: Timestamp) -> (r: Result<
    ParsedProfile,
    ProfileError,
>)
    ensures
        match r {
            Ok(p) => {
                &&& reading_of(doc@, username@) is Ok
                &&& p.shows(username@, reading_of(doc@, username@)->Ok_0)
                &&& p.result matches Some(record) ==> record.scraped_at == now
            },
            Err(e) => reading_of(doc@, username@) == Err::<Reading, ProfileFault>(e@),
        },
{
    if requires_login(doc) {
        return Ok(ParsedProfile { result: None, missing: Vec::new(), requires_login: true });
    }
    let user = match find_user_object(doc, username) {
        Some(user) => user,
        None => {
            return Err(ProfileError::NoProfile);
        },
    };
    let missing = missing_fields(user);
    let mut record = ScrapeResult::new_at(username, "graphql", now);
    let pk = id_field(user, "pk");
    record.user_id =
    if pk.as_str().is_empty() {
        id_field(user, "id")
    } else {
        pk
    };
    record.full_name = copied(user.get_str("full_name"));
    record.biography = copied(user.get_str("biography"));
    record.is_private = user.get_bool("is_private");
    record.followers = profile_count(user, "follower_count", "edge_followed_by");
    record.following = profile_count(user, "following_count", "edge_follow");
    record.posts = profile_count(user, "media_count", "edge_owner_to_timeline_media");
    Ok(ParsedProfile { result: Some(record), missing, requires_login: false })
}

/// Reads the header of an account from the bytes of a response.
///
/// The header is looked for in the whole document, because its place in it
/// changes. The fields that are expected and not there are listed, so that a
/// miss on every profile can raise an alert.
pub fn parse_graphql_profile(username: &str, raw: &[u8]) -> (r: Result<
    ParsedProfile,
    ProfileError,
>)
    ensures
        match r {
            Ok(p) => {
                &&& reading_of_bytes(raw@, username@) is Ok
                &&& p.shows(username@, reading_of_bytes(raw@, username@)->Ok_0)
                &&& p.result matches Some(record) ==> record.scraped_at.wf()
            },
            Err(e) => reading_of_bytes(raw@, username@) == Err::<Reading, ProfileFault>(e@),
        },
{
    match read_json(raw) {
        Ok(doc) => {
            let now = utc_now();
            profile_from_json(username, &doc, now)
        },
        Err(m) => Err(ProfileError::Json(m)),
    }
}

// --- laws ----------------------------------------------------------------------------

proof fn lemma_fullest_is_a_header(nodes: Seq<JsonTree>, username: Seq<char>, n: nat)
    requires
        n <= nodes.len(),
    ensures
        fullest(nodes, username, n) matches Some(t) ==> is_header(t, username) && nodes.contains(
            t,
        ),
        forall|i: int|
            0 <= i < n && is_header(#[trigger] nodes[i], username) ==> (fullest(
                nodes,
                username,
                n,
            ) matches Some(t) && fields_present(nodes[i], 6) <= fields_present(t, 6)),
    decreases n,
{
    if n > 0 {
        lemma_fullest_is_a_header(nodes, username, (n - 1) as nat);
        assert(nodes.contains(nodes[n - 1]));
    }
}

/// A header is never someone else's: what is read as the header of an account
/// is a part of the response, goes by the account's username and has a count.
pub proof fn law_header_is_the_accounts_own(doc: JsonTree, username: Seq<char>)
    ensures
        header(doc, username) matches Some(user) ==> {
            &&& walk(doc).contains(user)
            &&& goes_by(user, username)
            &&& has_counts(user)
        },
{
    lemma_fullest_is_a_header(walk(doc), username, walk(doc).len());
}

/// No part of a response that may be the header has more of the expected
/// fields than the one that is read, and where there is such a part one is
/// read.
pub proof fn law_header_is_the_fullest(doc: JsonTree, username: Seq<char>, t: JsonTree)
    requires
        walk(doc).contains(t),
        goes_by(t, username),
        has_counts(t),
    ensures
        header(doc, username) matches Some(user) && fields_present(t, 6) <= fields_present(
            user,
            6,
        ),
{
    lemma_fullest_is_a_header(walk(doc), username, walk(doc).len());
    let i = choose|i: int| 0 <= i < walk(doc).len() && walk(doc)[i] == t;
    assert(is_header(walk(doc)[i], username));
}

/// Whether a document says anything under the key.
pub open spec fn says(t: JsonTree, key: Seq<char>) -> bool {
    t.field(key) is Some && t.field(key) != Some(JsonTree::Null)
}

/// A document may be the header only with one of the six spellings of a count.
pub proof fn law_headers_have_a_count(t: JsonTree)
    ensures
        has_counts(t) <==> (says(t, "follower_count"@) || says(t, "following_count"@) || says(
            t,
            "media_count"@,
        ) || says(t, "edge_followed_by"@) || says(t, "edge_follow"@) || says(
            t,
            "edge_owner_to_timeline_media"@,
        )),
{
    assert(t.has_value(COUNT_FIELDS[0]@) == says(t, "follower_count"@));
    assert(t.has_value(COUNT_FIELDS[1]@) == says(t, "following_count"@));
    assert(t.has_value(COUNT_FIELDS[2]@) == says(t, "media_count"@));
    assert(t.has_value(COUNT_FIELDS[3]@) == says(t, "edge_followed_by"@));
    assert(t.has_value(COUNT_FIELDS[4]@) == says(t, "edge_follow"@));
    assert(t.has_value(COUNT_FIELDS[5]@) == says(t, "edge_owner_to_timeline_media"@));
}

/// The key alone, where a document says nothing under it.
pub open spec fn if_unsaid(t: JsonTree, key: Seq<char>) -> Seq<Seq<char>> {
    if says(t, key) {
        Seq::empty()
    } else {
        seq![key]
    }
}

/// What a header lacks is listed in full and in a fixed order, and what it has
/// and what it lacks are together the six expected fields.
pub proof fn law_every_missing_field_is_listed(t: JsonTree)
    ensures
        absent_fields(t, 6) == if_unsaid(t, "username"@) + if_unsaid(t, "full_name"@) + if_unsaid(
            t,
            "biography"@,
        ) + if_unsaid(t, "follower_count"@) + if_unsaid(t, "following_count"@) + if_unsaid(
            t,
            "media_count"@,
        ),
        fields_present(t, 6) + absent_fields(t, 6).len() == 6,
{
    reveal_with_fuel(absent_fields, 7);
    reveal_with_fuel(fields_present, 7);
    assert(absent_fields(t, 6) =~= if_unsaid(t, "username"@) + if_unsaid(t, "full_name"@)
        + if_unsaid(t, "biography"@) + if_unsaid(t, "follower_count"@) + if_unsaid(
        t,
        "following_count"@,
    ) + if_unsaid(t, "media_count"@));
}

/// A header is read field by field. The id is that under `pk`, or else that
/// under `id`; counts may be spelled in either of two ways.
pub proof fn law_header_is_read_field_by_field(user: JsonTree)
    ensures
        forall|s: Seq<char>| #[trigger]
            text_is(header_view(user).full_name, s) <==> user.field("full_name"@) == Some(
                JsonTree::Text(s),
            ),
        forall|s: Seq<char>| #[trigger]
            text_is(header_view(user).biography, s) <==> user.field("biography"@) == Some(
                JsonTree::Text(s),
            ),
        user.field("is_private"@) matches Some(JsonTree::Bool(b)) ==> header_view(user).is_private
            == Some(b),
        !(user.field("is_private"@) matches Some(JsonTree::Bool(_))) ==> header_view(
            user,
        ).is_private is None,
        user.field("pk"@) matches Some(JsonTree::Text(s)) && s.len() > 0 ==> header_view(
            user,
        ).user_id == user.field("pk"@)->0->Text_0,
        user.field("pk"@) matches Some(JsonTree::Number(n)) && n.text.len() > 0 ==> header_view(
            user,
        ).user_id == user.field("pk"@)->0->Number_0.text,
        !says(user, "pk"@) && (user.field("id"@) matches Some(JsonTree::Text(_))) ==> header_view(
            user,
        ).user_id == user.field("id"@)->0->Text_0,
        !says(user, "pk"@) && (user.field("id"@) matches Some(JsonTree::Number(_)))
            ==> header_view(user).user_id == user.field("id"@)->0->Number_0.text,
        !says(user, "pk"@) && !says(user, "id"@) ==> header_view(user).user_id.len() == 0,
        header_view(user).followers == count_of(user, "follower_count"@, "edge_followed_by"@),
        header_view(user).following == count_of(user, "following_count"@, "edge_follow"@),
        header_view(user).posts == count_of(
            user,
            "media_count"@,
            "edge_owner_to_timeline_media"@,
        ),
{
    assert forall|s: Seq<char>| #[trigger] text_is(header_view(user).full_name, s) <==> user.field(
        "full_name"@,
    ) == Some(JsonTree::Text(s)) by {}
    assert forall|s: Seq<char>| #[trigger] text_is(header_view(user).biography, s) <==> user.field(
        "biography"@,
    ) == Some(JsonTree::Text(s)) by {}
}

/// Whether an optional text is this one.
pub open spec fn text_is(o: Option<Seq<char>>, s: Seq<char>) -> bool {
    o == Some(s)
}

/// A count is a number under its flat spelling, or else the `count` of a table
/// there, or else either of them under its nested spelling.
pub proof fn law_counts_are_flat_or_nested(
    user: JsonTree,
    flat: Seq<char>,
    nested: Seq<char>,
    n: NumberTree,
    i: i64,
)
    requires
        n.int == Some(i),
    ensures
        user.field(flat) == Some(JsonTree::Number(n)) ==> count_of(user, flat, nested) == Some(i),
        (user.field(flat) matches Some(t) && t is Table && t.field("count"@) == Some(
            JsonTree::Number(n),
        )) ==> count_of(user, flat, nested) == Some(i),
        (user.field(flat) matches Some(t) && t is Table && t.field("count"@) == Some(
            JsonTree::Text(decimal(i as int)),
        )) ==> count_of(user, flat, nested) == Some(i),
        !says(user, flat) && user.field(nested) == Some(JsonTree::Number(n)) ==> count_of(
            user,
            flat,
            nested,
        ) == Some(i),
        !says(user, flat) && (user.field(nested) matches Some(t) && t is Table && t.field("count"@)
            == Some(JsonTree::Number(n))) ==> count_of(user, flat, nested) == Some(i),
        !says(user, flat) && !says(user, nested) ==> count_of(user, flat, nested) is None,
{
    law_decimal_reads_back(i);
}

/// A fraction is cut, and a text that writes no integer counts for nothing.
pub proof fn law_counts_are_whole(n: NumberTree, bits: u64, s: Seq<char>)
    ensures
        n.int is None && n.bits == Some(bits) ==> whole_number(JsonTree::Number(n)) == Some(
            truncated(bits),
        ),
        whole_number(JsonTree::Text(s)) == integer_of(s),
        whole_number(JsonTree::Null) is None,
{
}

/// A response asks for a login exactly when one of two flags is true or its
/// message speaks of logging in; and then nothing else is read.
pub proof fn law_login_is_asked_for_in_words(doc: JsonTree, username: Seq<char>)
    ensures
        wants_login(doc) <==> (doc.field("require_login"@) == Some(JsonTree::Bool(true))
            || doc.field("requires_login"@) == Some(JsonTree::Bool(true)) || (doc.field(
            "message"@,
        ) matches Some(JsonTree::Text(m)) && (occurs(small_letters(m), "login"@) || occurs(
            small_letters(m),
            "log in"@,
        )))),
        wants_login(doc) ==> reading_of(doc, username) == Ok::<Reading, ProfileFault>(
            Reading::Login,
        ),
        !wants_login(doc) ==> (reading_of(doc, username) matches Ok(Reading::Header(user))
            <==> header(doc, username) is Some),
        !wants_login(doc) && header(doc, username) is None ==> reading_of(doc, username) == Err::<
            Reading,
            ProfileFault,
        >(ProfileFault::NoProfile),
        reading_of(doc, username) matches Ok(Reading::Header(user)) ==> header(doc, username)
            == Some(user),
{
}

/// A walk meets a document and then everything in it, the last of it first.
pub proof fn law_walk_meets_everything(
    items: Seq<JsonTree>,
    entries: Seq<(Seq<char>, JsonTree)>,
    key: Seq<char>,
    t: JsonTree,
    s: Seq<char>,
)
    ensures
        walk(JsonTree::List(items.push(t))).drop_first() == walk(t) + walk(
            JsonTree::List(items),
        ).drop_first(),
        walk(JsonTree::Table(entries.push((key, t)))).drop_first() == walk(t) + walk(
            JsonTree::Table(entries),
        ).drop_first(),
        walk(JsonTree::List(items))[0] == JsonTree::List(items),
        walk(JsonTree::Table(entries))[0] == JsonTree::Table(entries),
        walk(JsonTree::List(Seq::empty())).len() == 1,
        walk(JsonTree::Table(Seq::empty())).len() == 1,
        walk(JsonTree::Text(s)) == seq![JsonTree::Text(s)],
{
    let more = items.push(t);
    lemma_walk_back_prefix(more, items, items.len());
    assert(walk(JsonTree::List(more)).drop_first() =~= walk_back(more, more.len()));
    assert(walk(JsonTree::List(items)).drop_first() =~= walk_back(items, items.len()));
    let rows = entries.push((key, t));
    lemma_walk_entries_prefix(rows, entries, entries.len());
    assert(walk(JsonTree::Table(rows)).drop_first() =~= walk_entries(rows, rows.len()));
    assert(walk(JsonTree::Table(entries)).drop_first() =~= walk_entries(entries, entries.len()));
    assert(rows[entries.len() as int] == (key, t));
}

proof fn lemma_walk_entries_prefix(
    a: Seq<(Seq<char>, JsonTree)>,
    b: Seq<(Seq<char>, JsonTree)>,
    n: nat,
)
    requires
        n <= a.len(),
        n <= b.len(),
        forall|i: int| 0 <= i < n ==> a[i] == b[i],
    ensures
        walk_entries(a, n) == walk_entries(b, n),
    decreases n,
{
    if n > 0 {
        lemma_walk_entries_prefix(a, b, (n - 1) as nat);
    }
}

/// Whether a document may be the header of the account: it goes by the username
/// and says a count.
pub open spec fn could_be_header(t: JsonTree, username: Seq<char>) -> bool {
    (t.field("username"@) matches Some(JsonTree::Text(name)) && same_ignoring_ascii_case(
        name,
        username,
    )) && has_counts(t)
}

/// Whether the part at this place has more of the expected fields than any
/// possible header before it and as many as any behind it.
pub open spec fn is_first_fullest(
    nodes: Seq<JsonTree>,
    username: Seq<char>,
    n: nat,
    k: int,
) -> bool {
    &&& 0 <= k < n
    &&& could_be_header(nodes[k], username)
    &&& forall|i: int|
        0 <= i < k && could_be_header(#[trigger] nodes[i], username) ==> fields_present(nodes[i], 6)
            < fields_present(nodes[k], 6)
    &&& forall|i: int|
        k <= i < n && could_be_header(#[trigger] nodes[i], username) ==> fields_present(nodes[i], 6)
            <= fields_present(nodes[k], 6)
}

proof fn lemma_first_fullest(nodes: Seq<JsonTree>, username: Seq<char>, n: nat) -> (k: int)
    requires
        n <= nodes.len(),
    ensures
        match fullest(nodes, username, n) {
            Some(t) => is_first_fullest(nodes, username, n, k) && nodes[k] == t,
            None => forall|i: int|
                0 <= i < n ==> !could_be_header(#[trigger] nodes[i], username),
        },
    decreases n,
{
    if n == 0 {
        0
    } else {
        let k = lemma_first_fullest(nodes, username, (n - 1) as nat);
        let t = nodes[n - 1];
        assert(is_header(t, username) == could_be_header(t, username));
        if is_header(t, username) && fullest(nodes, username, n) == Some(t) && !(fullest(
            nodes,
            username,
            (n - 1) as nat,
        ) is Some && fields_present(t, 6) <= fields_present(nodes[k], 6)) {
            n - 1
        } else {
            k
        }
    }
}

/// The header of an account is the first part of the response on the walk that
/// goes by the username, says a count and has as many of the expected fields as
/// any such part; there is none exactly when no part does.
pub proof fn law_header_is_the_first_of_the_fullest(doc: JsonTree, username: Seq<char>) -> (k: int)
    ensures
        match header(doc, username) {
            Some(t) => is_first_fullest(walk(doc), username, walk(doc).len(), k) && walk(doc)[k]
                == t,
            None => forall|i: int|
                0 <= i < walk(doc).len() ==> !could_be_header(#[trigger] walk(doc)[i], username),
        },
{
    lemma_first_fullest(walk(doc), username, walk(doc).len())
}

/// A record that a header was read into says what the header says of the
/// account, and nothing more.
pub proof fn law_record_says_what_the_header_says(
    username: Seq<char>,
    v: ProfileView,
    now: Timestamp,
)
    ensures
        ({
            let r = told(username, v, now);
            &&& r.username == username && r.source == "graphql"@ && r.scraped_at == now
            &&& r.user_id == v.user_id && r.full_name == v.full_name && r.biography == v.biography
            &&& r.is_private == v.is_private && r.followers == v.followers
            &&& r.following == v.following && r.posts == v.posts
            &&& r.recent_posts is None && r.errors.len() == 0 && r.window_days == 0
        }),
{
}

/// Each reason for which a response gives no profile is told in words of its
/// own.
pub proof fn law_unread_profiles_are_told(m: Seq<char>)
    ensures
        ProfileFault::Json(m).text() == m,
        ProfileFault::NoProfile.text() == "no profile object in response"@,
{
}

/// What is made of a response has a record and what its header lacks, or asks
/// for a login and has neither.
pub proof fn law_profiles_are_shown_whole(p: ParsedProfile, username: Seq<char>, reading: Reading)
    requires
        p.shows(username, reading),
    ensures
        p.requires_login <==> reading is Login,
        p.result is Some <==> reading is Header,
        reading is Login ==> p.missing@.len() == 0,
        reading matches Reading::Header(user) ==> {
            let r = p.result->0@;
            &&& texts(p.missing@) == absent_fields(user, 6)
            &&& r.username == username && r.user_id == header_view(user).user_id
            &&& r.full_name == header_view(user).full_name
            &&& r.biography == header_view(user).biography
            &&& r.is_private == header_view(user).is_private
            &&& r.followers == header_view(user).followers
            &&& r.following == header_view(user).following
            &&& r.posts == header_view(user).posts
        },
{
}

} // verus!
