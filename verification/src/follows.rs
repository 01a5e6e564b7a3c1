//! The list of accounts that a profile follows.
//!
//! This is the only file that names the endpoint of that list. Scans never ask
//! it.

use crate::feed::user_id_from_feed;
use crate::json::{js_str, Json};
use crate::profile::parse_graphql_profile;
use crate::scan::FetchEnvelope;
use crate::text::{contains, decimal_text, eq_ignore_ascii_case, holds, to_lowercase};
use vstd::prelude::*;
use vstd::utf8::encode_utf8;

verus! {

use crate::feed::feed_owner_id_of_bytes;
use crate::json::{quoted, trees, JsonTree};
use crate::profile::{header_view, reading_of_bytes, Reading};
use crate::record::opt_text;
use crate::text::{
    decimal, lemma_rising_push, lists, occurs, rising, same_ignoring_ascii_case, small_letters,
    texts,
};

// --- one page ------------------------------------------------------------------------

/// One page of the list, as the endpoint gives it. What it leaves out is empty,
/// null or false here.
#[derive(Debug)]
pub struct FollowingDoc {
    pub users: Vec<Json>,
    /// A text, at times a number.
    pub next_max_id: Json,
    pub big_list: bool,
    pub status: String,
    pub message: String,
    pub require_login: bool,
    pub requires_login: bool,
}

/// One page of the list.
#[derive(Debug)]
pub struct FollowingPage {
    pub usernames: Vec<String>,
    pub next_max_id: String,
    pub more_available: bool,
    pub requires_login: bool,
}

/// What one page of the list says.
pub struct FollowingView {
    pub usernames: Seq<Seq<char>>,
    pub next_max_id: Seq<char>,
    pub more_available: bool,
    pub requires_login: bool,
}

impl View for FollowingPage {
    type V = FollowingView;

    open spec fn view(&self) -> FollowingView {
        FollowingView {
            usernames: texts(self.usernames@),
            next_max_id: self.next_max_id@,
            more_available: self.more_available,
            requires_login: self.requires_login,
        }
    }
}

/// Whether a page asks for a login, by its message in small letters.
pub open spec fn page_wants_login(doc: FollowingDoc, lower_message: Seq<char>) -> bool {
    ||| doc.require_login
    ||| doc.requires_login
    ||| occurs(lower_message, "login"@)
    ||| (same_ignoring_ascii_case(doc.status@, "fail"@) && doc.users@.len() == 0)
}

/// The usernames of the first `n` users that have one.
pub open spec fn names_of(users: Seq<JsonTree>, n: nat) -> Seq<Seq<char>>
    decreases n,
{
    if n == 0 {
        Seq::empty()
    } else {
        let before = names_of(users, (n - 1) as nat);
        match users[n - 1].field_text("username"@) {
            Some(name) => if name.len() > 0 {
                before.push(name)
            } else {
                before
            },
            None => before,
        }
    }
}

/// A cursor as a text; empty where it is neither a text nor a number.
pub open spec fn cursor_text(v: JsonTree) -> Seq<char> {
    match v {
        JsonTree::Text(s) => s,
        JsonTree::Number(n) => n.text,
        _ => Seq::empty(),
    }
}

/// What a page says, by its message in small letters.
pub open spec fn page_of(doc: FollowingDoc, lower_message: Seq<char>) -> FollowingView {
    if page_wants_login(doc, lower_message) {
        FollowingView {
            usernames: Seq::empty(),
            next_max_id: Seq::empty(),
            more_available: false,
            requires_login: true,
        }
    } else {
        FollowingView {
            usernames: names_of(trees(doc.users@), doc.users@.len()),
            next_max_id: cursor_text(doc.next_max_id@),
            more_available: cursor_text(doc.next_max_id@).len() > 0,
            requires_login: false,
        }
    }
}

/// Reads a page, by its message in small letters.
pub fn read_page(doc: &FollowingDoc, lower_message: &str) -> (r: FollowingPage)
    ensures
        r@ == page_of(*doc, lower_message@),
{
    let login = doc.require_login || doc.requires_login || contains(lower_message, "login") || (
    eq_ignore_ascii_case(doc.status.as_str(), "fail") && doc.users.len() == 0);
    let mut usernames: Vec<String> = Vec::new();
    assert(texts(usernames@) =~= Seq::<Seq<char>>::empty());
    if login {
        let next_max_id = String::new();
        assert(next_max_id@ =~= Seq::<char>::empty());
        return FollowingPage {
            usernames,
            next_max_id,
            more_available: false,
            requires_login: true,
        };
    }
    let ghost users = trees(doc.users@);
    let mut i: usize = 0;
    while i < doc.users.len()
        invariant
            0 <= i <= doc.users@.len(),
            users == trees(doc.users@),
            texts(usernames@) == names_of(users, i as nat),
        decreases doc.users@.len() - i,
    {
        assert(users[i as int] == doc.users@[i as int]@);
        if let Some(name) = doc.users[i].get_str("username") {
            if !name.as_str().is_empty() {
                let ghost before = usernames@;
                usernames.push(name.clone());
                assert(texts(usernames@) =~= texts(before).push(name@));
            }
        }
        i += 1;
    }
    let next_max_id = match &doc.next_max_id {
        Json::Text(s) => s.clone(),
        Json::Number(n) => n.text.clone(),
        _ => String::new(),
    };
    assert(next_max_id@ =~= cursor_text(doc.next_max_id@));
    let more_available = !next_max_id.as_str().is_empty();
    FollowingPage { usernames, next_max_id, more_available, requires_login: false }
}

/// Reads a page of the list.
pub fn parse_following_page(doc: &FollowingDoc) -> (r: FollowingPage)
    ensures
        r@ == page_of(*doc, small_letters(doc.message@)),
{
    let lower = to_lowercase(doc.message.as_str());
    read_page(doc, lower.as_str())
}

// --- the whole list ------------------------------------------------------------------

/// What asking for the list gave.
#[derive(Debug)]
pub struct FollowsOutcome {
    pub usernames: Vec<String>,
    pub requires_login: bool,
    pub err: Option<String>,
}

/// What asking for the list gave, in plain terms.
pub struct FollowsView {
    pub usernames: Seq<Seq<char>>,
    pub requires_login: bool,
    pub err: Option<Seq<char>>,
}

impl View for FollowsOutcome {
    type V = FollowsView;

    open spec fn view(&self) -> FollowsView {
        FollowsView {
            usernames: texts(self.usernames@),
            requires_login: self.requires_login,
            err: opt_text(self.err),
        }
    }
}

/// What asking for the list gives that gave nothing.
pub open spec fn no_follows() -> FollowsView {
    FollowsView { usernames: Seq::empty(), requires_login: false, err: None }
}

impl Default for FollowsOutcome {
    fn default() -> (r: Self)
        ensures
            r@ == no_follows(),
    {
        let r = FollowsOutcome { usernames: Vec::new(), requires_login: false, err: None };
        assert(texts(r.usernames@) =~= Seq::<Seq<char>>::empty());
        r
    }
}

impl FollowsOutcome {
    pub fn failed(e: String) -> (r: Self)
        ensures
            r@ == (FollowsView { err: Some(e@), ..no_follows() }),
    {
        let mut r = FollowsOutcome::default();
        r.err = Some(e);
        r
    }

    pub fn login() -> (r: Self)
        ensures
            r@ == (FollowsView { requires_login: true, ..no_follows() }),
    {
        let mut r = FollowsOutcome::default();
        r.requires_login = true;
        r
    }
}

/// How far the list has been read.
#[derive(Debug)]
pub struct FollowsPager {
    pub page: i64,
    pub limit: i64,
    pub cursor: String,
    pub done: bool,
    pub outcome: FollowsOutcome,
}

/// How far the list has been read, in plain terms.
pub struct FollowsState {
    pub page: int,
    pub cursor: Seq<char>,
    pub done: bool,
    pub found: FollowsView,
}

impl View for FollowsPager {
    type V = FollowsState;

    open spec fn view(&self) -> FollowsState {
        FollowsState {
            page: self.page as int,
            cursor: self.cursor@,
            done: self.done,
            found: self.outcome@,
        }
    }
}

/// After the list was given up with a message. What was read is kept.
pub open spec fn given_up(s: FollowsState, e: Seq<char>) -> FollowsState {
    FollowsState { done: true, found: FollowsView { err: Some(e), ..s.found }, ..s }
}

/// After it was found that a login is needed.
pub open spec fn logged_out(s: FollowsState) -> FollowsState {
    FollowsState { done: true, found: FollowsView { requires_login: true, ..s.found }, ..s }
}

/// After a request gave no envelope, or one that cannot be read.
pub open spec fn after_no_envelope(s: FollowsState, stage: Seq<char>, e: Seq<char>) -> FollowsState {
    given_up(s, "following_"@ + stage + "_p"@ + decimal(s.page) + ": "@ + e)
}

/// After an envelope: nothing changes where its body is a page.
pub open spec fn after_envelope(s: FollowsState, status: i64, error: Seq<char>) -> FollowsState {
    if status == 0 && error.len() > 0 {
        given_up(s, "following in-page fetch failed: "@ + error)
    } else if status == 401 || status == 403 {
        logged_out(s)
    } else if status == 429 {
        given_up(
            s,
            "following_http_429_p"@ + decimal(s.page) + " (rate limited; stopping)"@,
        )
    } else if status >= 400 {
        given_up(s, "following_http_"@ + decimal(status as int) + "_p"@ + decimal(s.page))
    } else {
        s
    }
}

/// The names with the first `n` others added behind, but for those that are
/// there already.
pub open spec fn with_names(have: Seq<Seq<char>>, more: Seq<Seq<char>>, n: nat) -> Seq<Seq<char>>
    decreases n,
{
    if n == 0 {
        have
    } else {
        let before = with_names(have, more, (n - 1) as nat);
        if before.contains(more[n - 1]) {
            before
        } else {
            before.push(more[n - 1])
        }
    }
}

/// After a page was read.
pub open spec fn after_following(s: FollowsState, p: FollowingView) -> FollowsState {
    if p.requires_login {
        logged_out(s)
    } else {
        let found = FollowsView {
            usernames: with_names(s.found.usernames, p.usernames, p.usernames.len()),
            ..s.found
        };
        if !p.more_available || p.next_max_id.len() == 0 {
            FollowsState { done: true, found, ..s }
        } else {
            FollowsState { page: s.page + 1, cursor: p.next_max_id, found, ..s }
        }
    }
}

/// How many pages of the list are read at most: 20, where no other limit is
/// given.
pub open spec fn list_limit(max_pages: i64) -> i64 {
    if max_pages <= 0 {
        20
    } else {
        max_pages
    }
}

/// Whether an envelope holds a page to read.
pub open spec fn holds_page(status: i64, error: Seq<char>) -> bool {
    !((status == 0 && error.len() > 0) || status >= 400)
}

impl FollowsPager {
    /// Whether the pages read are within the limit.
    pub open spec fn wf(self) -> bool {
        0 <= self.page <= self.limit
    }

    /// The list has not been asked for yet. 20 pages are read at most, where
    /// no other limit is given.
    pub fn new(max_pages: i64) -> (r: Self)
        ensures
            r.wf(),
            r.limit == list_limit(max_pages),
            r@ == (FollowsState {
                page: 0,
                cursor: Seq::empty(),
                done: false,
                found: no_follows(),
            }),
    {
        let limit: i64 = if max_pages <= 0 {
            20
        } else {
            max_pages
        };
        let cursor = String::new();
        assert(cursor@ =~= Seq::<char>::empty());
        FollowsPager { page: 0, limit, cursor, done: false, outcome: FollowsOutcome::default() }
    }

    /// Whether another page is to be asked for.
    pub open spec fn wants(self) -> bool {
        !self.done && self.page < self.limit
    }

    pub fn wants_page(&self, stop: bool) -> (r: bool)
        ensures
            r == (self.wants() && !stop),
    {
        !stop && !self.done && self.page < self.limit
    }

    /// Whether the list was left before its end was reached: its names are then
    /// not all there.
    pub fn cut_short(&self) -> (r: bool)
        ensures
            r == !self.done,
    {
        !self.done
    }

    /// Whether to pause before asking: between two pages.
    pub fn pauses(&self) -> (r: bool)
        ensures
            r == (self.page > 0),
    {
        self.page > 0
    }

    fn give_up(&mut self, e: String)
        ensures
            final(self)@ == given_up(old(self)@, e@),
            final(self).page == old(self).page,
            final(self).limit == old(self).limit,
    {
        self.outcome.err = Some(e);
        self.done = true;
    }

    fn fail_at(&mut self, stage: &str, e: &str)
        ensures
            final(self)@ == after_no_envelope(old(self)@, stage@, e@),
            final(self).page == old(self).page,
            final(self).limit == old(self).limit,
    {
        let mut message = "following_".to_owned();
        message.append(stage);
        message.append("_p");
        message.append(decimal_text(self.page).as_str());
        message.append(": ");
        message.append(e);
        self.give_up(message);
    }

    /// Takes in that the request could not be made.
    pub fn eval_failed(&mut self, e: &str)
        ensures
            final(self)@ == after_no_envelope(old(self)@, "eval"@, e@),
            final(self).page == old(self).page,
            final(self).limit == old(self).limit,
    {
        self.fail_at("eval", e);
    }

    /// Takes in that the envelope could not be read.
    pub fn envelope_failed(&mut self, e: &str)
        ensures
            final(self)@ == after_no_envelope(old(self)@, "envelope"@, e@),
            final(self).page == old(self).page,
            final(self).limit == old(self).limit,
    {
        self.fail_at("envelope", e);
    }

    /// Takes in that the page could not be read.
    pub fn parse_failed(&mut self, e: &str)
        ensures
            final(self)@ == after_no_envelope(old(self)@, "parse"@, e@),
            final(self).page == old(self).page,
            final(self).limit == old(self).limit,
    {
        self.fail_at("parse", e);
    }

    /// Takes in an envelope; true when its body is a page to be read. A rate
    /// limit ends the reading at once.
    pub fn on_envelope(&mut self, env: &FetchEnvelope) -> (r: bool)
        ensures
            final(self)@ == after_envelope(old(self)@, env.status, env.error@),
            final(self).page == old(self).page,
            final(self).limit == old(self).limit,
            r == holds_page(env.status, env.error@),
    {
        if env.status == 0 && !env.error.as_str().is_empty() {
            let mut message = "following in-page fetch failed: ".to_owned();
            message.append(env.error.as_str());
            self.give_up(message);
            return false;
        }
        if env.status == 401 || env.status == 403 {
            self.outcome.requires_login = true;
            self.done = true;
            return false;
        }
        if env.status == 429 {
            let mut message = "following_http_429_p".to_owned();
            message.append(decimal_text(self.page).as_str());
            message.append(" (rate limited; stopping)");
            self.give_up(message);
            return false;
        }
        if env.status >= 400 {
            let mut message = "following_http_".to_owned();
            message.append(decimal_text(env.status).as_str());
            message.append("_p");
            message.append(decimal_text(self.page).as_str());
            self.give_up(message);
            return false;
        }
        true
    }

    /// Takes in a page that was read.
    pub fn on_page(&mut self, p: FollowingPage)
        requires
            old(self).wf(),
            old(self).wants(),
        ensures
            final(self).wf(),
            final(self).limit == old(self).limit,
            final(self)@ == after_following(old(self)@, p@),
            !p.requires_login && p.more_available && p.next_max_id@.len() > 0 ==> {
                &&& final(self).cursor@ == p.next_max_id@
                &&& final(self).page == old(self).page + 1
            },
            !p.requires_login ==> forall|i: int|
                0 <= i < p.usernames@.len() ==> texts(final(self).outcome.usernames@).contains(
                    (#[trigger] p.usernames@[i])@,
                ),
    {
        if p.requires_login {
            self.outcome.requires_login = true;
            self.done = true;
            return;
        }
        let ghost have = texts(self.outcome.usernames@);
        let ghost more = texts(p.usernames@);
        let ghost start = *self;
        let mut i: usize = 0;
        while i < p.usernames.len()
            invariant
                0 <= i <= p.usernames@.len(),
                more == texts(p.usernames@),
                texts(self.outcome.usernames@) == with_names(have, more, i as nat),
                self.page == start.page,
                self.limit == start.limit,
                self.cursor == start.cursor,
                self.done == start.done,
                self.outcome.requires_login == start.outcome.requires_login,
                self.outcome.err == start.outcome.err,
            decreases p.usernames@.len() - i,
        {
            let ghost before = self.outcome.usernames@;
            let name = &p.usernames[i];
            assert(more[i as int] == name@);
            proof {
                if lists(before, name@) {
                    let k = choose|k: int| 0 <= k < before.len() && (#[trigger] before[k])@ == name@;
                    assert(texts(before)[k] == name@);
                }
                if texts(before).contains(name@) {
                    let k = choose|k: int| 0 <= k < before.len() && texts(before)[k] == name@;
                    assert(before[k]@ == name@);
                }
            }
            if !holds(&self.outcome.usernames, name) {
                self.outcome.usernames.push(name.clone());
                assert(texts(self.outcome.usernames@) =~= texts(before).push(name@));
            }
            i += 1;
        }
        proof {
            lemma_with_names(have, more, more.len());
            assert forall|k: int| 0 <= k < p.usernames@.len() implies texts(
                self.outcome.usernames@,
            ).contains((#[trigger] p.usernames@[k])@) by {
                assert(more[k] == p.usernames@[k]@);
            }
        }
        if !p.more_available || p.next_max_id.as_str().is_empty() {
            self.done = true;
            return;
        }
        self.cursor = p.next_max_id;
        self.page = self.page + 1;
    }

    /// Takes in a page as the endpoint gave it.
    pub fn on_document(&mut self, doc: &FollowingDoc)
        requires
            old(self).wf(),
            old(self).wants(),
        ensures
            final(self).wf(),
            final(self).limit == old(self).limit,
            final(self)@ == after_following(
                old(self)@,
                page_of(*doc, small_letters(doc.message@)),
            ),
    {
        let p = parse_following_page(doc);
        self.on_page(p);
    }
}

/// The function that asks for a page of the list. Its result is a JSON
/// envelope.
pub const FOLLOWING_FN: &'static str = r#"(async function(uid, maxId, appId){
  try {
    let url = '/api/v1/friendships/' + uid + '/following/?count=50';
    if (maxId) url += '&max_id=' + encodeURIComponent(maxId);
    const r = await fetch(url, {
      headers: {
        'X-IG-App-ID': appId,
        'X-Requested-With': 'XMLHttpRequest',
        'X-ASBD-ID': '129477',
        'Sec-Fetch-Site': 'same-origin'
      },
      credentials: 'include',
      referrerPolicy: 'no-referrer-when-downgrade'
    });
    const text = await r.text();
    return JSON.stringify({status: r.status, url: r.url, body: text});
  } catch (e) {
    return JSON.stringify({status: 0, error: String(e)});
  }
})"#;

/// The expression that asks for a page of the list.
pub open spec fn following_call(user_id: Seq<char>, cursor: Seq<char>, app_id: Seq<char>) -> Seq<
    char,
> {
    FOLLOWING_FN@ + "("@ + quoted(user_id) + ", "@ + quoted(cursor) + ", "@ + quoted(app_id) + ")"@
}

pub fn following_expression(user_id: &str, cursor: &str, app_id: &str) -> (r: String)
    ensures
        r@ == following_call(user_id@, cursor@, app_id@),
{
    let mut out = FOLLOWING_FN.to_owned();
    out.append("(");
    out.append(js_str(user_id).as_str());
    out.append(", ");
    out.append(js_str(cursor).as_str());
    out.append(", ");
    out.append(js_str(app_id).as_str());
    out.append(")");
    out
}

/// The shortest and the longest pause between two pages, in seconds, the
/// latter not included.
pub const PAGE_PAUSE_MIN: u64 = 4;

pub const PAGE_PAUSE_END: u64 = 9;

// --- whose list it is ----------------------------------------------------------------

/// The id in the reply to a profile query: that of the header, where the reply
/// was not refused and the header gives one.
pub open spec fn id_in_profile(
    status: i64,
    reading: Option<Reading>,
) -> Option<Seq<char>> {
    if status >= 400 {
        None
    } else {
        match reading {
            Some(Reading::Header(user)) => if header_view(user).user_id.len() > 0 {
                Some(header_view(user).user_id)
            } else {
                None
            },
            _ => None,
        }
    }
}

/// Reads the id of an account from the reply to a profile query.
pub fn id_from_profile_reply(username: &str, env: &FetchEnvelope) -> (r: Option<String>)
    ensures
        opt_text(r) == id_in_profile(
            env.status,
            match reading_of_bytes(encode_utf8(env.body@), username@) {
                Ok(reading) => Some(reading),
                Err(_) => None,
            },
        ),
{
    if env.status >= 400 {
        return None;
    }
    match parse_graphql_profile(username, env.body.as_str().as_bytes()) {
        Ok(p) => match p.result {
            Some(record) => {
                if record.user_id.as_str().is_empty() {
                    None
                } else {
                    Some(record.user_id)
                }
            },
            None => None,
        },
        Err(_) => None,
    }
}

/// The id in the reply to a posts query: that of the posts' owner, where the
/// reply was not refused.
pub open spec fn id_in_posts(status: i64, owner: Option<Seq<char>>) -> Option<Seq<char>> {
    if status >= 400 {
        None
    } else {
        owner
    }
}

/// Reads the id of an account from the reply to a posts query.
pub fn id_from_posts_reply(username: &str, env: &FetchEnvelope) -> (r: Option<String>)
    ensures
        opt_text(r) == id_in_posts(
            env.status,
            feed_owner_id_of_bytes(encode_utf8(env.body@), username@),
        ),
{
    if env.status >= 400 {
        return None;
    }
    user_id_from_feed(env.body.as_str().as_bytes(), username)
}

/// What is to be done next to find the id of an account.
#[derive(Debug)]
pub enum SeedStep {
    /// Replay the profile query.
    AskProfile,
    /// Replay the posts query.
    AskPosts,
    Found(String),
    Missing,
}

/// Where to look for an id first: in the profile, or else among the posts.
pub open spec fn first_step(has_profile_query: bool, has_posts_query: bool) -> SeedStep {
    if has_profile_query {
        SeedStep::AskProfile
    } else if has_posts_query {
        SeedStep::AskPosts
    } else {
        SeedStep::Missing
    }
}

pub fn seed_start(has_profile_query: bool, has_posts_query: bool) -> (r: SeedStep)
    ensures
        r == first_step(has_profile_query, has_posts_query),
{
    if has_profile_query {
        SeedStep::AskProfile
    } else if has_posts_query {
        SeedStep::AskPosts
    } else {
        SeedStep::Missing
    }
}

/// Where to go on after a query gave an id, or gave none, with the posts still
/// to be asked or not.
pub open spec fn step_after(id: Option<String>, posts_left: bool) -> SeedStep {
    match id {
        Some(found) => SeedStep::Found(found),
        None => if posts_left {
            SeedStep::AskPosts
        } else {
            SeedStep::Missing
        },
    }
}

/// Where to go on after the profile gave an id, or gave none.
pub fn seed_after_profile(id: Option<String>, has_posts_query: bool) -> (r: SeedStep)
    ensures
        r == step_after(id, has_posts_query),
{
    match id {
        Some(found) => SeedStep::Found(found),
        None => {
            if has_posts_query {
                SeedStep::AskPosts
            } else {
                SeedStep::Missing
            }
        },
    }
}

/// Where to go on after the posts gave an id, or gave none.
pub fn seed_after_posts(id: Option<String>) -> (r: SeedStep)
    ensures
        r == step_after(id, false),
{
    match id {
        Some(found) => SeedStep::Found(found),
        None => SeedStep::Missing,
    }
}

/// The message for an account whose id was not found.
pub fn no_user_id(username: &str) -> (r: String)
    ensures
        r@ == "no user_id for seed "@ + username@,
{
    let mut message = "no user_id for seed ".to_owned();
    message.append(username);
    message
}

/// The message for an account that does not exist.
pub fn seed_not_found(username: &str) -> (r: String)
    ensures
        r@ == "seed profile not found: "@ + username@,
{
    let mut message = "seed profile not found: ".to_owned();
    message.append(username);
    message
}

// --- laws ----------------------------------------------------------------------------

proof fn lemma_with_names(have: Seq<Seq<char>>, more: Seq<Seq<char>>, n: nat)
    requires
        n <= more.len(),
    ensures
        with_names(have, more, n).len() >= have.len(),
        with_names(have, more, n).take(have.len() as int) == have,
        have.no_duplicates() ==> with_names(have, more, n).no_duplicates(),
        forall|i: int| 0 <= i < n ==> with_names(have, more, n).contains(#[trigger] more[i]),
    decreases n,
{
    if n == 0 {
        assert(have.take(have.len() as int) =~= have);
    } else {
        let before = with_names(have, more, (n - 1) as nat);
        let after = with_names(have, more, n);
        lemma_with_names(have, more, (n - 1) as nat);
        assert(after.take(have.len() as int) =~= before.take(have.len() as int));
        assert forall|i: int| 0 <= i < n implies after.contains(#[trigger] more[i]) by {
            if i < n - 1 {
                let k = choose|k: int| 0 <= k < before.len() && before[k] == more[i];
                assert(after[k] == more[i]);
            } else if !before.contains(more[i]) {
                assert(after[before.len() as int] == more[i]);
            }
        }
    }
}

/// A page adds its names behind those that were read, each once: none that was
/// read is lost, none of its own is left out, and none is there twice.
pub proof fn law_pages_add_names_once(s: FollowsState, p: FollowingView)
    requires
        !p.requires_login,
    ensures
        after_following(s, p).found.usernames.take(s.found.usernames.len() as int)
            == s.found.usernames,
        s.found.usernames.no_duplicates() ==> after_following(
            s,
            p,
        ).found.usernames.no_duplicates(),
        forall|i: int|
            0 <= i < p.usernames.len() ==> after_following(s, p).found.usernames.contains(
                #[trigger] p.usernames[i],
            ),
{
    lemma_with_names(s.found.usernames, p.usernames, p.usernames.len());
}

/// What was read is kept when the reading is given up, and a rate limit or any
/// other refusal ends it.
pub proof fn law_refusal_keeps_what_was_read(s: FollowsState, status: i64, error: Seq<char>)
    ensures
        after_envelope(s, status, error).found.usernames == s.found.usernames,
        status >= 400 ==> after_envelope(s, status, error).done,
{
}

/// A page that does not end the reading moves it on by one page, with a cursor
/// to go on from.
pub proof fn law_every_page_ends_or_moves_on(s: FollowsState, p: FollowingView)
    ensures
        after_following(s, p).done || (after_following(s, p).page == s.page + 1 && after_following(
            s,
            p,
        ).cursor.len() > 0),
{
}

/// After a page that does not end the reading, the next one is asked for with
/// that page's cursor; a page without one ends the reading.
pub proof fn law_next_page_is_behind_the_last(s: FollowsState, p: FollowingView)
    requires
        !p.requires_login,
        !s.done,
    ensures
        p.more_available && p.next_max_id.len() > 0 ==> {
            &&& !after_following(s, p).done
            &&& after_following(s, p).cursor == p.next_max_id
            &&& after_following(s, p).page == s.page + 1
        },
        !p.more_available || p.next_max_id.len() == 0 ==> after_following(s, p).done,
        after_following(s, p).found.err == s.found.err,
        after_following(s, p).found.requires_login == s.found.requires_login,
{
}

proof fn lemma_names_added(have: Seq<Seq<char>>, more: Seq<Seq<char>>, n: nat) -> (at: Seq<int>)
    requires
        n <= more.len(),
    ensures
        rising(at, n),
        with_names(have, more, n) == have + Seq::new(at.len(), |k: int| more[at[k]]),
        forall|k: int|
            0 <= k < at.len() ==> !have.contains(more[#[trigger] at[k]]) && forall|j: int|
                0 <= j < at[k] ==> #[trigger] more[j] != more[at[k]],
        forall|i: int|
            0 <= i < n && !have.contains(#[trigger] more[i]) && (forall|j: int|
                0 <= j < i ==> #[trigger] more[j] != more[i]) ==> at.contains(i),
    decreases n,
{
    if n == 0 {
        let at = Seq::<int>::empty();
        assert(have + Seq::new(at.len(), |k: int| more[at[k]]) =~= have);
        at
    } else {
        let at = lemma_names_added(have, more, (n - 1) as nat);
        let before = with_names(have, more, (n - 1) as nat);
        let picked = Seq::new(at.len(), |k: int| more[at[k]]);
        let name = more[n - 1];
        lemma_rising_push(at, (n - 1) as nat);
        lemma_with_names(have, more, (n - 1) as nat);
        if before.contains(name) {
            assert forall|i: int|
                0 <= i < n && !have.contains(#[trigger] more[i]) && (forall|j: int|
                    0 <= j < i ==> #[trigger] more[j] != more[i]) implies at.contains(i) by {
                if i == n - 1 {
                    let k = choose|k: int| 0 <= k < before.len() && before[k] == name;
                    if k < have.len() {
                        assert(have[k] == name);
                    } else {
                        assert(before[k] == picked[k - have.len()]);
                        assert(more[at[k - have.len()]] == name);
                    }
                    assert(false);
                }
            }
            at
        } else {
            let all = at.push(n - 1);
            assert(have + Seq::new(all.len(), |k: int| more[all[k]]) =~= (have + picked).push(
                name,
            ));
            assert(!have.contains(name)) by {
                if have.contains(name) {
                    let k = choose|k: int| 0 <= k < have.len() && have[k] == name;
                    assert(before[k] == name);
                }
            }
            assert forall|j: int| 0 <= j < n - 1 implies #[trigger] more[j] != name by {
                assert(before.contains(more[j]));
            }
            assert forall|k: int| 0 <= k < all.len() implies !have.contains(
                more[#[trigger] all[k]],
            ) && forall|j: int| 0 <= j < all[k] ==> #[trigger] more[j] != more[all[k]] by {
                if k < at.len() {
                    assert(all[k] == at[k]);
                }
            }
            assert forall|i: int|
                0 <= i < n && !have.contains(#[trigger] more[i]) && (forall|j: int|
                    0 <= j < i ==> #[trigger] more[j] != more[i]) implies all.contains(i) by {
                if i < n - 1 {
                    let k = choose|k: int| 0 <= k < at.len() && at[k] == i;
                    assert(all[k] == i);
                } else {
                    assert(all[at.len() as int] == i);
                }
            }
            all
        }
    }
}

/// A page adds its names in order behind those that were read: each that was
/// not read and does not stand before on the page, and no other.
pub proof fn law_pages_add_exactly_the_new_names(s: FollowsState, p: FollowingView) -> (at: Seq<
    int,
>)
    requires
        !p.requires_login,
    ensures
        rising(at, p.usernames.len()),
        after_following(s, p).found.usernames == s.found.usernames + Seq::new(
            at.len(),
            |k: int| p.usernames[at[k]],
        ),
        forall|i: int|
            0 <= i < p.usernames.len() ==> (at.contains(i) <==> !s.found.usernames.contains(
                #[trigger] p.usernames[i],
            ) && forall|j: int| 0 <= j < i ==> #[trigger] p.usernames[j] != p.usernames[i]),
{
    let at = lemma_names_added(s.found.usernames, p.usernames, p.usernames.len());
    assert forall|i: int|
        0 <= i < p.usernames.len() && at.contains(i) implies !s.found.usernames.contains(
        #[trigger] p.usernames[i],
    ) && forall|j: int| 0 <= j < i ==> #[trigger] p.usernames[j] != p.usernames[i] by {
        let k = choose|k: int| 0 <= k < at.len() && at[k] == i;
        assert(p.usernames[at[k]] == p.usernames[i]);
    }
    at
}

/// A page that asks for a login ends the reading and says so, and keeps what was
/// read.
pub proof fn law_login_ends_the_reading(s: FollowsState, p: FollowingView)
    requires
        p.requires_login,
    ensures
        after_following(s, p).done,
        after_following(s, p).found.requires_login,
        after_following(s, p).found.usernames == s.found.usernames,
        after_following(s, p).found.err == s.found.err,
{
}

/// Whether a user of a page has a username.
pub open spec fn is_named(user: JsonTree) -> bool {
    user.field("username"@) matches Some(JsonTree::Text(name)) && name.len() > 0
}

proof fn lemma_names_of(users: Seq<JsonTree>, n: nat) -> (at: Seq<int>)
    requires
        n <= users.len(),
    ensures
        rising(at, n),
        names_of(users, n).len() == at.len(),
        forall|k: int|
            0 <= k < at.len() ==> is_named(users[#[trigger] at[k]]) && users[at[k]].field(
                "username"@,
            ) == Some(JsonTree::Text(names_of(users, n)[k])),
        forall|i: int| 0 <= i < n && is_named(#[trigger] users[i]) ==> at.contains(i),
    decreases n,
{
    if n == 0 {
        Seq::empty()
    } else {
        let before = lemma_names_of(users, (n - 1) as nat);
        lemma_rising_push(before, (n - 1) as nat);
        if is_named(users[n - 1]) {
            let at = before.push(n - 1);
            assert forall|i: int| 0 <= i < n && is_named(#[trigger] users[i]) implies at.contains(
                i,
            ) by {
                if i < n - 1 {
                    let k = choose|k: int| 0 <= k < before.len() && before[k] == i;
                    assert(at[k] == i);
                } else {
                    assert(at[before.len() as int] == i);
                }
            }
            assert forall|k: int| 0 <= k < at.len() implies is_named(users[#[trigger] at[k]])
                && users[at[k]].field("username"@) == Some(
                JsonTree::Text(names_of(users, n)[k]),
            ) by {
                if k < before.len() {
                    assert(at[k] == before[k]);
                }
            }
            at
        } else {
            before
        }
    }
}

/// A page that asks for no login gives the usernames of all its users that have
/// one, in order, and its cursor as a text.
pub proof fn law_page_gives_every_name(doc: FollowingDoc, lower: Seq<char>) -> (at: Seq<int>)
    requires
        !page_of(doc, lower).requires_login,
    ensures
        rising(at, doc.users@.len()),
        page_of(doc, lower).usernames.len() == at.len(),
        forall|k: int|
            0 <= k < at.len() ==> trees(doc.users@)[#[trigger] at[k]].field("username"@) == Some(
                JsonTree::Text(page_of(doc, lower).usernames[k]),
            ),
        forall|i: int|
            0 <= i < doc.users@.len() ==> (#[trigger] is_named(trees(doc.users@)[i])
                <==> at.contains(i)),
        doc.next_max_id@ matches JsonTree::Text(s) ==> page_of(doc, lower).next_max_id == s,
        doc.next_max_id@ matches JsonTree::Number(n) ==> page_of(doc, lower).next_max_id == n.text,
        !(doc.next_max_id@ is Text || doc.next_max_id@ is Number) ==> page_of(
            doc,
            lower,
        ).next_max_id.len() == 0,
        page_of(doc, lower).more_available <==> page_of(doc, lower).next_max_id.len() > 0,
{
    let users = trees(doc.users@);
    let at = lemma_names_of(users, users.len());
    assert forall|i: int| 0 <= i < users.len() implies (#[trigger] is_named(users[i])
        <==> at.contains(i)) by {
        if at.contains(i) {
            let k = choose|k: int| 0 <= k < at.len() && at[k] == i;
            assert(is_named(users[at[k]]));
        }
    }
    at
}

/// A page asks for a login exactly when one of its flags says so, its message
/// speaks of a login, or it failed without users; it then gives nothing else.
pub proof fn law_page_asks_for_a_login(doc: FollowingDoc, lower: Seq<char>)
    ensures
        page_of(doc, lower).requires_login <==> (doc.require_login || doc.requires_login || occurs(
            lower,
            "login"@,
        ) || (doc.users@.len() == 0 && same_ignoring_ascii_case(doc.status@, "fail"@))),
        page_of(doc, lower).requires_login ==> page_of(doc, lower).usernames.len() == 0 && !page_of(
            doc,
            lower,
        ).more_available && page_of(doc, lower).next_max_id.len() == 0,
{
}

/// An envelope is told by its status: 401 and 403 ask for a login, 429 is a rate
/// limit, any other from 400 on a refusal, and 0 with an error a request that
/// was not made. All of these end the reading; any other changes nothing.
pub proof fn law_envelopes_are_told_by_status(s: FollowsState, status: i64, error: Seq<char>)
    ensures
        status == 401 || status == 403 ==> after_envelope(s, status, error) == (FollowsState {
            done: true,
            found: FollowsView { requires_login: true, ..s.found },
            ..s
        }),
        status == 429 ==> after_envelope(s, status, error) == (FollowsState {
            done: true,
            found: FollowsView {
                err: Some(
                    "following_http_429_p"@ + decimal(s.page) + " (rate limited; stopping)"@,
                ),
                ..s.found
            },
            ..s
        }),
        status >= 400 && status != 401 && status != 403 && status != 429 ==> after_envelope(
            s,
            status,
            error,
        ) == (FollowsState {
            done: true,
            found: FollowsView {
                err: Some(
                    "following_http_"@ + decimal(status as int) + "_p"@ + decimal(s.page),
                ),
                ..s.found
            },
            ..s
        }),
        status == 0 && error.len() > 0 ==> after_envelope(s, status, error) == (FollowsState {
            done: true,
            found: FollowsView {
                err: Some("following in-page fetch failed: "@ + error),
                ..s.found
            },
            ..s
        }),
        status < 400 && (status != 0 || error.len() == 0) ==> after_envelope(s, status, error) == s,
{
}

/// A request without an envelope ends the reading with the stage, the page and
/// the reason, and keeps what was read.
pub proof fn law_missing_envelopes_end_the_reading(s: FollowsState, stage: Seq<char>, e: Seq<char>)
    ensures
        after_no_envelope(s, stage, e) == (FollowsState {
            done: true,
            found: FollowsView {
                err: Some("following_"@ + stage + "_p"@ + decimal(s.page) + ": "@ + e),
                ..s.found
            },
            ..s
        }),
{
}

/// The id in a profile's header counts where the reply was not refused and the
/// id is not empty.
pub proof fn law_profile_id_counts_unless_refused(status: i64, user: JsonTree)
    ensures
        status >= 400 ==> id_in_profile(status, Some(Reading::Header(user))) is None,
        status < 400 && header_view(user).user_id.len() > 0 ==> id_in_profile(
            status,
            Some(Reading::Header(user)),
        ) == Some(header_view(user).user_id),
        header_view(user).user_id.len() == 0 ==> id_in_profile(
            status,
            Some(Reading::Header(user)),
        ) is None,
        id_in_profile(status, None) is None,
        id_in_profile(status, Some(Reading::Login)) is None,
{
}

/// As many pages of the list are read at most as is asked for, or else twenty;
/// another one is asked for until the list was read or so many were.
pub proof fn law_list_pages_are_limited(max_pages: i64, p: FollowsPager)
    ensures
        max_pages > 0 ==> list_limit(max_pages) == max_pages,
        max_pages <= 0 ==> list_limit(max_pages) == 20,
        p.wants() <==> !p.done && p.page < p.limit,
{
}

/// A page is read from an envelope exactly when the envelope leaves the reading
/// where it is.
pub proof fn law_envelopes_with_a_page_change_nothing(
    s: FollowsState,
    status: i64,
    error: Seq<char>,
)
    requires
        !s.done,
    ensures
        holds_page(status, error) <==> after_envelope(s, status, error) == s,
        holds_page(status, error) <==> status < 400 && (status != 0 || error.len() == 0),
        !holds_page(status, error) ==> after_envelope(s, status, error).done,
{
}

/// The id of an account is looked for in its profile, then among its posts; the
/// first that is found is it, whole, and it is missing only after both.
pub proof fn law_ids_are_looked_for_in_order(posts: bool, found: String)
    ensures
        first_step(true, posts) is AskProfile,
        first_step(false, true) is AskPosts,
        first_step(false, false) is Missing,
        step_after(Some(found), posts) == SeedStep::Found(found),
        step_after(None, true) is AskPosts,
        step_after(None, false) is Missing,
{
}

/// An id among the posts counts unless the reply was refused.
pub proof fn law_posts_id_counts_unless_refused(status: i64, owner: Option<Seq<char>>)
    ensures
        status < 400 ==> id_in_posts(status, owner) == owner,
        status >= 400 ==> id_in_posts(status, owner) is None,
{
}

/// A page of the list is asked for by the id, the cursor and the app id, in this
/// order.
pub proof fn law_list_requests_hand_over_everything(
    user_id: Seq<char>,
    cursor: Seq<char>,
    app_id: Seq<char>,
)
    ensures
        following_call(user_id, cursor, app_id) == FOLLOWING_FN@ + "("@ + quoted(user_id) + ", "@
            + quoted(cursor) + ", "@ + quoted(app_id) + ")"@,
{
}

/// What was found of a list leaves nothing out.
pub proof fn law_lists_are_known_whole(o: FollowsOutcome, p: FollowsPager, page: FollowingPage)
    ensures
        o@.usernames == texts(o.usernames@) && o@.requires_login == o.requires_login,
        o.err is Some <==> o@.err is Some,
        o.err matches Some(e) ==> o@.err == Some(e@),
        p@.page == p.page && p@.cursor == p.cursor@ && p@.done == p.done,
        p@.found == p.outcome@,
        page@.usernames == texts(page.usernames@) && page@.next_max_id == page.next_max_id@,
        page@.more_available == page.more_available && page@.requires_login == page.requires_login,
        no_follows().usernames.len() == 0 && no_follows().err is None,
        !no_follows().requires_login,
{
}

} // verus!
