//! The visit to one profile: which requests are made in its page, and what is
//! made of what comes back.

use crate::clock::Timestamp;
use crate::page::{profile_fields_from_html, HtmlProfile};
use crate::profile::{parse_graphql_profile, ParsedProfile, ProfileError};
use crate::record::ScrapeResult;
use crate::scan::{FeedPager, FetchEnvelope, Outcome, ScrapeOpts};
use crate::text::decimal_text;
use vstd::prelude::*;
use vstd::utf8::encode_utf8;

verus! {

use crate::json::JsonTree;
use crate::page::{html_fields, HtmlView};
use crate::profile::{absent_fields, header_view, reading_of_bytes, ProfileFault, ProfileView, Reading};
use crate::record::{bare_record, RecordView};
use crate::scan::{after_reply, blank_outcome, grew, reply_view, OutcomeView};
use crate::text::{decimal, texts};

/// The message for a page that issued no query that can be replayed.
pub const NO_QUERIES: &'static str =
    "no GraphQL queries captured from profile page \u{2014} IG's client changed; run --capture-queries to inspect";

/// What is to be done next on a visit.
#[derive(Clone, Copy, PartialEq, Eq, Structural, Debug)]
pub enum VisitAction {
    /// Replay the profile query.
    AskProfile,
    /// Replay the posts query behind the cursor.
    AskPosts,
    Finish,
}

/// A visit to a profile under way.
#[derive(Debug)]
pub struct Visit {
    pub record: ScrapeResult,
    pub missing: Vec<String>,
    pub pager: FeedPager,
    pub asking_profile: bool,
    pub has_posts_query: bool,
}

/// What a record says that says what the page says.
pub open spec fn page_record(username: Seq<char>, meta: HtmlView, now: Timestamp) -> RecordView {
    RecordView {
        full_name: meta.full_name,
        followers: meta.followers,
        following: meta.following,
        posts: meta.posts,
        is_private: meta.is_private,
        ..bare_record(username, "graphql"@, now)
    }
}

/// Whether a record still lacks the counts that tell a profile was read.
pub open spec fn lacks_counts(r: RecordView) -> bool {
    r.followers is None && r.posts is None
}

pub open spec fn with_error(r: RecordView, e: Seq<char>) -> RecordView {
    RecordView { errors: r.errors.push(e), ..r }
}

/// The record once all has been done to read the profile: what could not be
/// read is noted.
pub open spec fn profile_settled(r: RecordView, has_posts_query: bool) -> RecordView {
    let r1 = if lacks_counts(r) {
        with_error(r, "profile_fields_unavailable"@)
    } else {
        r
    };
    if has_posts_query {
        r1
    } else {
        with_error(r1, "posts_query_not_captured"@)
    }
}

/// The record with what a header says. A header that does not say whether the
/// account is private leaves what the page said.
pub open spec fn with_header(r: RecordView, v: ProfileView) -> RecordView {
    RecordView {
        user_id: v.user_id,
        full_name: v.full_name,
        biography: v.biography,
        is_private: if v.is_private is Some {
            v.is_private
        } else {
            r.is_private
        },
        followers: v.followers,
        following: v.following,
        posts: v.posts,
        ..r
    }
}

/// The part of a record that a header gives.
pub open spec fn header_part(r: RecordView) -> ProfileView {
    ProfileView {
        user_id: r.user_id,
        full_name: r.full_name,
        biography: r.biography,
        is_private: r.is_private,
        followers: r.followers,
        following: r.following,
        posts: r.posts,
    }
}

/// How a visit goes on after the reply to the profile query: with a record and
/// the fields that its header lacked, or to its end.
pub enum ProfileEnd {
    Goes { record: RecordView, missing: Seq<Seq<char>> },
    Ends(OutcomeView),
}

/// The end of a visit whose profile query was refused. The page itself was
/// loaded without a login, so this is no logout.
pub open spec fn rejected(status: i64) -> OutcomeView {
    OutcomeView {
        err: Some(
            "profile query rejected: http "@ + decimal(status as int)
                + " (replay refused, session is live)"@,
        ),
        ..blank_outcome()
    }
}

/// After the header was looked for.
pub open spec fn after_reading(
    r: RecordView,
    has_posts_query: bool,
    reading: Result<Reading, ProfileFault>,
) -> ProfileEnd {
    match reading {
        Ok(Reading::Login) => ProfileEnd::Ends(
            OutcomeView { requires_login: true, ..blank_outcome() },
        ),
        Ok(Reading::Header(user)) => ProfileEnd::Goes {
            record: profile_settled(with_header(r, header_view(user)), has_posts_query),
            missing: absent_fields(user, 6),
        },
        Err(f) => ProfileEnd::Goes {
            record: profile_settled(with_error(r, "profile_parse: "@ + f.text()), has_posts_query),
            missing: Seq::empty(),
        },
    }
}

/// After the reply to the profile query, or the message of what kept it from
/// coming.
pub open spec fn after_profile(
    r: RecordView,
    has_posts_query: bool,
    reply: Result<(i64, Seq<char>), Seq<char>>,
) -> ProfileEnd {
    match reply {
        Err(e) => ProfileEnd::Goes {
            record: profile_settled(with_error(r, "profile_query: "@ + e), has_posts_query),
            missing: Seq::empty(),
        },
        Ok((status, body)) => if status == 404 {
            ProfileEnd::Ends(OutcomeView { profile_not_found: true, ..blank_outcome() })
        } else if status >= 400 {
            ProfileEnd::Ends(rejected(status))
        } else {
            after_reading(r, has_posts_query, reading_of_bytes(encode_utf8(body), r.username))
        },
    }
}

fn settle_profile(record: &mut ScrapeResult, has_posts_query: bool)
    ensures
        final(record)@ == profile_settled(old(record)@, has_posts_query),
{
    if record.followers.is_none() && record.posts.is_none() {
        record.push_error("profile_fields_unavailable".to_owned());
    }
    if !has_posts_query {
        record.push_error("posts_query_not_captured".to_owned());
    }
}

impl Visit {
    /// Whether the pager is within its limit, and asks for nothing where there
    /// is no query to ask with.
    pub open spec fn wf(self) -> bool {
        &&& self.pager.wf()
        &&& !self.has_posts_query ==> self.pager.done
    }

    /// Whether the feed has not been asked for yet.
    pub open spec fn feed_untouched(self, opts: ScrapeOpts) -> bool {
        &&& self.pager.page == 0
        &&& self.pager.cursor@ == Seq::<char>::empty()
        &&& self.pager.until == opts.paginate_until_unix
        &&& self.pager.limit == (if opts.max_scrolls <= 0 {
            8
        } else {
            opts.max_scrolls
        })
        &&& self.pager.done == !self.has_posts_query
    }

    /// What is to be done next.
    pub open spec fn next_action(self, stop: bool) -> VisitAction {
        if self.asking_profile {
            VisitAction::AskProfile
        } else if self.pager.wants() && !stop {
            VisitAction::AskPosts
        } else {
            VisitAction::Finish
        }
    }

    /// A visit to a loaded page that says `meta`, with the queries there are.
    pub fn begin_with(
        username: &str,
        meta: HtmlProfile,
        has_posts_query: bool,
        has_profile_query: bool,
        opts: &ScrapeOpts,
        now: Timestamp,
    ) -> (r: Result<Visit, Outcome>)
        ensures
            begins(r, username@, meta@, has_posts_query, has_profile_query, *opts, now),
    {
        if !has_posts_query && !has_profile_query {
            return Err(Outcome::err(NO_QUERIES.to_owned()));
        }
        let mut record = ScrapeResult::new_at(username, "graphql", now);
        record.full_name = meta.full_name;
        record.followers = meta.followers;
        record.following = meta.following;
        record.posts = meta.posts;
        record.is_private = meta.is_private;
        let lacking = record.followers.is_none() && record.posts.is_none();
        let asking_profile = lacking && has_profile_query;
        if !asking_profile {
            if lacking {
                record.push_error("profile_query_not_captured".to_owned());
            }
            settle_profile(&mut record, has_posts_query);
        }
        let mut pager = FeedPager::new(opts);
        if !has_posts_query {
            pager.done = true;
        }
        Ok(Visit { record, missing: Vec::new(), pager, asking_profile, has_posts_query })
    }

    /// A visit to a loaded page, with the queries there are.
    pub fn begin(
        username: &str,
        html: &str,
        has_posts_query: bool,
        has_profile_query: bool,
        opts: &ScrapeOpts,
        now: Timestamp,
    ) -> (r: Result<Visit, Outcome>)
        ensures
            begins(
                r,
                username@,
                html_fields(username@, html@),
                has_posts_query,
                has_profile_query,
                *opts,
                now,
            ),
    {
        let meta = profile_fields_from_html(username, html);
        Visit::begin_with(username, meta, has_posts_query, has_profile_query, opts, now)
    }

    /// What is to be done next. A requested stop ends the reading of posts.
    pub fn action(&self, stop: bool) -> (r: VisitAction)
        ensures
            r == self.next_action(stop),
    {
        if self.asking_profile {
            VisitAction::AskProfile
        } else if self.pager.wants_page(stop) {
            VisitAction::AskPosts
        } else {
            VisitAction::Finish
        }
    }

    /// Goes on with a header that was read, or was not.
    pub fn take_profile(self, parsed: Result<ParsedProfile, ProfileError>) -> (r: Result<
        Visit,
        Outcome,
    >)
        requires
            self.wf(),
        ensures
            goes_on_with(self, parsed, r),
            r matches Ok(v) ==> v.wf() && !v.asking_profile && v.pager == self.pager
                && v.has_posts_query == self.has_posts_query,
    {
        let mut v = self;
        v.asking_profile = false;
        match parsed {
            Ok(p) => {
                if p.requires_login {
                    let mut o = Outcome::login();
                    o.missing_schema = p.missing;
                    return Err(o);
                }
                v.missing = p.missing;
                if let Some(h) = p.result {
                    v.record.user_id = h.user_id;
                    v.record.full_name = h.full_name;
                    v.record.biography = h.biography;
                    if h.is_private.is_some() {
                        v.record.is_private = h.is_private;
                    }
                    v.record.followers = h.followers;
                    v.record.following = h.following;
                    v.record.posts = h.posts;
                }
            },
            Err(e) => {
                let mut error = "profile_parse: ".to_owned();
                error.append(e.message().as_str());
                v.record.push_error(error);
            },
        }
        settle_profile(&mut v.record, v.has_posts_query);
        Ok(v)
    }

    /// Goes on after the reply to the profile query.
    pub fn on_profile_reply(self, reply: Result<FetchEnvelope, String>) -> (r: Result<
        Visit,
        Outcome,
    >)
        requires
            self.wf(),
            self.missing@.len() == 0,
        ensures
            match after_profile(self.record@, self.has_posts_query, reply_view(reply)) {
                ProfileEnd::Goes { record, missing } => {
                    &&& r is Ok
                    &&& r->Ok_0.record@ == record
                    &&& texts(r->Ok_0.missing@) == missing
                },
                ProfileEnd::Ends(o) => r matches Err(got) && got@ == o,
            },
            r matches Ok(v) ==> v.wf() && !v.asking_profile && v.pager == self.pager
                && v.has_posts_query == self.has_posts_query,
    {
        assert(texts(self.missing@) =~= Seq::<Seq<char>>::empty());
        match reply {
            Err(e) => {
                let mut v = self;
                v.asking_profile = false;
                let mut error = "profile_query: ".to_owned();
                error.append(e.as_str());
                v.record.push_error(error);
                settle_profile(&mut v.record, v.has_posts_query);
                Ok(v)
            },
            Ok(env) => {
                if env.status == 404 {
                    return Err(Outcome::not_found());
                }
                if env.status >= 400 {
                    let mut error = "profile query rejected: http ".to_owned();
                    error.append(decimal_text(env.status).as_str());
                    error.append(" (replay refused, session is live)");
                    return Err(Outcome::err(error));
                }
                let raw = env.body.as_str().as_bytes();
                let parsed = parse_graphql_profile(self.record.username.as_str(), raw);
                proof {
                    if parsed is Ok && parsed->Ok_0.requires_login {
                        assert(texts(parsed->Ok_0.missing@) =~= Seq::<Seq<char>>::empty());
                    }
                }
                self.take_profile(parsed)
            },
        }
    }

    /// Goes on after the reply to a request for a page of posts.
    pub fn on_posts_reply(&mut self, reply: Result<FetchEnvelope, String>)
        requires
            old(self).wf(),
            old(self).pager.wants(),
        ensures
            final(self).wf(),
            final(self).pager.limit == old(self).pager.limit,
            final(self).pager.until == old(self).pager.until,
            final(self).pager.with_record(final(self).record) == after_reply(
                old(self).pager.with_record(old(self).record),
                old(self).pager.until,
                old(self).record.username@,
                reply_view(reply),
            ),
            grew(old(self).record, final(self).record),
            *final(self) == (Visit {
                record: final(self).record,
                pager: final(self).pager,
                ..*old(self)
            }),
    {
        self.pager.on_reply(&mut self.record, reply);
    }

    /// Ends the visit, at `now`.
    pub fn finish(self, now: Timestamp) -> (r: Outcome)
        ensures
            r@ == finished(self.record@, texts(self.missing@), now),
    {
        let mut record = self.record;
        record.scraped_at = now;
        let mut o = Outcome::default();
        o.result = Some(record);
        o.missing_schema = self.missing;
        o
    }
}

/// What a visit gives that has come to its end.
pub open spec fn finished(
    record: RecordView,
    missing: Seq<Seq<char>>,
    now: Timestamp,
) -> OutcomeView {
    OutcomeView {
        result: Some((RecordView { scraped_at: now, ..record })),
        missing_schema: missing,
        ..blank_outcome()
    }
}

/// Whether a visit to a page that says `meta` begins like this.
pub open spec fn begins(
    r: Result<Visit, Outcome>,
    username: Seq<char>,
    meta: HtmlView,
    has_posts_query: bool,
    has_profile_query: bool,
    opts: ScrapeOpts,
    now: Timestamp,
) -> bool {
    match r {
        Err(o) => {
            &&& !has_posts_query && !has_profile_query
            &&& o@ == (OutcomeView { err: Some(NO_QUERIES@), ..blank_outcome() })
        },
        Ok(v) => {
            let page = page_record(username, meta, now);
            &&& has_posts_query || has_profile_query
            &&& v.wf()
            &&& v.feed_untouched(opts)
            &&& v.has_posts_query == has_posts_query
            &&& v.missing@.len() == 0
            &&& v.asking_profile == (lacks_counts(page) && has_profile_query)
            &&& v.record@ == (if v.asking_profile {
                page
            } else if lacks_counts(page) {
                profile_settled(with_error(page, "profile_query_not_captured"@), has_posts_query)
            } else {
                profile_settled(page, has_posts_query)
            })
        },
    }
}

/// Whether a visit goes on like this with a header that was read, or was not.
pub open spec fn goes_on_with(
    v: Visit,
    parsed: Result<ParsedProfile, ProfileError>,
    r: Result<Visit, Outcome>,
) -> bool {
    match parsed {
        Ok(p) => if p.requires_login {
            r matches Err(o) && o@ == (OutcomeView {
                requires_login: true,
                missing_schema: texts(p.missing@),
                ..blank_outcome()
            })
        } else {
            &&& r is Ok
            &&& r->Ok_0.missing == p.missing
            &&& r->Ok_0.record@ == profile_settled(
                match p.result {
                    Some(h) => with_header(v.record@, header_part(h@)),
                    None => v.record@,
                },
                v.has_posts_query,
            )
        },
        Err(e) => {
            &&& r is Ok
            &&& r->Ok_0.missing == v.missing
            &&& r->Ok_0.record@ == profile_settled(
                with_error(v.record@, "profile_parse: "@ + e@.text()),
                v.has_posts_query,
            )
        },
    }
}

// --- laws ----------------------------------------------------------------------------

/// A refused replay is never taken for a logout: the page was loaded, so the
/// session is live.
pub proof fn law_refused_replay_is_no_logout(
    r: RecordView,
    has_posts_query: bool,
    status: i64,
    body: Seq<char>,
)
    requires
        status >= 400,
    ensures
        after_profile(
            r,
            has_posts_query,
            Ok::<(i64, Seq<char>), Seq<char>>((status, body)),
        ) matches ProfileEnd::Ends(o) && !o.requires_login && o.result is None && (
        o.profile_not_found <==> status == 404) && (o.err is Some <==> status != 404),
{
}

/// Whatever the profile query gives, the record stays one of the account that
/// was asked for, keeps what was noted before, and holds no posts yet that it
/// did not hold.
pub proof fn law_profile_reply_keeps_the_account(
    r: RecordView,
    has_posts_query: bool,
    reply: Result<(i64, Seq<char>), Seq<char>>,
)
    ensures
        after_profile(r, has_posts_query, reply) matches ProfileEnd::Goes { record, missing } ==> {
            &&& record.username == r.username
            &&& record.source == r.source
            &&& record.recent_posts == r.recent_posts
            &&& record.errors.len() >= r.errors.len()
            &&& record.errors.take(r.errors.len() as int) == r.errors
        },
{
    let end = after_profile(r, has_posts_query, reply);
    if let ProfileEnd::Goes { record, missing } = end {
        assert(record.errors.take(r.errors.len() as int) =~= r.errors);
    }
}

/// A profile that could not be read is said to be so: a record without the
/// counts carries an error.
pub proof fn law_missing_counts_are_noted(r: RecordView, has_posts_query: bool)
    requires
        lacks_counts(r),
    ensures
        profile_settled(r, has_posts_query).errors.contains("profile_fields_unavailable"@),
{
    let e = profile_settled(r, has_posts_query).errors;
    assert(e[r.errors.len() as int] == "profile_fields_unavailable"@);
}

/// A visit is given up exactly when the page issued no query, and then says so.
pub proof fn law_visits_need_a_query(
    r: Result<Visit, Outcome>,
    username: Seq<char>,
    meta: HtmlView,
    has_posts_query: bool,
    has_profile_query: bool,
    opts: ScrapeOpts,
    now: Timestamp,
)
    requires
        begins(r, username, meta, has_posts_query, has_profile_query, opts, now),
    ensures
        r is Err <==> !has_posts_query && !has_profile_query,
        r matches Err(o) ==> o@.result is None && !o.requires_login && !o.profile_not_found
            && o@.err == Some(
            "no GraphQL queries captured from profile page \u{2014} IG's client changed; run --capture-queries to inspect"@,
        ),
{
}

/// A visit starts with what the page says and with nothing else of the account,
/// and asks for the profile exactly when the page says neither count and there
/// is a query to ask with; else it says what is missing, in this order.
pub proof fn law_visits_start_from_the_page(
    r: Result<Visit, Outcome>,
    username: Seq<char>,
    meta: HtmlView,
    has_posts_query: bool,
    has_profile_query: bool,
    opts: ScrapeOpts,
    now: Timestamp,
)
    requires
        begins(r, username, meta, has_posts_query, has_profile_query, opts, now),
        r is Ok,
    ensures
        ({
            let v = r->Ok_0;
            let said = meta.followers is Some || meta.posts is Some;
            let unread = if said || has_profile_query {
                Seq::<Seq<char>>::empty()
            } else {
                seq!["profile_query_not_captured"@, "profile_fields_unavailable"@]
            };
            let unlisted = if has_posts_query {
                Seq::<Seq<char>>::empty()
            } else {
                seq!["posts_query_not_captured"@]
            };
            &&& v.record@.username == username && v.record@.source == "graphql"@
            &&& v.record@.full_name == meta.full_name && v.record@.is_private == meta.is_private
            &&& v.record@.followers == meta.followers && v.record@.following == meta.following
            &&& v.record@.posts == meta.posts && v.record@.scraped_at == now
            &&& v.record@.biography is None && v.record@.user_id.len() == 0
            &&& v.record@.recent_posts is None
            &&& v.asking_profile <==> !said && has_profile_query
            &&& v.asking_profile ==> v.record@.errors.len() == 0
            &&& !v.asking_profile ==> v.record@.errors == unread + unlisted
            &&& v.pager.cursor@.len() == 0 && v.pager.page == 0
            &&& v.pager.until == opts.paginate_until_unix
            &&& v.pager.limit == (if opts.max_scrolls > 0 {
                opts.max_scrolls
            } else {
                8
            })
            &&& v.pager.done <==> !has_posts_query
        }),
{
    let v = r->Ok_0;
    if !v.asking_profile {
        let said = meta.followers is Some || meta.posts is Some;
        let unread = if said {
            Seq::<Seq<char>>::empty()
        } else {
            seq!["profile_query_not_captured"@, "profile_fields_unavailable"@]
        };
        let unlisted = if has_posts_query {
            Seq::<Seq<char>>::empty()
        } else {
            seq!["posts_query_not_captured"@]
        };
        assert(v.record@.errors =~= unread + unlisted);
    }
}

/// What could not be read is noted behind what was noted before: the counts
/// where neither is there, and the posts where they cannot be asked for.
pub proof fn law_settling_notes_what_is_missing(r: RecordView, has_posts_query: bool)
    ensures
        ({
            let counts = if r.followers is None && r.posts is None {
                seq!["profile_fields_unavailable"@]
            } else {
                Seq::empty()
            };
            let list = if has_posts_query {
                Seq::empty()
            } else {
                seq!["posts_query_not_captured"@]
            };
            &&& profile_settled(r, has_posts_query).errors == r.errors + counts + list
            &&& (RecordView { errors: r.errors, ..profile_settled(r, has_posts_query) }) == r
        }),
{
    let counts = if r.followers is None && r.posts is None {
        seq!["profile_fields_unavailable"@]
    } else {
        Seq::empty()
    };
    let list = if has_posts_query {
        Seq::empty()
    } else {
        seq!["posts_query_not_captured"@]
    };
    assert(profile_settled(r, has_posts_query).errors =~= r.errors + counts + list);
}

/// A header that was found is written into the record field by field, and the
/// fields that it lacks come out; only whether the account is private stays as
/// the page said it where the header does not say it.
pub proof fn law_header_is_written_into_the_record(
    r: RecordView,
    has_posts_query: bool,
    user: JsonTree,
)
    ensures
        after_reading(
            r,
            has_posts_query,
            Ok::<Reading, ProfileFault>(Reading::Header(user)),
        ) matches ProfileEnd::Goes { record, missing } && {
            &&& missing == absent_fields(user, 6)
            &&& record.user_id == header_view(user).user_id
            &&& record.full_name == header_view(user).full_name
            &&& record.biography == header_view(user).biography
            &&& record.followers == header_view(user).followers
            &&& record.following == header_view(user).following
            &&& record.posts == header_view(user).posts
            &&& header_view(user).is_private is Some ==> record.is_private == header_view(
                user,
            ).is_private
            &&& header_view(user).is_private is None ==> record.is_private == r.is_private
            &&& record.username == r.username && record.source == r.source
            &&& record.recent_posts == r.recent_posts && record.scraped_at == r.scraped_at
        },
{
}

/// A profile query that fails, or whose reply holds no header, is noted with
/// what went wrong, and what the page said stays; a reply that asks for a login
/// ends the visit as a logout and as nothing else.
pub proof fn law_unread_profiles_are_noted(
    r: RecordView,
    has_posts_query: bool,
    e: Seq<char>,
    status: i64,
    body: Seq<char>,
)
    ensures
        after_profile(
            r,
            has_posts_query,
            Err::<(i64, Seq<char>), Seq<char>>(e),
        ) matches ProfileEnd::Goes { record, missing } && missing.len() == 0 && record.errors.len()
            > r.errors.len() && record.errors[r.errors.len() as int] == "profile_query: "@ + e
            && record.followers == r.followers && record.posts == r.posts && record.full_name
            == r.full_name && record.is_private == r.is_private,
        status < 400 && reading_of_bytes(encode_utf8(body), r.username) is Err ==> (after_profile(
            r,
            has_posts_query,
            Ok::<(i64, Seq<char>), Seq<char>>((status, body)),
        ) matches ProfileEnd::Goes { record, missing } && missing.len() == 0 && record.errors.len()
            > r.errors.len() && record.errors[r.errors.len() as int] == "profile_parse: "@
            + reading_of_bytes(encode_utf8(body), r.username)->Err_0.text() && record.followers
            == r.followers && record.posts == r.posts && record.full_name == r.full_name),
        status < 400 && reading_of_bytes(encode_utf8(body), r.username) == Ok::<
            Reading,
            ProfileFault,
        >(Reading::Login) ==> (after_profile(
            r,
            has_posts_query,
            Ok::<(i64, Seq<char>), Seq<char>>((status, body)),
        ) matches ProfileEnd::Ends(o) && o.requires_login && o.err is None && o.result is None
            && !o.profile_not_found),
        status >= 400 && status != 404 ==> (after_profile(
            r,
            has_posts_query,
            Ok::<(i64, Seq<char>), Seq<char>>((status, body)),
        ) matches ProfileEnd::Ends(o) && o.err == Some(
            "profile query rejected: http "@ + decimal(status as int)
                + " (replay refused, session is live)"@,
        )),
{
}

/// What was read of a profile goes into the visit, whether or not a login is
/// asked for.
pub proof fn law_parsed_profiles_are_taken(
    v: Visit,
    parsed: Result<ParsedProfile, ProfileError>,
    r: Result<Visit, Outcome>,
)
    requires
        goes_on_with(v, parsed, r),
    ensures
        r is Err <==> (parsed matches Ok(p) && p.requires_login),
        r matches Err(o) ==> o.requires_login && o@.err is None && o@.result is None
            && texts(o.missing_schema@) == texts(parsed->Ok_0.missing@),
        (parsed matches Ok(p) && !p.requires_login) ==> r->Ok_0.missing == parsed->Ok_0.missing,
        (parsed matches Ok(p) && !p.requires_login && p.result is Some) ==> {
            let h = parsed->Ok_0.result->0@;
            let got = r->Ok_0.record@;
            &&& got.followers == h.followers && got.following == h.following
            &&& got.posts == h.posts && got.user_id == h.user_id
            &&& got.full_name == h.full_name && got.biography == h.biography
            &&& h.is_private is Some ==> got.is_private == h.is_private
            &&& h.is_private is None ==> got.is_private == v.record@.is_private
            &&& got.username == v.record@.username
        },
        parsed is Err ==> r->Ok_0.record@.errors.len() > v.record@.errors.len()
            && r->Ok_0.record@.errors[v.record@.errors.len() as int] == "profile_parse: "@
            + parsed->Err_0@.text(),
{
}

/// The profile is asked for first, even when a stop was requested; then posts,
/// until there are enough or a stop was requested; then the visit is over.
pub proof fn law_visits_ask_in_order(v: Visit, stop: bool)
    ensures
        v.next_action(stop) is AskProfile <==> v.asking_profile,
        v.next_action(stop) is AskPosts <==> !v.asking_profile && !stop && !v.pager.done
            && v.pager.page < v.pager.limit,
        v.next_action(true) is Finish <==> !v.asking_profile,
{
}

/// A finished visit gives its record as of now, and the fields that its header
/// lacked, and no failure.
pub proof fn law_finished_visits_give_their_record(
    record: RecordView,
    missing: Seq<Seq<char>>,
    now: Timestamp,
)
    ensures
        ({
            let o = finished(record, missing, now);
            &&& o.err is None && !o.requires_login && !o.profile_not_found
            &&& o.missing_schema == missing
            &&& o.result matches Some(r) && r.scraped_at == now && (RecordView {
                scraped_at: record.scraped_at,
                ..r
            }) == record
        }),
{
}

} // verus!
