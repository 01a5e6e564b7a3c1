//! The scan of one profile: what is decided at each step, from what came back
//! from the page.

use crate::feed::{parse_graphql_feed, user_id_from_feed, FeedError, FeedPage};
use crate::record::ScrapeResult;
use crate::text::{contains, decimal_text, parse_i64};
use vstd::prelude::*;
use vstd::utf8::encode_utf8;

verus! {

use crate::feed::{feed_of_bytes, feed_owner_id_of_bytes, FeedFault, FeedView};
use crate::record::{opt_text, post_views, PostView, RecordView};
use crate::text::{
    decimal, integer_of, law_decimal_reads_back, lemma_occurs_between, lemma_rising_push, occurs,
    rising, texts,
};

pub struct ScrapeOpts {
    /// Above 0, pages of posts are asked for until the oldest post of a page is
    /// older than this Unix time; at 0, only the first page is.
    pub paginate_until_unix: i64,
    /// How many pages are asked for at most; 8 where it is not positive.
    pub max_scrolls: i64,
}

/// What came back from a request in the page.
#[derive(Debug)]
pub struct FetchEnvelope {
    pub status: i64,
    pub url: String,
    pub body: String,
    pub error: String,
}

impl Default for FetchEnvelope {
    fn default() -> (r: Self)
        ensures
            r.status == 0,
            r.url@ == Seq::<char>::empty(),
            r.body@ == Seq::<char>::empty(),
            r.error@ == Seq::<char>::empty(),
    {
        FetchEnvelope {
            status: 0,
            url: String::new(),
            body: String::new(),
            error: String::new(),
        }
    }
}

// --- how a scan ends -----------------------------------------------------------------

/// How the scan of a profile ended.
#[derive(Debug)]
pub struct Outcome {
    pub result: Option<ScrapeResult>,
    /// The expected fields of a profile's header that were not there.
    pub missing_schema: Vec<String>,
    pub requires_login: bool,
    pub profile_not_found: bool,
    pub err: Option<String>,
}

/// How a scan ended, in plain terms.
pub struct OutcomeView {
    pub result: Option<RecordView>,
    pub missing_schema: Seq<Seq<char>>,
    pub requires_login: bool,
    pub profile_not_found: bool,
    pub err: Option<Seq<char>>,
}

impl View for Outcome {
    type V = OutcomeView;

    open spec fn view(&self) -> OutcomeView {
        OutcomeView {
            result: match self.result {
                Some(r) => Some(r@),
                None => None,
            },
            missing_schema: texts(self.missing_schema@),
            requires_login: self.requires_login,
            profile_not_found: self.profile_not_found,
            err: opt_text(self.err),
        }
    }
}

/// An end that says nothing.
pub open spec fn blank_outcome() -> OutcomeView {
    OutcomeView {
        result: None,
        missing_schema: Seq::empty(),
        requires_login: false,
        profile_not_found: false,
        err: None,
    }
}

impl Default for Outcome {
    fn default() -> (r: Self)
        ensures
            r@ == blank_outcome(),
    {
        let r = Outcome {
            result: None,
            missing_schema: Vec::new(),
            requires_login: false,
            profile_not_found: false,
            err: None,
        };
        assert(texts(r.missing_schema@) =~= Seq::<Seq<char>>::empty());
        r
    }
}

impl Outcome {
    pub fn err(e: String) -> (r: Self)
        ensures
            r@ == (OutcomeView { err: Some(e@), ..blank_outcome() }),
    {
        let mut r = Outcome::default();
        r.err = Some(e);
        r
    }

    pub fn login() -> (r: Self)
        ensures
            r@ == (OutcomeView { requires_login: true, ..blank_outcome() }),
    {
        let mut r = Outcome::default();
        r.requires_login = true;
        r
    }

    pub fn not_found() -> (r: Self)
        ensures
            r@ == (OutcomeView { profile_not_found: true, ..blank_outcome() }),
    {
        let mut r = Outcome::default();
        r.profile_not_found = true;
        r
    }
}

// --- what kind of page it is ---------------------------------------------------------

/// What kind of page was loaded.
#[derive(Debug)]
pub struct DomRead {
    pub is_login_page: bool,
    pub not_found: bool,
}

/// Whether an address is that of the login page.
pub open spec fn is_login_address(url: Seq<char>) -> bool {
    occurs(url, "/accounts/login"@)
}

/// Whether the text of a page says that there is no such profile.
pub open spec fn says_not_found(body: Seq<char>) -> bool {
    occurs(body, "Sorry, this page isn"@) || occurs(body, "page isn't available"@)
}

/// Tells what kind of page was loaded by its address and its text.
pub fn read_dom_facts(url: &str, body: &str) -> (r: DomRead)
    ensures
        r.is_login_page == is_login_address(url@),
        r.not_found == says_not_found(body@),
{
    DomRead {
        is_login_page: contains(url, "/accounts/login"),
        not_found: contains(body, "Sorry, this page isn") || contains(body, "page isn't available"),
    }
}

impl DomRead {
    /// How the scan of a profile ends on this page, if it does.
    pub open spec fn ending(self) -> Option<OutcomeView> {
        if self.is_login_page {
            Some(OutcomeView { requires_login: true, ..blank_outcome() })
        } else if self.not_found {
            Some(OutcomeView { profile_not_found: true, ..blank_outcome() })
        } else {
            None
        }
    }

    pub fn outcome(&self) -> (r: Option<Outcome>)
        ensures
            match r {
                Some(o) => self.ending() == Some(o@),
                None => self.ending() is None,
            },
    {
        if self.is_login_page {
            Some(Outcome::login())
        } else if self.not_found {
            Some(Outcome::not_found())
        } else {
            None
        }
    }
}

/// Where the page of a profile is.
pub open spec fn profile_address(username: Seq<char>) -> Seq<char> {
    "https://www.instagram.com/"@ + username + "/"@
}

pub fn profile_url(username: &str) -> (r: String)
    ensures
        r@ == profile_address(username@),
{
    let mut url = "https://www.instagram.com/".to_owned();
    url.append(username);
    url.append("/");
    url
}

/// How many looks at the recorder are taken at most before it is read.
pub const SETTLE_LOOKS: u32 = 12;

/// Whether the recorder has seen as many requests as a page issues at first.
pub open spec fn has_settled(count: Seq<char>) -> bool {
    integer_of(count) matches Some(n) && n >= 2
}

/// Whether the recorder has seen enough, by the text of its count.
pub fn settled(count: &str) -> (r: bool)
    ensures
        r == has_settled(count@),
{
    match parse_i64(count) {
        Some(n) => n >= 2,
        None => false,
    }
}

// --- pages of posts ------------------------------------------------------------------

/// How far the pages of posts have been read.
#[derive(Debug)]
pub struct FeedPager {
    pub page: i64,
    pub limit: i64,
    pub until: i64,
    pub cursor: String,
    pub done: bool,
}

/// How far the pages have been read, and what the record says so far.
pub struct FeedState {
    pub page: int,
    pub cursor: Seq<char>,
    pub done: bool,
    pub user_id: Seq<char>,
    pub posts: Seq<PostView>,
    pub errors: Seq<Seq<char>>,
}

/// Whether a post with the shortcode is among the posts.
pub open spec fn has_code(posts: Seq<PostView>, code: Seq<char>) -> bool {
    exists|i: int| 0 <= i < posts.len() && (#[trigger] posts[i]).shortcode == code
}

/// The posts with the first `n` of a page added behind, but for those that are
/// there already.
pub open spec fn with_page(have: Seq<PostView>, page: Seq<PostView>, n: nat) -> Seq<PostView>
    decreases n,
{
    if n == 0 {
        have
    } else {
        let before = with_page(have, page, (n - 1) as nat);
        if has_code(before, page[n - 1].shortcode) {
            before
        } else {
            before.push(page[n - 1])
        }
    }
}

/// The time of the oldest of the posts that the first `n` of a page add; -1
/// where none of them has a time.
pub open spec fn oldest_added(have: Seq<PostView>, page: Seq<PostView>, n: nat) -> i64
    decreases n,
{
    if n == 0 {
        -1i64
    } else {
        let before = oldest_added(have, page, (n - 1) as nat);
        let p = page[n - 1];
        if has_code(with_page(have, page, (n - 1) as nat), p.shortcode) {
            before
        } else {
            match p.taken_at_unix {
                Some(ts) => if before < 0 || ts < before {
                    ts
                } else {
                    before
                },
                None => before,
            }
        }
    }
}

/// After a request that failed.
pub open spec fn after_failure(s: FeedState, e: Seq<char>) -> FeedState {
    FeedState {
        errors: s.errors.push("feed_query_p"@ + decimal(s.page) + ": "@ + e),
        done: true,
        ..s
    }
}

/// After a request that was refused.
pub open spec fn after_refusal(s: FeedState, status: i64) -> FeedState {
    FeedState {
        errors: s.errors.push("feed_http_"@ + decimal(status as int) + "_p"@ + decimal(s.page)),
        done: true,
        ..s
    }
}

/// Whether a page reaches back as far as is asked for: to a post that is older
/// than the time. At 0 the first page is enough, and below 0 no page is.
pub open spec fn reaches(until: i64, oldest: i64) -> bool {
    until == 0 || (until > 0 && 0 < oldest < until)
}

/// After a page of posts, and the id of their owner where it can be told.
pub open spec fn after_page(
    s: FeedState,
    until: i64,
    owner: Option<Seq<char>>,
    feed: Result<FeedView, FeedFault>,
) -> FeedState {
    let user_id = if s.user_id.len() == 0 {
        match owner {
            Some(id) => id,
            None => s.user_id,
        }
    } else {
        s.user_id
    };
    match feed {
        Err(f) => FeedState {
            user_id,
            errors: s.errors.push("feed_parse_p"@ + decimal(s.page) + ": "@ + f.text()),
            done: true,
            ..s
        },
        Ok(page) => {
            let n = page.posts.len();
            let posts = with_page(s.posts, page.posts, n);
            if !page.has_more || page.next_cursor.len() == 0 {
                FeedState { user_id, posts, done: true, ..s }
            } else {
                FeedState {
                    user_id,
                    posts,
                    page: s.page + 1,
                    cursor: page.next_cursor,
                    done: reaches(until, oldest_added(s.posts, page.posts, n)),
                    ..s
                }
            }
        },
    }
}

/// After a reply, or the message of what kept it from coming.
pub open spec fn after_reply(
    s: FeedState,
    until: i64,
    username: Seq<char>,
    reply: Result<(i64, Seq<char>), Seq<char>>,
) -> FeedState {
    match reply {
        Err(e) => after_failure(s, e),
        Ok((status, body)) => if status >= 400 {
            after_refusal(s, status)
        } else {
            let raw = encode_utf8(body);
            after_page(s, until, feed_owner_id_of_bytes(raw, username), feed_of_bytes(raw))
        },
    }
}

/// What a reply says.
pub open spec fn reply_view(reply: Result<FetchEnvelope, String>) -> Result<
    (i64, Seq<char>),
    Seq<char>,
> {
    match reply {
        Ok(env) => Ok((env.status, env.body@)),
        Err(e) => Err(e@),
    }
}

fn knows_code(record: &ScrapeResult, code: &String) -> (r: bool)
    ensures
        r == has_code(post_views(record.post_list()), code@),
{
    match &record.recent_posts {
        Some(posts) => {
            let ghost views = post_views(posts@);
            let mut i: usize = 0;
            while i < posts.len()
                invariant
                    0 <= i <= posts@.len(),
                    views == post_views(posts@),
                    record.post_list() == posts@,
                    forall|k: int| 0 <= k < i ==> (#[trigger] views[k]).shortcode != code@,
                decreases posts@.len() - i,
            {
                assert(views[i as int] == posts@[i as int]@);
                if posts[i].shortcode == *code {
                    return true;
                }
                i += 1;
            }
            false
        },
        None => false,
    }
}

/// Whether only the id, the posts and the errors of a record changed, and a
/// list of posts is there where one was or a post was added.
pub open spec fn grew(old_record: ScrapeResult, new_record: ScrapeResult) -> bool {
    &&& new_record == (ScrapeResult {
        user_id: new_record.user_id,
        recent_posts: new_record.recent_posts,
        errors: new_record.errors,
        ..old_record
    })
    &&& new_record.recent_posts is Some <==> (old_record.recent_posts is Some
        || new_record.post_list().len() > old_record.post_list().len())
}

/// How many pages are read at most: 8, where no other limit is given.
pub open spec fn page_limit(max_scrolls: i64) -> i64 {
    if max_scrolls <= 0 {
        8
    } else {
        max_scrolls
    }
}

impl FeedPager {
    /// Whether the pages read are within the limit.
    pub open spec fn wf(self) -> bool {
        0 <= self.page <= self.limit
    }

    /// How far this is, with a record.
    pub open spec fn with_record(self, record: ScrapeResult) -> FeedState {
        FeedState {
            page: self.page as int,
            cursor: self.cursor@,
            done: self.done,
            user_id: record.user_id@,
            posts: post_views(record.post_list()),
            errors: texts(record.errors@),
        }
    }

    pub fn new(opts: &ScrapeOpts) -> (r: Self)
        ensures
            r.wf(),
            r.page == 0,
            r.limit == page_limit(opts.max_scrolls),
            r.until == opts.paginate_until_unix,
            r.cursor@ == Seq::<char>::empty(),
            !r.done,
    {
        let limit: i64 = if opts.max_scrolls <= 0 {
            8
        } else {
            opts.max_scrolls
        };
        FeedPager {
            page: 0,
            limit,
            until: opts.paginate_until_unix,
            cursor: String::new(),
            done: false,
        }
    }

    /// Whether another page is to be asked for.
    pub open spec fn wants(self) -> bool {
        !self.done && self.page < self.limit
    }

    /// Whether another page is to be asked for, with a stop requested or not.
    pub fn wants_page(&self, stop: bool) -> (r: bool)
        ensures
            r == (self.wants() && !stop),
    {
        !stop && !self.done && self.page < self.limit
    }

    fn give_up(&mut self, record: &mut ScrapeResult, error: String)
        ensures
            final(self).with_record(*final(record)) == (FeedState {
                errors: old(self).with_record(*old(record)).errors.push(error@),
                done: true,
                ..old(self).with_record(*old(record))
            }),
            *final(self) == (FeedPager { done: true, ..*old(self) }),
            grew(*old(record), *final(record)),
    {
        let ghost before = record.errors@;
        record.push_error(error);
        self.done = true;
        assert(texts(record.errors@) =~= texts(before).push(error@));
    }

    /// Takes in that a request failed.
    pub fn fail(&mut self, record: &mut ScrapeResult, e: &str)
        ensures
            final(self).with_record(*final(record)) == after_failure(
                old(self).with_record(*old(record)),
                e@,
            ),
            *final(self) == (FeedPager { done: true, ..*old(self) }),
            grew(*old(record), *final(record)),
    {
        let mut error = "feed_query_p".to_owned();
        error.append(decimal_text(self.page).as_str());
        error.append(": ");
        error.append(e);
        self.give_up(record, error);
    }

    /// Takes in that a request was refused.
    pub fn refuse(&mut self, record: &mut ScrapeResult, status: i64)
        ensures
            final(self).with_record(*final(record)) == after_refusal(
                old(self).with_record(*old(record)),
                status,
            ),
            *final(self) == (FeedPager { done: true, ..*old(self) }),
            grew(*old(record), *final(record)),
    {
        let mut error = "feed_http_".to_owned();
        error.append(decimal_text(status).as_str());
        error.append("_p");
        error.append(decimal_text(self.page).as_str());
        self.give_up(record, error);
    }

    /// Takes in a page of posts, and the id of their owner where it can be
    /// told.
    pub fn take_page(
        &mut self,
        record: &mut ScrapeResult,
        owner: Option<String>,
        feed: Result<FeedPage, FeedError>,
    )
        requires
            old(self).wf(),
            old(self).wants(),
        ensures
            final(self).wf(),
            final(self).limit == old(self).limit,
            final(self).until == old(self).until,
            final(self).with_record(*final(record)) == after_page(
                old(self).with_record(*old(record)),
                old(self).until,
                opt_text(owner),
                match feed {
                    Ok(page) => Ok(page@),
                    Err(e) => Err(e@),
                },
            ),
            grew(*old(record), *final(record)),
            feed matches Ok(page) ==> {
                let before = post_views(old(record).post_list());
                let after = post_views(final(record).post_list());
                &&& before.is_prefix_of(after)
                &&& forall|k: int|
                    before.len() <= k < after.len() ==> page@.posts.contains(#[trigger] after[k])
                &&& forall|i: int|
                    0 <= i < page@.posts.len() ==> has_code(
                        after,
                        (#[trigger] page@.posts[i]).shortcode,
                    )
            },
    {
        let ghost start = *record;
        if record.user_id.as_str().is_empty() {
            if let Some(id) = owner {
                record.user_id = id;
            }
        }
        let ghost owned = *record;
        let page = match feed {
            Ok(page) => page,
            Err(e) => {
                let mut error = "feed_parse_p".to_owned();
                error.append(decimal_text(self.page).as_str());
                error.append(": ");
                error.append(e.message().as_str());
                self.give_up(record, error);
                return;
            },
        };
        let ghost have = post_views(record.post_list());
        let ghost views = post_views(page.posts@);
        let mut oldest: i64 = -1;
        let mut i: usize = 0;
        while i < page.posts.len()
            invariant
                0 <= i <= page.posts@.len(),
                views == post_views(page.posts@),
                post_views(record.post_list()) == with_page(have, views, i as nat),
                oldest == oldest_added(have, views, i as nat),
                *record == (ScrapeResult { recent_posts: record.recent_posts, ..owned }),
                record.post_list().len() >= owned.post_list().len(),
                record.recent_posts is Some <==> (owned.recent_posts is Some
                    || record.post_list().len() > owned.post_list().len()),
            decreases page.posts@.len() - i,
        {
            let p = &page.posts[i];
            assert(views[i as int] == p@);
            if !knows_code(record, &p.shortcode) {
                if let Some(ts) = p.taken_at_unix {
                    if oldest < 0 || ts < oldest {
                        oldest = ts;
                    }
                }
                let ghost before = record.post_list();
                let copy = p.clone();
                record.push_post(copy);
                assert(post_views(record.post_list()) =~= post_views(before).push(p@));
            }
            i += 1;
        }
        proof {
            lemma_with_page(have, views, views.len());
            let at = lemma_page_adds(have, views, views.len());
            let after = post_views(record.post_list());
            assert forall|k: int| have.len() <= k < after.len() implies views.contains(
                #[trigger] after[k],
            ) by {
                assert(after[k] == views[at[k - have.len()]]);
            }
        }
        if !page.has_more || page.next_cursor.as_str().is_empty() {
            self.done = true;
            return;
        }
        self.cursor = page.next_cursor;
        self.page = self.page + 1;
        self.done = self.until == 0 || (self.until > 0 && oldest > 0 && oldest < self.until);
    }

    /// Takes in the reply to a request for a page.
    pub fn on_reply(&mut self, record: &mut ScrapeResult, reply: Result<FetchEnvelope, String>)
        requires
            old(self).wf(),
            old(self).wants(),
        ensures
            final(self).wf(),
            final(self).limit == old(self).limit,
            final(self).until == old(self).until,
            final(self).with_record(*final(record)) == after_reply(
                old(self).with_record(*old(record)),
                old(self).until,
                old(record).username@,
                reply_view(reply),
            ),
            grew(*old(record), *final(record)),
    {
        match reply {
            Err(e) => self.fail(record, e.as_str()),
            Ok(env) => {
                if env.status >= 400 {
                    self.refuse(record, env.status);
                } else {
                    let raw = env.body.as_str().as_bytes();
                    let owner = user_id_from_feed(raw, record.username.as_str());
                    let feed = parse_graphql_feed(raw);
                    self.take_page(record, owner, feed);
                }
            },
        }
    }
}

// --- laws on the pages ---------------------------------------------------------------

/// Whether no two posts have the same shortcode.
pub open spec fn codes_distinct(posts: Seq<PostView>) -> bool {
    forall|i: int, j: int|
        0 <= i < j < posts.len() ==> (#[trigger] posts[i]).shortcode != (
        #[trigger] posts[j]).shortcode
}

proof fn lemma_with_page(have: Seq<PostView>, page: Seq<PostView>, n: nat)
    requires
        n <= page.len(),
    ensures
        with_page(have, page, n).len() >= have.len(),
        with_page(have, page, n).take(have.len() as int) == have,
        codes_distinct(have) ==> codes_distinct(with_page(have, page, n)),
        forall|i: int|
            0 <= i < n ==> has_code(with_page(have, page, n), (#[trigger] page[i]).shortcode),
    decreases n,
{
    if n == 0 {
        assert(have.take(have.len() as int) =~= have);
    } else {
        let before = with_page(have, page, (n - 1) as nat);
        let after = with_page(have, page, n);
        lemma_with_page(have, page, (n - 1) as nat);
        assert(after.take(have.len() as int) =~= before.take(have.len() as int));
        assert forall|i: int| 0 <= i < n implies has_code(
            after,
            (#[trigger] page[i]).shortcode,
        ) by {
            if i < n - 1 {
                let k = choose|k: int|
                    0 <= k < before.len() && (#[trigger] before[k]).shortcode == page[i].shortcode;
                assert(after[k] == before[k]);
            } else if !has_code(before, page[i].shortcode) {
                assert(after[before.len() as int] == page[i]);
            }
        }
        if codes_distinct(have) && !has_code(before, page[n - 1].shortcode) {
            assert forall|i: int, j: int| 0 <= i < j < after.len() implies (
            #[trigger] after[i]).shortcode != (#[trigger] after[j]).shortcode by {
                if j == before.len() {
                    assert(before[i] == after[i]);
                } else {
                    assert(before[i] == after[i] && before[j] == after[j]);
                }
            }
        }
    }
}

/// Posts are only ever added behind those that are there, and none is there
/// twice, whatever replies come.
pub proof fn law_pages_add_posts_once(
    s: FeedState,
    until: i64,
    username: Seq<char>,
    reply: Result<(i64, Seq<char>), Seq<char>>,
)
    ensures
        after_reply(s, until, username, reply).posts.len() >= s.posts.len(),
        after_reply(s, until, username, reply).posts.take(s.posts.len() as int) == s.posts,
        codes_distinct(s.posts) ==> codes_distinct(after_reply(s, until, username, reply).posts),
{
    assert(s.posts.take(s.posts.len() as int) =~= s.posts);
    if let Ok((status, body)) = reply {
        if status < 400 {
            if let Ok(page) = feed_of_bytes(encode_utf8(body)) {
                lemma_with_page(s.posts, page.posts, page.posts.len());
            }
        }
    }
}

/// Every post of a page that is taken in is then among the posts.
pub proof fn law_pages_lose_no_post(
    s: FeedState,
    until: i64,
    owner: Option<Seq<char>>,
    page: FeedView,
    i: int,
)
    requires
        0 <= i < page.posts.len(),
    ensures
        has_code(
            after_page(s, until, owner, Ok::<FeedView, FeedFault>(page)).posts,
            page.posts[i].shortcode,
        ),
{
    lemma_with_page(s.posts, page.posts, page.posts.len());
}

/// A reply that does not end the reading moves it on by one page: no more
/// pages are asked for than the limit says.
pub proof fn law_every_reply_ends_or_moves_on(
    s: FeedState,
    until: i64,
    username: Seq<char>,
    reply: Result<(i64, Seq<char>), Seq<char>>,
)
    ensures
        after_reply(s, until, username, reply).done || after_reply(
            s,
            until,
            username,
            reply,
        ).page == s.page + 1,
        until == 0 ==> after_reply(s, until, username, reply).done,
{
}

/// An id that is known is not changed by later pages.
pub proof fn law_known_id_stays(
    s: FeedState,
    until: i64,
    username: Seq<char>,
    reply: Result<(i64, Seq<char>), Seq<char>>,
)
    requires
        s.user_id.len() > 0,
    ensures
        after_reply(s, until, username, reply).user_id == s.user_id,
{
}

// --- laws on what pages bring --------------------------------------------------------

proof fn lemma_page_adds(have: Seq<PostView>, page: Seq<PostView>, n: nat) -> (at: Seq<int>)
    requires
        n <= page.len(),
    ensures
        rising(at, n),
        with_page(have, page, n) == have + Seq::new(at.len(), |k: int| page[at[k]]),
        forall|k: int|
            0 <= k < at.len() ==> !has_code(have, page[#[trigger] at[k]].shortcode) && forall|j: int|
                0 <= j < at[k] ==> (#[trigger] page[j]).shortcode != page[at[k]].shortcode,
        forall|i: int|
            0 <= i < n && !has_code(have, (#[trigger] page[i]).shortcode) && (forall|j: int|
                0 <= j < i ==> (#[trigger] page[j]).shortcode != page[i].shortcode)
                ==> at.contains(i),
    decreases n,
{
    if n == 0 {
        let at = Seq::<int>::empty();
        assert(have + Seq::new(at.len(), |k: int| page[at[k]]) =~= have);
        at
    } else {
        let at = lemma_page_adds(have, page, (n - 1) as nat);
        let before = with_page(have, page, (n - 1) as nat);
        let picked = Seq::new(at.len(), |k: int| page[at[k]]);
        let code = page[n - 1].shortcode;
        lemma_rising_push(at, (n - 1) as nat);
        lemma_with_page(have, page, (n - 1) as nat);
        if has_code(before, code) {
            assert forall|i: int|
                0 <= i < n && !has_code(have, (#[trigger] page[i]).shortcode) && (forall|j: int|
                    0 <= j < i ==> (#[trigger] page[j]).shortcode
                        != page[i].shortcode) implies at.contains(i) by {
                if i == n - 1 {
                    let k = choose|k: int|
                        0 <= k < before.len() && (#[trigger] before[k]).shortcode == code;
                    if k < have.len() {
                        assert(have[k] == before[k]);
                    } else {
                        assert(before[k] == picked[k - have.len()]);
                        assert(page[at[k - have.len()]].shortcode == code);
                    }
                    assert(false);
                }
            }
            at
        } else {
            let all = at.push(n - 1);
            assert(have + Seq::new(all.len(), |k: int| page[all[k]]) =~= (have + picked).push(
                page[n - 1],
            ));
            assert(!has_code(have, code)) by {
                if has_code(have, code) {
                    let k = choose|k: int|
                        0 <= k < have.len() && (#[trigger] have[k]).shortcode == code;
                    assert(before[k] == have[k]);
                }
            }
            assert forall|j: int| 0 <= j < n - 1 implies (#[trigger] page[j]).shortcode != code by {
                assert(has_code(before, page[j].shortcode));
            }
            assert forall|k: int| 0 <= k < all.len() implies !has_code(
                have,
                page[#[trigger] all[k]].shortcode,
            ) && forall|j: int|
                0 <= j < all[k] ==> (#[trigger] page[j]).shortcode != page[all[k]].shortcode by {
                if k < at.len() {
                    assert(all[k] == at[k]);
                }
            }
            assert forall|i: int|
                0 <= i < n && !has_code(have, (#[trigger] page[i]).shortcode) && (forall|j: int|
                    0 <= j < i ==> (#[trigger] page[j]).shortcode
                        != page[i].shortcode) implies all.contains(i) by {
                if i < n - 1 {
                    let k = choose|k: int| 0 <= k < at.len() && at[k] == i;
                    assert(all[k] == i);
                } else {
                    assert(all[at.len() as int] == i);
                }
            }
            all
        }
    }
}

/// A page adds its posts whole and in order behind those that are there: each of
/// them that has a shortcode that neither a post that is there nor one before it
/// on the page has, and no other.
pub proof fn law_pages_add_their_posts_whole(
    s: FeedState,
    until: i64,
    owner: Option<Seq<char>>,
    page: FeedView,
) -> (at: Seq<int>)
    ensures
        rising(at, page.posts.len()),
        after_page(s, until, owner, Ok::<FeedView, FeedFault>(page)).posts == s.posts + Seq::new(
            at.len(),
            |k: int| page.posts[at[k]],
        ),
        forall|i: int|
            0 <= i < page.posts.len() ==> (at.contains(i) <==> !has_code(
                s.posts,
                (#[trigger] page.posts[i]).shortcode,
            ) && forall|j: int|
                0 <= j < i ==> (#[trigger] page.posts[j]).shortcode != page.posts[i].shortcode),
{
    let at = lemma_page_adds(s.posts, page.posts, page.posts.len());
    assert forall|i: int|
        0 <= i < page.posts.len() && at.contains(i) implies !has_code(
        s.posts,
        (#[trigger] page.posts[i]).shortcode,
    ) && forall|j: int|
        0 <= j < i ==> (#[trigger] page.posts[j]).shortcode != page.posts[i].shortcode by {
        let k = choose|k: int| 0 <= k < at.len() && at[k] == i;
        assert(page.posts[at[k]] == page.posts[i]);
    }
    at
}

proof fn lemma_oldest(have: Seq<PostView>, page: Seq<PostView>, n: nat)
    requires
        n <= page.len(),
        forall|i: int|
            0 <= i < page.len() ==> ((#[trigger] page[i]).taken_at_unix matches Some(ts) ==> ts
                > 0),
    ensures
        with_page(have, page, n).len() >= have.len(),
        oldest_added(have, page, n) == -1 || oldest_added(have, page, n) > 0,
        forall|i: int|
            have.len() <= i < with_page(have, page, n).len() ==> ((#[trigger] with_page(
                have,
                page,
                n,
            )[i]).taken_at_unix matches Some(ts) ==> 0 < oldest_added(have, page, n) <= ts),
        oldest_added(have, page, n) > 0 ==> exists|i: int|
            have.len() <= i < with_page(have, page, n).len() && (#[trigger] with_page(
                have,
                page,
                n,
            )[i]).taken_at_unix == Some(oldest_added(have, page, n)),
    decreases n,
{
    if n > 0 {
        lemma_oldest(have, page, (n - 1) as nat);
        let before = with_page(have, page, (n - 1) as nat);
        let after = with_page(have, page, n);
        let was = oldest_added(have, page, (n - 1) as nat);
        let is = oldest_added(have, page, n);
        let p = page[n - 1];
        assert(page[n - 1] == p);
        if !has_code(before, p.shortcode) {
            assert(after.last() == p);
            if is > 0 {
                if p.taken_at_unix == Some(is) {
                    assert(after[before.len() as int].taken_at_unix == Some(is));
                } else {
                    let i = choose|i: int|
                        have.len() <= i < before.len() && (#[trigger] before[i]).taken_at_unix
                            == Some(was);
                    assert(after[i] == before[i]);
                }
            }
            assert forall|i: int| have.len() <= i < after.len() implies ((
            #[trigger] after[i]).taken_at_unix matches Some(ts) ==> 0 < is <= ts) by {
                if i < before.len() {
                    assert(after[i] == before[i]);
                } else {
                    assert(after[i] == p);
                }
            }
        }
    }
}

/// A page that says where it goes on is followed by the next one, asked for with
/// its cursor, unless only the first page is wanted or the page brought a post
/// that is older than the time.
pub proof fn law_paging_goes_on_to_the_time(
    s: FeedState,
    until: i64,
    owner: Option<Seq<char>>,
    page: FeedView,
)
    requires
        page.has_more,
        page.next_cursor.len() > 0,
        forall|i: int|
            0 <= i < page.posts.len() ==> ((
            #[trigger] page.posts[i]).taken_at_unix matches Some(ts) ==> ts > 0),
    ensures
        ({
            let r = after_page(s, until, owner, Ok::<FeedView, FeedFault>(page));
            &&& r.cursor == page.next_cursor
            &&& r.page == s.page + 1
            &&& r.errors == s.errors
            &&& r.done <==> (until == 0 || (until > 0 && exists|i: int|
                s.posts.len() <= i < r.posts.len() && ((
                #[trigger] r.posts[i]).taken_at_unix matches Some(ts) && ts < until)))
        }),
{
    let n = page.posts.len();
    let r = after_page(s, until, owner, Ok::<FeedView, FeedFault>(page));
    let oldest = oldest_added(s.posts, page.posts, n);
    lemma_oldest(s.posts, page.posts, n);
    if until > 0 && exists|i: int|
        s.posts.len() <= i < r.posts.len() && ((
        #[trigger] r.posts[i]).taken_at_unix matches Some(ts) && ts < until) {
        let i = choose|i: int|
            s.posts.len() <= i < r.posts.len() && ((
            #[trigger] r.posts[i]).taken_at_unix matches Some(ts) && ts < until);
        assert(0 < oldest <= r.posts[i].taken_at_unix->0);
    }
    if oldest > 0 {
        let i = choose|i: int|
            s.posts.len() <= i < r.posts.len() && (#[trigger] r.posts[i]).taken_at_unix == Some(
                oldest,
            );
        assert(r.posts[i].taken_at_unix == Some(oldest));
    }
}

/// A page that says that it is the last one, or does not say where to go on,
/// ends the reading without an error.
pub proof fn law_last_page_ends_the_reading(
    s: FeedState,
    until: i64,
    owner: Option<Seq<char>>,
    page: FeedView,
)
    requires
        !page.has_more || page.next_cursor.len() == 0,
    ensures
        after_page(s, until, owner, Ok::<FeedView, FeedFault>(page)).done,
        after_page(s, until, owner, Ok::<FeedView, FeedFault>(page)).errors == s.errors,
{
}

/// The owner's id is taken from the first page that tells it.
pub proof fn law_first_known_id_is_kept(
    s: FeedState,
    until: i64,
    id: Seq<char>,
    feed: Result<FeedView, FeedFault>,
)
    ensures
        s.user_id.len() == 0 ==> after_page(s, until, Some(id), feed).user_id == id,
        s.user_id.len() > 0 ==> after_page(s, until, Some(id), feed).user_id == s.user_id,
        after_page(s, until, None, feed).user_id == s.user_id,
{
}

/// What goes wrong with a page is noted with its number and ends the reading,
/// and what was read before stays.
pub proof fn law_faults_end_the_reading(
    s: FeedState,
    until: i64,
    username: Seq<char>,
    e: Seq<char>,
    status: i64,
    body: Seq<char>,
)
    requires
        status >= 400,
    ensures
        after_reply(s, until, username, Err::<(i64, Seq<char>), Seq<char>>(e)) == (FeedState {
            errors: s.errors.push("feed_query_p"@ + decimal(s.page) + ": "@ + e),
            done: true,
            ..s
        }),
        after_reply(s, until, username, Ok::<(i64, Seq<char>), Seq<char>>((status, body))) == (
        FeedState {
            errors: s.errors.push("feed_http_"@ + decimal(status as int) + "_p"@ + decimal(s.page)),
            done: true,
            ..s
        }),
{
}

/// A reply that was not refused is read as a page and as a word on its owner;
/// one that cannot be read is noted, brings no post and ends the reading.
pub proof fn law_replies_are_read(
    s: FeedState,
    until: i64,
    username: Seq<char>,
    status: i64,
    body: Seq<char>,
)
    requires
        status < 400,
    ensures
        after_reply(s, until, username, Ok::<(i64, Seq<char>), Seq<char>>((status, body)))
            == after_page(
            s,
            until,
            feed_owner_id_of_bytes(encode_utf8(body), username),
            feed_of_bytes(encode_utf8(body)),
        ),
        feed_of_bytes(encode_utf8(body)) matches Err(f) ==> ({
            let r = after_reply(
                s,
                until,
                username,
                Ok::<(i64, Seq<char>), Seq<char>>((status, body)),
            );
            &&& r.done
            &&& r.posts == s.posts
            &&& r.errors == s.errors.push("feed_parse_p"@ + decimal(s.page) + ": "@ + f.text())
        }),
{
}

/// A page is a login page exactly when its address holds `/accounts/login`, and
/// says that there is no such profile exactly when its text holds one of two
/// sentences. A login comes first.
pub proof fn law_pages_are_told_apart(a: Seq<char>, b: Seq<char>, d: DomRead)
    ensures
        is_login_address(a + "/accounts/login"@ + b),
        says_not_found(a + "Sorry, this page isn"@ + b),
        says_not_found(a + "page isn't available"@ + b),
        is_login_address(a) ==> occurs(a, "/accounts/login"@),
        says_not_found(a) ==> occurs(a, "Sorry, this page isn"@) || occurs(
            a,
            "page isn't available"@,
        ),
        d.is_login_page ==> (d.ending() matches Some(o) && o.requires_login
            && !o.profile_not_found && o.err is None && o.result is None),
        !d.is_login_page && d.not_found ==> (d.ending() matches Some(o) && o.profile_not_found
            && !o.requires_login && o.err is None && o.result is None),
        !d.is_login_page && !d.not_found ==> d.ending() is None,
{
    lemma_occurs_between(a, "/accounts/login"@, b);
    lemma_occurs_between(a, "Sorry, this page isn"@, b);
    lemma_occurs_between(a, "page isn't available"@, b);
}

/// The recorder has seen enough from a count of two on.
pub proof fn law_two_requests_settle_a_page(n: i64)
    ensures
        has_settled(decimal(n as int)) <==> n >= 2,
{
    law_decimal_reads_back(n);
}

/// As many pages are read at most as is asked for, or else eight; another one is
/// asked for until the reading is done or so many were read.
pub proof fn law_pages_are_limited(max_scrolls: i64, p: FeedPager)
    ensures
        max_scrolls > 0 ==> page_limit(max_scrolls) == max_scrolls,
        max_scrolls <= 0 ==> page_limit(max_scrolls) == 8,
        p.wants() <==> !p.done && p.page < p.limit,
{
}

/// Reading posts changes nothing of a record but its id, its posts and its
/// errors; and no post, error or part of the cursor is out of sight.
pub proof fn law_reading_leaves_the_rest(p: FeedPager, before: ScrapeResult, after: ScrapeResult)
    requires
        grew(before, after),
    ensures
        after.username == before.username && after.source == before.source,
        after.full_name == before.full_name && after.biography == before.biography,
        after.is_private == before.is_private && after.followers == before.followers,
        after.following == before.following && after.posts == before.posts,
        after.scraped_at == before.scraped_at && after.window_days == before.window_days,
        after.window_maybe_truncated == before.window_maybe_truncated,
        before.recent_posts is Some ==> after.recent_posts is Some,
        after.recent_posts is None ==> after.post_list().len() == 0,
        p.with_record(after).posts == post_views(after.post_list()),
        p.with_record(after).errors == texts(after.errors@),
        p.with_record(after).user_id == after.user_id@,
        p.with_record(after).cursor == p.cursor@ && p.with_record(after).done == p.done
            && p.with_record(after).page == p.page,
{
}

/// What a scan comes to leaves nothing of it out, and one that says nothing says
/// nothing.
pub proof fn law_outcomes_are_known_whole(o: Outcome)
    ensures
        o.result is Some <==> o@.result is Some,
        o.result matches Some(r) ==> o@.result == Some(r@),
        o.err is Some <==> o@.err is Some,
        o.err matches Some(e) ==> o@.err == Some(e@),
        o@.requires_login == o.requires_login && o@.profile_not_found == o.profile_not_found,
        o@.missing_schema == texts(o.missing_schema@),
        blank_outcome().result is None && blank_outcome().err is None,
        !blank_outcome().requires_login && !blank_outcome().profile_not_found,
        blank_outcome().missing_schema.len() == 0,
{
}

/// A reply is its status and its body, or what kept it from coming.
pub proof fn law_replies_are_known_whole(env: FetchEnvelope, e: String)
    ensures
        reply_view(Ok::<FetchEnvelope, String>(env)) == Ok::<(i64, Seq<char>), Seq<char>>(
            (env.status, env.body@),
        ),
        reply_view(Err::<FetchEnvelope, String>(e)) == Err::<(i64, Seq<char>), Seq<char>>(e@),
{
}

/// A profile is found under its username.
pub proof fn law_profiles_have_addresses(username: Seq<char>)
    ensures
        profile_address(username) == "https://www.instagram.com/"@ + username + "/"@,
{
}

} // verus!
