//! What a scan writes: one record per profile, with its recent posts, and the
//! filter that keeps the posts of a time window.

use crate::clock::{utc_now, Timestamp, SECS_PER_DAY};
use vstd::prelude::*;

verus! {

use crate::text::texts;

/// The text in an optional string.
pub open spec fn opt_text(o: Option<String>) -> Option<Seq<char>> {
    match o {
        Some(s) => Some(s@),
        None => None,
    }
}

// --- posts -------------------------------------------------------------------------

/// A copy of an optional string.
pub(crate) fn copy_text(o: &Option<String>) -> (r: Option<String>)
    ensures
        opt_text(r) == opt_text(*o),
{
    match o {
        Some(s) => Some(s.clone()),
        None => None,
    }
}

/// A post of a profile.
#[derive(Debug)]
pub struct RecentPost {
    pub shortcode: String,
    pub url: String,
    pub caption: Option<String>,
    pub is_video: Option<bool>,
    pub taken_at_unix: Option<i64>,
    pub display_url: Option<String>,
    pub local_path: Option<String>,
    pub media_count: Option<i64>,
    pub is_carousel: Option<bool>,
    pub has_video: Option<bool>,
}

/// What a post says.
pub struct PostView {
    pub shortcode: Seq<char>,
    pub url: Seq<char>,
    pub caption: Option<Seq<char>>,
    pub is_video: Option<bool>,
    pub taken_at_unix: Option<i64>,
    pub display_url: Option<Seq<char>>,
    pub local_path: Option<Seq<char>>,
    pub media_count: Option<i64>,
    pub is_carousel: Option<bool>,
    pub has_video: Option<bool>,
}

impl View for RecentPost {
    type V = PostView;

    open spec fn view(&self) -> PostView {
        PostView {
            shortcode: self.shortcode@,
            url: self.url@,
            caption: opt_text(self.caption),
            is_video: self.is_video,
            taken_at_unix: self.taken_at_unix,
            display_url: opt_text(self.display_url),
            local_path: opt_text(self.local_path),
            media_count: self.media_count,
            is_carousel: self.is_carousel,
            has_video: self.has_video,
        }
    }
}

impl Clone for RecentPost {
    fn clone(&self) -> (r: Self)
        ensures
            r@ == self@,
    {
        RecentPost {
            shortcode: self.shortcode.clone(),
            url: self.url.clone(),
            caption: copy_text(&self.caption),
            is_video: self.is_video,
            taken_at_unix: self.taken_at_unix,
            display_url: copy_text(&self.display_url),
            local_path: copy_text(&self.local_path),
            media_count: self.media_count,
            is_carousel: self.is_carousel,
            has_video: self.has_video,
        }
    }
}

/// A post of which only the shortcode is known.
pub open spec fn bare_post(shortcode: Seq<char>) -> PostView {
    PostView {
        shortcode,
        url: "https://www.instagram.com/p/"@ + shortcode + "/"@,
        caption: None,
        is_video: None,
        taken_at_unix: None,
        display_url: None,
        local_path: None,
        media_count: None,
        is_carousel: None,
        has_video: None,
    }
}

impl RecentPost {
    pub fn new(shortcode: String) -> (r: Self)
        ensures
            r@ == bare_post(shortcode@),
    {
        let mut url = "https://www.instagram.com/p/".to_owned();
        url.append(shortcode.as_str());
        url.append("/");
        RecentPost {
            shortcode,
            url,
            caption: None,
            is_video: None,
            taken_at_unix: None,
            display_url: None,
            local_path: None,
            media_count: None,
            is_carousel: None,
            has_video: None,
        }
    }
}

/// What a list of posts says.
pub open spec fn post_views(posts: Seq<RecentPost>) -> Seq<PostView> {
    Seq::new(posts.len(), |i: int| posts[i]@)
}

// --- what a written record leaves out ------------------------------------------------

/// Whether a count is left out of a written record.
pub fn is_zero(n: &i64) -> (r: bool)
    ensures
        r == (*n == 0),
{
    *n == 0
}

/// Whether a flag is left out of a written record.
pub fn is_false(b: &bool) -> (r: bool)
    ensures
        r == !*b,
{
    !*b
}

/// Whether an optional flag is left out of a written record: unless it is set
/// and true.
pub fn is_false_opt(b: &Option<bool>) -> (r: bool)
    ensures
        r == (*b != Some(true)),
{
    match b {
        Some(v) => !*v,
        None => true,
    }
}

/// How many media a written post says it has: only one that is a carousel or
/// holds a video says so.
pub open spec fn media_count_written(p: PostView) -> Option<i64> {
    if p.is_carousel == Some(true) || p.has_video == Some(true) {
        p.media_count
    } else {
        None
    }
}

impl RecentPost {
    pub fn written_media_count(&self) -> (r: Option<i64>)
        ensures
            r == media_count_written(self@),
    {
        if is_false_opt(&self.is_carousel) && is_false_opt(&self.has_video) {
            None
        } else {
            self.media_count
        }
    }
}

// --- records -----------------------------------------------------------------------

/// One line of output per username.
#[derive(Debug)]
pub struct ScrapeResult {
    pub scraped_at: Timestamp,
    pub username: String,
    pub user_id: String,
    pub source: String,
    pub full_name: Option<String>,
    pub biography: Option<String>,
    pub is_private: Option<bool>,
    pub followers: Option<i64>,
    pub following: Option<i64>,
    pub posts: Option<i64>,
    pub recent_posts: Option<Vec<RecentPost>>,
    pub window_days: i64,
    pub window_maybe_truncated: bool,
    pub errors: Vec<String>,
}

/// What a record says.
pub struct RecordView {
    pub scraped_at: Timestamp,
    pub username: Seq<char>,
    pub user_id: Seq<char>,
    pub source: Seq<char>,
    pub full_name: Option<Seq<char>>,
    pub biography: Option<Seq<char>>,
    pub is_private: Option<bool>,
    pub followers: Option<i64>,
    pub following: Option<i64>,
    pub posts: Option<i64>,
    pub recent_posts: Option<Seq<PostView>>,
    pub window_days: i64,
    pub window_maybe_truncated: bool,
    pub errors: Seq<Seq<char>>,
}

impl View for ScrapeResult {
    type V = RecordView;

    open spec fn view(&self) -> RecordView {
        RecordView {
            scraped_at: self.scraped_at,
            username: self.username@,
            user_id: self.user_id@,
            source: self.source@,
            full_name: opt_text(self.full_name),
            biography: opt_text(self.biography),
            is_private: self.is_private,
            followers: self.followers,
            following: self.following,
            posts: self.posts,
            recent_posts: match self.recent_posts {
                Some(posts) => Some(post_views(posts@)),
                None => None,
            },
            window_days: self.window_days,
            window_maybe_truncated: self.window_maybe_truncated,
            errors: texts(self.errors@),
        }
    }
}

/// What a record says that says no more than when it was made, whom it is about
/// and where it is from.
pub open spec fn bare_record(
    username: Seq<char>,
    source: Seq<char>,
    now: Timestamp,
) -> RecordView {
    RecordView {
        scraped_at: now,
        username,
        user_id: Seq::empty(),
        source,
        full_name: None,
        biography: None,
        is_private: None,
        followers: None,
        following: None,
        posts: None,
        recent_posts: None,
        window_days: 0,
        window_maybe_truncated: false,
        errors: Seq::empty(),
    }
}

/// Where a window of so many days before `now` begins, in seconds.
pub open spec fn window_start(days: i64, now: int) -> int {
    now - days * SECS_PER_DAY
}

/// Whether a post was taken at the cutoff or later. One that does not say when
/// was not.
pub open spec fn in_window(p: RecentPost, cutoff: int) -> bool {
    match p.taken_at_unix {
        Some(ts) => ts >= cutoff,
        None => false,
    }
}

/// The posts that were taken at the cutoff or later, in order.
pub open spec fn windowed(posts: Seq<RecentPost>, cutoff: int) -> Seq<RecentPost>
    decreases posts.len(),
{
    if posts.len() == 0 {
        posts
    } else if in_window(posts.last(), cutoff) {
        windowed(posts.drop_last(), cutoff).push(posts.last())
    } else {
        windowed(posts.drop_last(), cutoff)
    }
}

/// Whether a window kept all posts there were, of at least one: the oldest is
/// then still inside it.
pub open spec fn all_inside(before: Seq<RecentPost>, after: Seq<RecentPost>) -> bool {
    before.len() > 0 && after.len() == before.len()
}

impl ScrapeResult {
    /// The posts of the record; none where it has no list.
    pub open spec fn post_list(self) -> Seq<RecentPost> {
        match self.recent_posts {
            Some(posts) => posts@,
            None => Seq::empty(),
        }
    }

    /// A record that was made at `now`.
    pub fn new_at(username: &str, source: &str, now: Timestamp) -> (r: Self)
        ensures
            r@ == bare_record(username@, source@, now),
    {
        let r = ScrapeResult {
            scraped_at: now,
            username: username.to_owned(),
            user_id: String::new(),
            source: source.to_owned(),
            full_name: None,
            biography: None,
            is_private: None,
            followers: None,
            following: None,
            posts: None,
            recent_posts: None,
            window_days: 0,
            window_maybe_truncated: false,
            errors: Vec::new(),
        };
        assert(texts(r.errors@) =~= Seq::<Seq<char>>::empty());
        r
    }

    pub fn new(username: &str, source: &str) -> (r: Self)
        ensures
            r@ == bare_record(username@, source@, r.scraped_at),
            r.scraped_at.wf(),
    {
        let now = utc_now();
        Self::new_at(username, source, now)
    }

    /// The record of a profile of which nothing was read.
    pub fn status_line(username: &str, source: &str, errors: Vec<String>) -> (r: Self)
        ensures
            r@ == (RecordView {
                errors: texts(errors@),
                ..bare_record(username@, source@, r.scraped_at)
            }),
            r.scraped_at.wf(),
    {
        let mut r = ScrapeResult::new(username, source);
        r.errors = errors;
        r
    }

    /// Adds a post behind the others.
    pub fn push_post(&mut self, p: RecentPost)
        ensures
            final(self).recent_posts is Some,
            final(self).post_list() == old(self).post_list().push(p),
            *final(self) == (ScrapeResult { recent_posts: final(self).recent_posts, ..*old(self) }),
    {
        let mut list = match self.recent_posts.take() {
            Some(list) => list,
            None => Vec::new(),
        };
        list.push(p);
        self.recent_posts = Some(list);
    }

    /// Adds an error behind the others.
    pub fn push_error(&mut self, e: String)
        ensures
            final(self).errors@ == old(self).errors@.push(e),
            final(self)@ == (RecordView { errors: old(self)@.errors.push(e@), ..old(self)@ }),
            *final(self) == (ScrapeResult { errors: final(self).errors, ..*old(self) }),
    {
        let ghost before = self.errors@;
        self.errors.push(e);
        assert(texts(self.errors@) =~= texts(before).push(e@));
    }

    /// Whether there is anything for a window of so many days to filter.
    pub open spec fn has_window(self, days: i64) -> bool {
        days > 0 && self.post_list().len() > 0
    }

    /// Keeps the posts that were taken in the `days` before `now` (in seconds).
    /// True when all were kept: the oldest post seen is then still inside the
    /// window, so more may lie behind it. `days <= 0` turns the filter off.
    pub fn filter_by_window_at(&mut self, days: i64, now: i64) -> (r: bool)
        requires
            old(self).has_window(days) ==> days * SECS_PER_DAY <= i64::MAX,
            now >= 0,
        ensures
            r == (days > 0 && all_inside(old(self).post_list(), final(self).post_list())),
            !old(self).has_window(days) ==> *final(self) == *old(self),
            old(self).has_window(days) ==> {
                &&& final(self).recent_posts is Some
                &&& final(self).post_list() == windowed(
                    old(self).post_list(),
                    window_start(days, now as int),
                )
                &&& *final(self) == (ScrapeResult {
                    recent_posts: final(self).recent_posts,
                    ..*old(self)
                })
            },
    {
        if days <= 0 {
            return false;
        }
        let mut list = match self.recent_posts.take() {
            Some(list) => list,
            None => {
                return false;
            },
        };
        if list.len() == 0 {
            self.recent_posts = Some(list);
            return false;
        }
        let cutoff: i64 = now - days * SECS_PER_DAY;
        let before: usize = list.len();
        keep_windowed(&mut list, cutoff);
        let all = list.len() == before;
        self.recent_posts = Some(list);
        all
    }

    /// Keeps the posts that were taken in the `days` before now. See
    /// `filter_by_window_at`.
    pub fn filter_by_window(&mut self, days: i64) -> (r: bool)
        requires
            old(self).has_window(days) ==> days * SECS_PER_DAY <= i64::MAX,
        ensures
            r == (days > 0 && all_inside(old(self).post_list(), final(self).post_list())),
            !old(self).has_window(days) ==> *final(self) == *old(self),
            old(self).has_window(days) ==> {
                &&& final(self).recent_posts is Some
                &&& exists|now: Timestamp|
                    #![trigger now.wf()]
                    now.wf() && final(self).post_list() == windowed(
                        old(self).post_list(),
                        window_start(days, now.secs as int),
                    )
                &&& *final(self) == (ScrapeResult {
                    recent_posts: final(self).recent_posts,
                    ..*old(self)
                })
            },
    {
        let now = utc_now();
        self.filter_by_window_at(days, now.secs)
    }
}

/// Takes the posts out that are older than the cutoff, or do not say.
fn keep_windowed(list: &mut Vec<RecentPost>, cutoff: i64)
    ensures
        final(list)@ == windowed(old(list)@, cutoff as int),
{
    let ghost all = list@;
    let ghost mut seen: int = 0;
    let mut i: usize = 0;
    assert(all.take(0) =~= Seq::<RecentPost>::empty());
    assert(all.skip(0) =~= all);
    assert(windowed(all.take(0), cutoff as int) + all.skip(0) =~= all);
    while i < list.len()
        invariant
            0 <= seen <= all.len(),
            i == windowed(all.take(seen), cutoff as int).len(),
            list@ == windowed(all.take(seen), cutoff as int) + all.skip(seen),
        decreases all.len() - seen,
    {
        let ghost before = windowed(all.take(seen), cutoff as int);
        assert(all.take(seen + 1).drop_last() =~= all.take(seen));
        assert(all.take(seen + 1).last() == all[seen]);
        assert(list@[i as int] == all[seen]);
        let keep = match list[i].taken_at_unix {
            Some(ts) => ts >= cutoff,
            None => false,
        };
        if keep {
            i += 1;
            assert(before.push(all[seen]) + all.skip(seen + 1) =~= before + all.skip(seen));
        } else {
            list.remove(i);
            assert(list@ =~= before + all.skip(seen + 1));
        }
        proof {
            seen = seen + 1;
        }
    }
    assert(all.take(seen) =~= all);
    assert(all.skip(seen) =~= Seq::<RecentPost>::empty());
    assert(list@ =~= windowed(all, cutoff as int));
}

// --- laws ----------------------------------------------------------------------------

/// What a window keeps lies inside it, and comes from the posts that were
/// there.
pub proof fn law_window_keeps_only_its_own(posts: Seq<RecentPost>, cutoff: int)
    ensures
        forall|i: int|
            0 <= i < windowed(posts, cutoff).len() ==> in_window(
                #[trigger] windowed(posts, cutoff)[i],
                cutoff,
            ) && posts.contains(windowed(posts, cutoff)[i]),
        windowed(posts, cutoff).len() <= posts.len(),
    decreases posts.len(),
{
    if posts.len() > 0 {
        let rest = posts.drop_last();
        law_window_keeps_only_its_own(rest, cutoff);
        assert forall|i: int| 0 <= i < windowed(posts, cutoff).len() implies in_window(
            #[trigger] windowed(posts, cutoff)[i],
            cutoff,
        ) && posts.contains(windowed(posts, cutoff)[i]) by {
            if i < windowed(rest, cutoff).len() {
                let p = windowed(rest, cutoff)[i];
                assert(rest.contains(p));
                let k = choose|k: int| 0 <= k < rest.len() && rest[k] == p;
                assert(posts[k] == p);
            } else {
                assert(posts[posts.len() - 1] == posts.last());
            }
        }
    }
}

/// A window loses no post that lies inside it.
pub proof fn law_window_loses_nothing_inside(posts: Seq<RecentPost>, cutoff: int, i: int)
    requires
        0 <= i < posts.len(),
        in_window(posts[i], cutoff),
    ensures
        windowed(posts, cutoff).contains(posts[i]),
    decreases posts.len(),
{
    let rest = posts.drop_last();
    if i == rest.len() {
        let w = windowed(posts, cutoff);
        assert(w[w.len() - 1] == posts[i]);
    } else {
        law_window_loses_nothing_inside(rest, cutoff, i);
        let w = windowed(rest, cutoff);
        let k = choose|k: int| 0 <= k < w.len() && w[k] == posts[i];
        assert(windowed(posts, cutoff)[k] == posts[i]);
    }
}

/// A window keeps all posts exactly when all lie inside it.
pub proof fn law_window_keeps_all_inside(posts: Seq<RecentPost>, cutoff: int)
    ensures
        windowed(posts, cutoff).len() == posts.len() <==> (forall|i: int|
            0 <= i < posts.len() ==> in_window(#[trigger] posts[i], cutoff)),
    decreases posts.len(),
{
    if posts.len() > 0 {
        let rest = posts.drop_last();
        law_window_keeps_all_inside(rest, cutoff);
        law_window_keeps_only_its_own(rest, cutoff);
        if forall|i: int| 0 <= i < posts.len() ==> in_window(#[trigger] posts[i], cutoff) {
            assert forall|i: int| 0 <= i < rest.len() implies in_window(
                #[trigger] rest[i],
                cutoff,
            ) by {
                assert(rest[i] == posts[i]);
            }
            assert(in_window(posts[posts.len() - 1], cutoff));
        }
        if windowed(posts, cutoff).len() == posts.len() {
            assert forall|i: int| 0 <= i < posts.len() implies in_window(
                #[trigger] posts[i],
                cutoff,
            ) by {
                if i < rest.len() {
                    assert(rest[i] == posts[i]);
                }
            }
        }
    }
}

/// Filtering twice by one window is filtering once.
pub proof fn law_window_is_idempotent(posts: Seq<RecentPost>, cutoff: int)
    ensures
        windowed(windowed(posts, cutoff), cutoff) == windowed(posts, cutoff),
    decreases posts.len(),
{
    if posts.len() > 0 {
        law_window_is_idempotent(posts.drop_last(), cutoff);
        if in_window(posts.last(), cutoff) {
            let w = windowed(posts.drop_last(), cutoff);
            assert(w.push(posts.last()).drop_last() =~= w);
        }
    }
}

/// A window of so many days begins that many times 86400 seconds before now, and
/// a post at its very beginning is inside.
pub proof fn law_window_reaches_back_in_days(p: RecentPost, days: i64, now: int)
    ensures
        window_start(days, now) == now - days * 86400,
        in_window(p, window_start(days, now)) <==> (p.taken_at_unix matches Some(ts) && ts >= now
            - days * 86400),
{
}

/// A window is filtered post by post: the posts of two lists, one behind the
/// other, are kept as each list's are, and a single post is kept whole exactly
/// when its time is not before the cutoff.
pub proof fn law_window_filters_post_by_post(
    a: Seq<RecentPost>,
    b: Seq<RecentPost>,
    p: RecentPost,
    cutoff: int,
)
    ensures
        windowed(a + b, cutoff) == windowed(a, cutoff) + windowed(b, cutoff),
        windowed(seq![p], cutoff) == (if p.taken_at_unix matches Some(ts) && ts >= cutoff {
            seq![p]
        } else {
            Seq::<RecentPost>::empty()
        }),
    decreases b.len(),
{
    if b.len() == 0 {
        assert(a + b =~= a);
        assert(windowed(a, cutoff) + windowed(b, cutoff) =~= windowed(a, cutoff));
    } else {
        law_window_filters_post_by_post(a, b.drop_last(), p, cutoff);
        assert((a + b).drop_last() =~= a + b.drop_last());
        assert((a + b).last() == b.last());
        assert(windowed(a + b, cutoff) =~= windowed(a, cutoff) + windowed(b, cutoff));
    }
    assert(seq![p].drop_last() =~= Seq::<RecentPost>::empty());
    assert(windowed(Seq::<RecentPost>::empty(), cutoff) =~= Seq::<RecentPost>::empty());
    assert(windowed(seq![p], cutoff) =~= (if p.taken_at_unix matches Some(ts) && ts >= cutoff {
        seq![p]
    } else {
        Seq::<RecentPost>::empty()
    }));
}

/// A window is said to be perhaps too short exactly when there are posts and all
/// of them lie inside it.
pub proof fn law_window_is_open_when_all_is_inside(posts: Seq<RecentPost>, cutoff: int)
    ensures
        all_inside(posts, windowed(posts, cutoff)) <==> (posts.len() > 0 && forall|i: int|
            0 <= i < posts.len() ==> ((#[trigger] posts[i]).taken_at_unix matches Some(ts) && ts
                >= cutoff)),
{
    law_window_keeps_all_inside(posts, cutoff);
    if forall|i: int|
        0 <= i < posts.len() ==> ((#[trigger] posts[i]).taken_at_unix matches Some(ts) && ts
            >= cutoff) {
        assert forall|i: int| 0 <= i < posts.len() implies in_window(
            #[trigger] posts[i],
            cutoff,
        ) by {}
    }
    if windowed(posts, cutoff).len() == posts.len() {
        assert forall|i: int| 0 <= i < posts.len() implies ((
        #[trigger] posts[i]).taken_at_unix matches Some(ts) && ts >= cutoff) by {
            assert(in_window(posts[i], cutoff));
        }
    }
}

/// A new post says its shortcode and the address that goes with it, and a new
/// record whom it is about, where it is from and when it was made; neither says
/// anything else.
pub proof fn law_new_things_say_no_more(
    code: Seq<char>,
    username: Seq<char>,
    source: Seq<char>,
    now: Timestamp,
)
    ensures
        ({
            let p = bare_post(code);
            &&& p.shortcode == code
            &&& p.url == "https://www.instagram.com/p/"@ + code + "/"@
            &&& p.caption is None && p.is_video is None && p.taken_at_unix is None
            &&& p.display_url is None && p.local_path is None && p.media_count is None
            &&& p.is_carousel is None && p.has_video is None
        }),
        ({
            let r = bare_record(username, source, now);
            &&& r.username == username && r.source == source && r.scraped_at == now
            &&& r.user_id.len() == 0 && r.full_name is None && r.biography is None
            &&& r.is_private is None && r.followers is None && r.following is None
            &&& r.posts is None && r.recent_posts is None && r.errors.len() == 0
            &&& r.window_days == 0 && !r.window_maybe_truncated
        }),
{
}

/// The number of media is written for carousels and videos, and only for them.
pub proof fn law_media_are_counted_for_carousels_and_videos(p: PostView)
    ensures
        p.is_carousel == Some(true) ==> media_count_written(p) == p.media_count,
        p.has_video == Some(true) ==> media_count_written(p) == p.media_count,
        p.is_carousel != Some(true) && p.has_video != Some(true) ==> media_count_written(p) is None,
{
}

/// What a post is known by leaves nothing of it out.
pub proof fn law_posts_are_known_whole(p: RecentPost)
    ensures
        p@.shortcode == p.shortcode@ && p@.url == p.url@,
        p.caption is Some <==> p@.caption is Some,
        p.caption matches Some(s) ==> p@.caption == Some(s@),
        p.display_url is Some <==> p@.display_url is Some,
        p.display_url matches Some(s) ==> p@.display_url == Some(s@),
        p.local_path is Some <==> p@.local_path is Some,
        p.local_path matches Some(s) ==> p@.local_path == Some(s@),
        p@.is_video == p.is_video && p@.has_video == p.has_video,
        p@.is_carousel == p.is_carousel && p@.media_count == p.media_count,
        p@.taken_at_unix == p.taken_at_unix,
{
}

/// What a record is known by leaves nothing of it out.
pub proof fn law_records_are_known_whole(r: ScrapeResult)
    ensures
        r@.username == r.username@ && r@.user_id == r.user_id@ && r@.source == r.source@,
        r.full_name is Some <==> r@.full_name is Some,
        r.full_name matches Some(s) ==> r@.full_name == Some(s@),
        r.biography is Some <==> r@.biography is Some,
        r.biography matches Some(s) ==> r@.biography == Some(s@),
        r@.is_private == r.is_private && r@.followers == r.followers,
        r@.following == r.following && r@.posts == r.posts && r@.scraped_at == r.scraped_at,
        r@.window_days == r.window_days && r@.window_maybe_truncated == r.window_maybe_truncated,
        r@.errors.len() == r.errors@.len(),
        forall|i: int| 0 <= i < r.errors@.len() ==> #[trigger] r@.errors[i] == r.errors@[i]@,
        r.recent_posts is Some <==> r@.recent_posts is Some,
        r.recent_posts matches Some(list) ==> r@.recent_posts->0.len() == list@.len() && forall|
            i: int,
        |
            0 <= i < list@.len() ==> #[trigger] r@.recent_posts->0[i] == list@[i]@,
        r.recent_posts matches Some(list) ==> r.post_list() == list@,
        r.recent_posts is None ==> r.post_list().len() == 0,
{
}

} // verus!
