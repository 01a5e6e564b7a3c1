use instagrab::clock::Timestamp;
use instagrab::feed::{FeedError, FeedPage};
use instagrab::page::HtmlProfile;
use instagrab::profile::{ParsedProfile, ProfileError};
use instagrab::record::{RecentPost, ScrapeResult};
use instagrab::scan::{
    profile_url, read_dom_facts, settled, FeedPager, FetchEnvelope, Outcome, ScrapeOpts,
};
use instagrab::visit::{Visit, VisitAction, NO_QUERIES};

const NOW: Timestamp = Timestamp { secs: 1, nanos: 0 };

fn opts(until: i64, scrolls: i64) -> ScrapeOpts {
    ScrapeOpts {
        paginate_until_unix: until,
        max_scrolls: scrolls,
    }
}

fn post(code: &str, at: Option<i64>) -> RecentPost {
    let mut p = RecentPost::new(code.to_string());
    p.taken_at_unix = at;
    p
}

fn page(posts: Vec<RecentPost>, cursor: &str, has_more: bool) -> FeedPage {
    FeedPage {
        raw_count: posts.len(),
        posts,
        next_cursor: cursor.to_string(),
        has_more,
    }
}

fn reply(status: i64, body: &str) -> Result<FetchEnvelope, String> {
    Ok(FetchEnvelope {
        status,
        body: body.to_string(),
        ..Default::default()
    })
}

fn codes(r: &ScrapeResult) -> Vec<&str> {
    r.recent_posts
        .iter()
        .flatten()
        .map(|p| p.shortcode.as_str())
        .collect()
}

#[test]
fn without_a_window_one_page_is_enough() {
    let mut r = ScrapeResult::new_at("u", "graphql", NOW);
    let mut pager = FeedPager::new(&opts(0, 0));
    assert_eq!(pager.limit, 8);
    assert!(pager.wants_page(false));
    assert!(!pager.wants_page(true));
    pager.take_page(&mut r, None, Ok(page(vec![post("a", Some(5))], "c", true)));
    assert!(!pager.wants_page(false));
    assert_eq!(codes(&r), vec!["a"]);
}

#[test]
fn pages_are_read_back_to_the_window() {
    let mut r = ScrapeResult::new_at("u", "graphql", NOW);
    let mut pager = FeedPager::new(&opts(100, 5));
    let first = vec![post("a", Some(300)), post("b", None)];
    pager.take_page(&mut r, Some("7".to_string()), Ok(page(first, "c1", true)));
    assert!(pager.wants_page(false));
    assert_eq!((pager.page, pager.cursor.as_str()), (1, "c1"));
    let second = vec![post("a", Some(1)), post("c", Some(101)), post("d", Some(200))];
    pager.take_page(&mut r, Some("8".to_string()), Ok(page(second, "c2", true)));
    assert!(pager.wants_page(false));
    pager.take_page(&mut r, None, Ok(page(vec![post("e", Some(100))], "c3", true)));
    assert!(pager.wants_page(false));
    assert_eq!((pager.page, pager.cursor.as_str()), (3, "c3"));
    pager.take_page(&mut r, None, Ok(page(vec![post("f", Some(99))], "c4", true)));
    assert!(!pager.wants_page(false));
    assert_eq!(codes(&r), vec!["a", "b", "c", "d", "e", "f"]);
    assert_eq!(r.user_id, "7");
    assert!(r.errors.is_empty());
}

#[test]
fn reading_ends_with_the_last_page_or_the_limit() {
    let mut r = ScrapeResult::new_at("u", "graphql", NOW);
    let mut pager = FeedPager::new(&opts(1, 5));
    pager.take_page(&mut r, None, Ok(page(vec![], "c", false)));
    assert!(!pager.wants_page(false));
    assert!(r.recent_posts.is_none());
    let mut pager = FeedPager::new(&opts(1, 5));
    pager.take_page(&mut r, None, Ok(page(vec![], "", true)));
    assert!(!pager.wants_page(false));
    let mut pager = FeedPager::new(&opts(-1, 2));
    pager.take_page(&mut r, None, Ok(page(vec![], "c", true)));
    assert!(pager.wants_page(false));
    pager.take_page(&mut r, None, Ok(page(vec![], "c", true)));
    assert!(!pager.wants_page(false));
}

#[test]
fn replies_about_posts_are_taken_in() {
    let mut r = ScrapeResult::new_at("me", "graphql", NOW);
    let mut pager = FeedPager::new(&opts(0, 0));
    let body = r#"{"data": {"c": {"edges": [{"node": {"code": "x", "user":
        {"username": "Me", "pk": 3}}}], "page_info": {}}}}"#;
    pager.on_reply(&mut r, reply(200, body));
    assert_eq!(codes(&r), vec!["x"]);
    assert_eq!(r.user_id, "3");
    assert!(pager.done);
}

#[test]
fn failed_replies_about_posts_are_noted() {
    let mut r = ScrapeResult::new_at("me", "graphql", NOW);
    let mut pager = FeedPager::new(&opts(0, 0));
    pager.on_reply(&mut r, Err("boom".to_string()));
    assert!(pager.done);
    let mut pager = FeedPager::new(&opts(0, 0));
    pager.on_reply(&mut r, reply(403, ""));
    let mut pager = FeedPager::new(&opts(0, 0));
    pager.on_reply(&mut r, reply(200, "{}"));
    let mut pager = FeedPager::new(&opts(0, 0));
    pager.take_page(&mut r, None, Err(FeedError::Graphql("g".to_string())));
    assert_eq!(
        r.errors,
        vec![
            "feed_query_p0: boom",
            "feed_http_403_p0",
            "feed_parse_p0: no posts connection in response",
            "feed_parse_p0: graphql error: g",
        ]
    );
}

#[test]
fn pages_are_told_apart_by_address_and_text() {
    let login = read_dom_facts("https://x/accounts/login/?next=y", "Sorry, this page isn't");
    assert!(login.is_login_page && login.not_found);
    assert!(login.outcome().unwrap().requires_login);
    let missing = read_dom_facts("https://x/u/", "This page isn't available");
    assert!(missing.outcome().unwrap().profile_not_found);
    let bare = read_dom_facts("https://www.instagram.com/accounts/login?next=%2Fzuck%2F", "");
    assert!(bare.is_login_page && !bare.not_found);
    assert!(read_dom_facts("https://x/accounts/edit/", "fine").outcome().is_none());
    assert_eq!(profile_url("u"), "https://www.instagram.com/u/");
}

#[test]
fn two_requests_are_enough_to_settle() {
    assert!(settled("2"));
    assert!(settled("+17"));
    assert!(!settled("1"));
    assert!(!settled(""));
    assert!(!settled("two"));
}

#[test]
fn outcomes_say_one_thing() {
    let o = Outcome::err("x".to_string());
    assert_eq!(o.err.as_deref(), Some("x"));
    assert!(o.result.is_none() && !o.requires_login && !o.profile_not_found);
    assert!(Outcome::login().requires_login);
    assert!(Outcome::not_found().profile_not_found);
    assert!(Outcome::default().missing_schema.is_empty());
}

fn meta(followers: Option<i64>) -> HtmlProfile {
    HtmlProfile {
        followers,
        full_name: Some("Name".to_string()),
        is_private: Some(true),
        ..Default::default()
    }
}

#[test]
fn a_visit_needs_a_query() {
    let o = Visit::begin_with("u", meta(Some(1)), false, false, &opts(0, 0), NOW).unwrap_err();
    assert_eq!(o.err.as_deref(), Some(NO_QUERIES));
    assert!(NO_QUERIES.starts_with("no GraphQL queries captured from profile page \u{2014} IG's"));
}

#[test]
fn a_page_that_says_enough_spares_the_profile_query() {
    let html = r#"<meta property="og:description" content="5 Followers, 6 Following, 7 Posts - See A (@a)">"#;
    let mut v = Visit::begin("a", html, true, true, &opts(0, 0), NOW).unwrap();
    assert_eq!(v.action(false), VisitAction::AskPosts);
    assert_eq!(v.action(true), VisitAction::Finish);
    v.on_posts_reply(Err("e".to_string()));
    assert_eq!(v.action(false), VisitAction::Finish);
    let o = v.finish(Timestamp { secs: 9, nanos: 0 });
    let r = o.result.unwrap();
    assert_eq!(r.followers, Some(5));
    assert_eq!(r.scraped_at.secs, 9);
    assert_eq!(r.errors, vec!["feed_query_p0: e"]);
}

#[test]
fn what_could_not_be_read_is_noted() {
    let v = Visit::begin_with("a", meta(None), true, false, &opts(0, 0), NOW).unwrap();
    assert_eq!(
        v.record.errors,
        vec!["profile_query_not_captured", "profile_fields_unavailable"]
    );
    let v = Visit::begin_with("a", meta(Some(1)), false, true, &opts(0, 0), NOW).unwrap();
    assert_eq!(v.record.errors, vec!["posts_query_not_captured"]);
    assert_eq!(v.action(false), VisitAction::Finish);
}

fn asking() -> Visit {
    let v = Visit::begin_with("a", meta(None), true, true, &opts(0, 0), NOW).unwrap();
    assert_eq!(v.action(true), VisitAction::AskProfile);
    assert!(v.record.errors.is_empty());
    v
}

#[test]
fn a_header_fills_the_record() {
    let body = r#"{"username": "A", "follower_count": 3, "pk": "1", "biography": "b"}"#;
    let v = asking().on_profile_reply(reply(200, body)).unwrap();
    assert_eq!(v.action(false), VisitAction::AskPosts);
    assert_eq!(v.record.user_id, "1");
    assert_eq!(v.record.followers, Some(3));
    assert_eq!(v.record.full_name, None);
    assert_eq!(v.record.is_private, Some(true));
    assert_eq!(v.record.biography.as_deref(), Some("b"));
    assert_eq!(v.missing, vec!["full_name", "following_count", "media_count"]);
    assert!(v.record.errors.is_empty());
    let o = v.finish(NOW);
    assert_eq!(o.missing_schema.len(), 3);
}

#[test]
fn profile_replies_that_go_wrong() {
    let v = asking().on_profile_reply(Err("x".to_string())).unwrap();
    assert_eq!(
        v.record.errors,
        vec!["profile_query: x", "profile_fields_unavailable"]
    );
    let v = asking().on_profile_reply(reply(200, "{}")).unwrap();
    assert_eq!(
        v.record.errors,
        vec![
            "profile_parse: no profile object in response",
            "profile_fields_unavailable"
        ]
    );
    let o = asking().on_profile_reply(reply(404, "")).unwrap_err();
    assert!(o.profile_not_found);
    let o = asking().on_profile_reply(reply(403, "")).unwrap_err();
    assert!(!o.requires_login);
    assert_eq!(
        o.err.as_deref(),
        Some("profile query rejected: http 403 (replay refused, session is live)")
    );
    let o = asking()
        .on_profile_reply(reply(200, r#"{"require_login": true}"#))
        .unwrap_err();
    assert!(o.requires_login);
}

#[test]
fn headers_that_were_read_elsewhere() {
    let parsed = ParsedProfile {
        result: None,
        missing: vec!["m".to_string()],
        requires_login: true,
    };
    let o = asking().take_profile(Ok(parsed)).unwrap_err();
    assert_eq!(o.missing_schema, vec!["m"]);
    let v = asking()
        .take_profile(Err(ProfileError::Json("j".to_string())))
        .unwrap();
    assert_eq!(v.record.errors[0], "profile_parse: j");
}
