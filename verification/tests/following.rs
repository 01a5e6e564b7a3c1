use instagrab::cache::merge_friends;
use instagrab::follows::{
    following_expression, id_from_posts_reply, id_from_profile_reply, no_user_id,
    parse_following_page, read_page, seed_after_posts, seed_after_profile, seed_not_found,
    seed_start, FollowingDoc, FollowingPage, FollowsOutcome, FollowsPager, SeedStep, FOLLOWING_FN,
};
use instagrab::json::{read_json, Json};
use instagrab::run::{follows_verdict, FollowsVerdict};
use instagrab::scan::FetchEnvelope;

/// A page as its JSON decodes, with what it leaves out empty, null or false.
fn decode(raw: &[u8]) -> FollowingDoc {
    let mut doc = FollowingDoc {
        users: Vec::new(),
        next_max_id: Json::Null,
        big_list: false,
        status: String::new(),
        message: String::new(),
        require_login: false,
        requires_login: false,
    };
    if let Json::Table(entries) = read_json(raw).unwrap() {
        for (key, value) in entries {
            match (key.as_str(), value) {
                ("users", Json::List(users)) => doc.users = users,
                ("next_max_id", v) => doc.next_max_id = v,
                ("big_list", Json::Bool(b)) => doc.big_list = b,
                ("status", Json::Text(s)) => doc.status = s,
                ("message", Json::Text(s)) => doc.message = s,
                ("require_login", Json::Bool(b)) => doc.require_login = b,
                ("requires_login", Json::Bool(b)) => doc.requires_login = b,
                (other, _) => panic!("unexpected {other}"),
            }
        }
    }
    doc
}

#[test]
fn parses_a_following_page() {
    let raw = br#"{
      "users": [
        {"username": "alice", "pk": 1, "is_private": false},
        {"username": "bob", "pk": 2, "is_private": true}
      ],
      "big_list": true,
      "next_max_id": "cursor123",
      "status": "ok"
    }"#;
    let fp = parse_following_page(&decode(raw));
    assert_eq!(fp.usernames, vec!["alice", "bob"]);
    assert_eq!(fp.next_max_id, "cursor123");
    assert!(fp.more_available);
    assert!(!fp.requires_login);
}

#[test]
fn terminal_page_has_no_more() {
    let raw =
        br#"{"users": [{"username": "carol"}], "big_list": false, "next_max_id": "", "status": "ok"}"#;
    let fp = parse_following_page(&decode(raw));
    assert_eq!(fp.usernames, vec!["carol"]);
    assert!(!fp.more_available);
    assert!(fp.next_max_id.is_empty());
}

#[test]
fn numeric_next_max_id_is_stringified() {
    let raw = br#"{"users": [{"username": "dave"}], "big_list": true, "next_max_id": 42}"#;
    let fp = parse_following_page(&decode(raw));
    assert_eq!(fp.next_max_id, "42");
    assert!(fp.more_available);
}

#[test]
fn login_shapes_flag_requires_login() {
    for raw in [
        &br#"{"require_login": true}"#[..],
        &br#"{"message": "Please Login to continue", "users": []}"#[..],
        &br#"{"status": "fail", "users": []}"#[..],
    ] {
        let fp = parse_following_page(&decode(raw));
        assert!(
            fp.requires_login,
            "expected requires_login for {:?}",
            std::str::from_utf8(raw)
        );
        assert!(fp.usernames.is_empty());
    }
}

#[test]
fn empty_users_with_ok_status_is_not_login() {
    let raw = br#"{"users": [], "big_list": false, "next_max_id": "", "status": "ok"}"#;
    let fp = parse_following_page(&decode(raw));
    assert!(!fp.requires_login);
    assert!(fp.usernames.is_empty());
}

#[test]
fn users_without_a_name_are_passed_over() {
    let raw = br#"{"users": [{}, {"username": ""}, {"username": 1}, {"username": "x"}, 3],
        "status": "FAIL", "next_max_id": [1]}"#;
    let fp = read_page(&decode(raw), "");
    assert_eq!(fp.usernames, vec!["x"]);
    assert_eq!(fp.next_max_id, "");
    assert!(read_page(&decode(raw), "a login").requires_login);
}

fn page(names: &[&str], next: &str) -> FollowingPage {
    FollowingPage {
        usernames: names.iter().map(|s| s.to_string()).collect(),
        next_max_id: next.to_string(),
        more_available: !next.is_empty(),
        requires_login: false,
    }
}

fn envelope(status: i64, error: &str) -> FetchEnvelope {
    FetchEnvelope {
        status,
        error: error.to_string(),
        ..Default::default()
    }
}

#[test]
fn pages_are_read_until_the_cursor_ends() {
    let mut pager = FollowsPager::new(0);
    assert_eq!(pager.limit, 20);
    assert!(pager.wants_page(false));
    assert!(!pager.wants_page(true));
    assert!(!pager.pauses());
    pager.on_page(page(&["a", "b", "a"], "c1"));
    assert!(pager.pauses());
    assert_eq!(pager.cursor, "c1");
    pager.on_page(page(&["b", "c"], ""));
    assert!(!pager.wants_page(false));
    assert_eq!(pager.outcome.usernames, vec!["a", "b", "c"]);
    assert!(pager.outcome.err.is_none());
}

#[test]
fn no_more_pages_than_the_limit() {
    let mut pager = FollowsPager::new(2);
    pager.on_page(page(&["a"], "1"));
    assert!(pager.wants_page(false));
    pager.on_page(page(&["b"], "2"));
    assert!(!pager.wants_page(false));
    assert_eq!(pager.outcome.usernames, vec!["a", "b"]);
}

#[test]
fn a_page_may_ask_for_a_login() {
    let mut pager = FollowsPager::new(0);
    pager.on_page(page(&["a"], "1"));
    pager.on_document(&decode(br#"{"requires_login": true}"#));
    assert!(pager.outcome.requires_login);
    assert_eq!(pager.outcome.usernames, vec!["a"]);
    assert!(!pager.wants_page(false));
}

#[test]
fn every_failure_has_its_message() {
    let message = |f: &dyn Fn(&mut FollowsPager)| {
        let mut pager = FollowsPager::new(0);
        pager.on_page(page(&["a"], "1"));
        f(&mut pager);
        assert!(!pager.wants_page(false));
        assert_eq!(pager.outcome.usernames, vec!["a"]);
        pager.outcome.err.unwrap_or_default()
    };
    assert_eq!(message(&|p| p.eval_failed("e")), "following_eval_p1: e");
    assert_eq!(message(&|p| p.envelope_failed("e")), "following_envelope_p1: e");
    assert_eq!(message(&|p| p.parse_failed("e")), "following_parse_p1: e");
    assert_eq!(
        message(&|p| assert!(!p.on_envelope(&envelope(0, "net")))),
        "following in-page fetch failed: net"
    );
    assert_eq!(
        message(&|p| assert!(!p.on_envelope(&envelope(429, "")))),
        "following_http_429_p1 (rate limited; stopping)"
    );
    assert_eq!(
        message(&|p| assert!(!p.on_envelope(&envelope(500, "")))),
        "following_http_500_p1"
    );
}

#[test]
fn refusals_ask_for_a_login() {
    for status in [401, 403] {
        let mut pager = FollowsPager::new(0);
        assert!(!pager.on_envelope(&envelope(status, "")));
        assert!(pager.outcome.requires_login);
        assert!(pager.outcome.err.is_none());
    }
    let mut pager = FollowsPager::new(0);
    assert!(pager.on_envelope(&envelope(200, "")));
    assert!(pager.on_envelope(&envelope(0, "")));
    assert!(pager.wants_page(false));
}

#[test]
fn outcomes_without_a_list() {
    let failed = FollowsOutcome::failed("x".to_string());
    assert_eq!(failed.err.as_deref(), Some("x"));
    assert!(FollowsOutcome::login().requires_login);
    assert!(FollowsOutcome::default().usernames.is_empty());
}

#[test]
fn the_expression_quotes_its_arguments() {
    assert_eq!(
        following_expression("1", "c\"", "app"),
        format!("{FOLLOWING_FN}(\"1\", \"c\\\"\", \"app\")")
    );
}

fn reply(status: i64, body: &str) -> FetchEnvelope {
    FetchEnvelope {
        status,
        body: body.to_string(),
        ..Default::default()
    }
}

#[test]
fn seed_ids_come_from_the_profile_or_the_posts() {
    let profile = r#"{"username": "me", "media_count": 1, "pk": "9"}"#;
    assert_eq!(id_from_profile_reply("me", &reply(200, profile)).as_deref(), Some("9"));
    assert_eq!(id_from_profile_reply("me", &reply(400, profile)), None);
    assert_eq!(id_from_profile_reply("you", &reply(200, profile)), None);
    let bare = r#"{"username": "me", "media_count": 1}"#;
    assert_eq!(id_from_profile_reply("me", &reply(200, bare)), None);
    let posts = r#"{"data": {"c": {"page_info": {}, "edges": [{"node": {"user":
        {"username": "me", "pk": 8}}}]}}}"#;
    assert_eq!(id_from_posts_reply("me", &reply(200, posts)).as_deref(), Some("8"));
    assert_eq!(id_from_posts_reply("me", &reply(500, posts)), None);
}

#[test]
fn seed_ids_are_looked_for_in_turn() {
    assert!(matches!(seed_start(true, true), SeedStep::AskProfile));
    assert!(matches!(seed_start(false, true), SeedStep::AskPosts));
    assert!(matches!(seed_start(false, false), SeedStep::Missing));
    let id = || Some("1".to_string());
    assert!(matches!(seed_after_profile(id(), true), SeedStep::Found(s) if s == "1"));
    assert!(matches!(seed_after_profile(None, true), SeedStep::AskPosts));
    assert!(matches!(seed_after_profile(None, false), SeedStep::Missing));
    assert!(matches!(seed_after_posts(id()), SeedStep::Found(s) if s == "1"));
    assert!(matches!(seed_after_posts(None), SeedStep::Missing));
    assert_eq!(no_user_id("x"), "no user_id for seed x");
    assert_eq!(seed_not_found("x"), "seed profile not found: x");
}

#[test]
fn a_list_that_is_left_before_its_end_is_cut_short() {
    let page = |name: &str, cursor: &str| FollowingPage {
        usernames: vec![name.to_string()],
        next_max_id: cursor.to_string(),
        more_available: !cursor.is_empty(),
        requires_login: false,
    };
    let mut pager = FollowsPager::new(2);
    pager.on_page(page("a", "c1"));
    assert!(pager.cut_short());
    pager.on_page(page("b", "c2"));
    assert!(!pager.wants_page(false));
    assert!(pager.cut_short());
    assert_eq!(
        follows_verdict(&pager.outcome, pager.cut_short()),
        FollowsVerdict::Merge { complete: false }
    );
    let (text, outcome) = merge_friends("gone\na\n", &pager.outcome.usernames, false);
    assert_eq!(text, "gone\na\nb\n");
    assert!(outcome.deletions_skipped);

    let mut pager = FollowsPager::new(2);
    pager.on_page(page("a", ""));
    assert!(!pager.cut_short());
    assert_eq!(
        follows_verdict(&pager.outcome, pager.cut_short()),
        FollowsVerdict::Merge { complete: true }
    );
}
