use instagrab::profile::{
    message_asks_for_login, parse_graphql_profile, profile_from_json, ProfileError,
    EXPECTED_GRAPHQL_PROFILE_FIELDS,
};
use instagrab::clock::Timestamp;
use instagrab::json::read_json;

const FEED_WITH_FOREIGN_STUBS: &[u8] = br#"{"data": {
  "xdt_api__v1__feed__user_timeline_graphql_connection": {
    "edges": [
      {"node": {"code": "A", "taken_at": 1, "user": {
         "pk": "53528241800", "username": "janiesdaisies", "full_name": "janie's daisies"
      }}},
      {"node": {"code": "B", "taken_at": 2, "coauthor_producers": [
         {"pk": "999", "username": "someoneelse", "full_name": "Someone Else"}
      ]}}
    ],
    "page_info": {"end_cursor": "", "has_next_page": false}
  }}}"#;

#[test]
fn graphql_envelope_without_data_user_is_not_logged_out() {
    let raw = br#"{"data": {"xdt_user_by_username": {
        "username": "x", "full_name": "X", "follower_count": 1
    }}}"#;
    let p = parse_graphql_profile("x", raw).unwrap();
    assert!(!p.requires_login);
    assert!(p.result.is_some());
}

#[test]
fn explicit_login_signals_still_detected() {
    for raw in [
        &br#"{"require_login": true}"#[..],
        &br#"{"requires_login": true}"#[..],
        &br#"{"message": "Please log in to continue"}"#[..],
        &br#"{"message": "LOGIN required"}"#[..],
    ] {
        let p = parse_graphql_profile("x", raw).unwrap();
        assert!(
            p.requires_login,
            "missed signal in {:?}",
            std::str::from_utf8(raw)
        );
    }
}

#[test]
fn a_message_in_small_letters_asks_for_a_login() {
    assert!(message_asks_for_login("please log in"));
    assert!(message_asks_for_login("relogin"));
    assert!(!message_asks_for_login("LOGIN"));
    assert!(!message_asks_for_login("log-in"));
}

#[test]
fn foreign_user_stubs_never_become_the_profile() {
    let err = parse_graphql_profile("instagram", FEED_WITH_FOREIGN_STUBS)
        .unwrap_err()
        .message();
    assert!(err.contains("no profile object"), "got {err}");
}

#[test]
fn matching_username_without_counts_is_still_rejected() {
    let raw = br#"{"data": {"c": {"edges": [{"node": {"code": "A", "user": {
        "pk": "25025320", "username": "instagram", "full_name": "Instagram"
    }}}], "page_info": {}}}}"#;
    assert!(parse_graphql_profile("instagram", raw).is_err());
}

#[test]
fn real_header_is_accepted_despite_surrounding_stubs() {
    let raw = br#"{"data": {
      "conn": {"edges": [{"node": {"user": {
          "pk": "53528241800", "username": "janiesdaisies", "full_name": "janie's daisies"
      }}}]},
      "header": {"pk": "25025320", "username": "instagram", "full_name": "Instagram",
                 "biography": "bio", "follower_count": 5, "following_count": 6,
                 "media_count": 7}
    }}"#;
    let r = parse_graphql_profile("instagram", raw)
        .unwrap()
        .result
        .unwrap();
    assert_eq!(r.user_id, "25025320");
    assert_eq!(r.followers, Some(5));
}

#[test]
fn graphql_profile_reads_flat_counts() {
    let raw = br#"{"data": {"xdt_user_by_username": {
        "pk": "25025320",
        "username": "instagram",
        "full_name": "Instagram",
        "biography": "Discovering and telling stories",
        "is_private": false,
        "follower_count": 695000000,
        "following_count": 176,
        "media_count": 8021
    }}}"#;
    let p = parse_graphql_profile("instagram", raw).unwrap();
    let r = p.result.unwrap();
    assert_eq!(r.user_id, "25025320");
    assert_eq!(r.full_name.as_deref(), Some("Instagram"));
    assert_eq!(r.followers, Some(695000000));
    assert_eq!(r.following, Some(176));
    assert_eq!(r.posts, Some(8021));
    assert_eq!(r.is_private, Some(false));
    assert!(p.missing.is_empty(), "missing {:?}", p.missing);
    assert_eq!(r.username, "instagram");
    assert_eq!(r.source, "graphql");
    assert_eq!(r.biography.as_deref(), Some("Discovering and telling stories"));
}

#[test]
fn graphql_profile_reads_nested_edge_counts() {
    let raw = br#"{"data": {"user": {
        "id": 25025320,
        "username": "instagram",
        "full_name": "Instagram",
        "biography": "bio",
        "edge_followed_by": {"count": 12},
        "edge_follow": {"count": 3},
        "edge_owner_to_timeline_media": {"count": 7}
    }}}"#;
    let r = parse_graphql_profile("instagram", raw)
        .unwrap()
        .result
        .unwrap();
    assert_eq!(r.user_id, "25025320");
    assert_eq!(r.followers, Some(12));
    assert_eq!(r.following, Some(3));
    assert_eq!(r.posts, Some(7));
}

#[test]
fn graphql_profile_reports_missing_fields_as_drift() {
    let raw = br#"{"data": {"user": {
        "username": "x", "full_name": "X", "follower_count": 5, "media_count": 7
    }}}"#;
    let p = parse_graphql_profile("x", raw).unwrap();
    assert!(p.missing.contains(&"biography".to_string()));
    assert!(p.missing.contains(&"following_count".to_string()));
    assert!(!p.missing.contains(&"username".to_string()));
    assert!(!p.missing.contains(&"follower_count".to_string()));
    assert_eq!(p.missing, vec!["biography", "following_count"]);
}

#[test]
fn graphql_profile_prefers_header_over_embedded_post_stubs() {
    let raw = br#"{"data": {
        "conn": {"edges": [{"node": {"user": {
            "username": "instagram", "full_name": "Instagram", "pk": "25025320"
        }}}]},
        "header": {
            "username": "instagram", "full_name": "Instagram",
            "biography": "real one", "follower_count": 5,
            "following_count": 6, "media_count": 7, "pk": "25025320"
        }
    }}"#;
    let r = parse_graphql_profile("instagram", raw)
        .unwrap()
        .result
        .unwrap();
    assert_eq!(r.biography.as_deref(), Some("real one"));
    assert_eq!(r.followers, Some(5));
}

#[test]
fn the_fullest_header_wins() {
    // A walk meets the last entry of a table first.
    let raw = br#"{"a": {"username": "x", "media_count": 1},
                   "b": {"username": "x", "media_count": 2}}"#;
    let r = parse_graphql_profile("x", raw).unwrap().result.unwrap();
    assert_eq!(r.posts, Some(2));
    let raw = br#"[{"username": "x", "media_count": 1, "biography": "b"},
                   {"username": "X", "media_count": 2}]"#;
    let r = parse_graphql_profile("x", raw).unwrap().result.unwrap();
    assert_eq!(r.posts, Some(1));
}

#[test]
fn counts_in_odd_spellings() {
    let raw = br#"{"username": "x", "follower_count": 1.5, "edge_followed_by": {"count": 9},
        "edge_follow": {"count": "17"}, "edge_owner_to_timeline_media": {"count": 3.9}}"#;
    let r = parse_graphql_profile("x", raw).unwrap().result.unwrap();
    assert_eq!(r.followers, None);
    assert_eq!(r.following, Some(17));
    assert_eq!(r.posts, Some(3));
}

#[test]
fn a_profile_is_read_at_a_given_time() {
    let doc = read_json(br#"{"username": "x", "media_count": 1, "pk": "", "id": "7"}"#).unwrap();
    let now = Timestamp { secs: 5, nanos: 6 };
    let r = profile_from_json("x", &doc, now).unwrap().result.unwrap();
    assert_eq!(r.user_id, "7");
    assert_eq!((r.scraped_at.secs, r.scraped_at.nanos), (5, 6));
}

#[test]
fn profile_errors_are_told_apart() {
    let none = parse_graphql_profile("x", b"{}").unwrap_err();
    assert!(matches!(none, ProfileError::NoProfile));
    assert_eq!(none.message(), "no profile object in response");
    let json = parse_graphql_profile("x", b"{\"a\":").unwrap_err();
    assert!(matches!(json, ProfileError::Json(_)));
    assert!(json.message().contains("EOF"));
    assert_eq!(EXPECTED_GRAPHQL_PROFILE_FIELDS[0], "username");
}
