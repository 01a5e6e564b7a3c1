use instagrab::json::{js_str, read_json, read_json_text};
use instagrab::query::{
    replay_expression, variables_name_user, variables_page, CapturedQuery, QueryCatalog,
};
use instagrab::script::GRAPHQL_FN;
use instagrab::session::{
    connect_error, extract_app_id, find_app_id, socket_from_json, socket_from_text, version_url,
    APP_ID_PATTERNS, FALLBACK_APP_ID,
};
use instagrab::pattern::{find, group};
use serde_json::Value;

#[test]
fn js_str_quotes_like_go_percent_q() {
    assert_eq!(js_str("zuck"), "\"zuck\"");
    assert_eq!(js_str(""), "\"\"");
    assert_eq!(js_str("a\"b"), "\"a\\\"b\"");
}

#[test]
fn js_str_escapes_control_characters() {
    assert_eq!(
        js_str("\u{0}\u{1f}\u{8}\t\n\u{c}\r\\/\u{7f}\u{2028}\u{e9}"),
        "\"\\u0000\\u001f\\b\\t\\n\\f\\r\\\\/\u{7f}\u{2028}\u{e9}\""
    );
}

fn live_posts_query() -> CapturedQuery {
    CapturedQuery {
        friendly_name: "PolarisProfilePostsTabContentQuery_connection".into(),
        doc_id: "28648141034875162".into(),
        variables: r#"{"after":"3973159376496644044_25025320","before":null,"data":{"count":12},"first":12,"include_multi_captions":true,"last":null,"username":"instagram","__relay_internal__pv__PolarisShortDramaEnabledrelayprovider":false}"#.into(),
        fb_dtsg: "NAfw...".into(),
        lsd: "ydEHmY2DIXFzHcLmz0cTRV".into(),
        jazoest: "26330".into(),
        headers: [
            ("x-csrftoken".to_string(), "tok".to_string()),
            ("X-IG-App-ID".to_string(), "936619743392459".to_string()),
        ]
        .into_iter()
        .collect(),
    }
}

#[test]
fn posts_query_is_classified_as_paginated_and_username_keyed() {
    let q = live_posts_query();
    assert!(q.is_usable());
    assert!(q.is_paginated());
    assert!(q.keys_on_username());
}

#[test]
fn profile_query_is_not_classified_as_paginated() {
    let q = CapturedQuery {
        doc_id: "123".into(),
        variables: r#"{"username":"instagram","render_surface":"PROFILE"}"#.into(),
        ..Default::default()
    };
    assert!(q.is_usable());
    assert!(!q.is_paginated());
    assert!(q.keys_on_username());
}

#[test]
fn variables_rewrite_swaps_username_and_cursor_keeping_the_rest() {
    let q = live_posts_query();
    let out: Value = serde_json::from_str(&q.variables_for("gjtorikian", "CURSOR_2")).unwrap();
    assert_eq!(out["username"], "gjtorikian");
    assert_eq!(out["after"], "CURSOR_2");
    assert_eq!(out["first"], 12);
    assert_eq!(out["include_multi_captions"], true);
    assert_eq!(
        out["__relay_internal__pv__PolarisShortDramaEnabledrelayprovider"],
        false
    );
    assert_eq!(out["data"]["count"], 12);
}

#[test]
fn first_page_sends_null_cursor() {
    let out: Value =
        serde_json::from_str(&live_posts_query().variables_for("instagram", "")).unwrap();
    assert!(out["after"].is_null(), "got {}", out["after"]);
}

#[test]
fn unpaginated_query_gains_no_after_key() {
    let q = CapturedQuery {
        doc_id: "1".into(),
        variables: r#"{"username":"a"}"#.into(),
        ..Default::default()
    };
    let out: Value = serde_json::from_str(&q.variables_for("b", "")).unwrap();
    assert_eq!(out["username"], "b");
    assert!(out.get("after").is_none());
}

#[test]
fn captured_headers_survive_into_the_catalog_shape() {
    let q = live_posts_query();
    assert_eq!(
        q.headers.get("x-csrftoken").map(String::as_str),
        Some("tok")
    );
    let json = serde_json::to_string(&q.headers).unwrap();
    let back: std::collections::BTreeMap<String, String> = serde_json::from_str(&json).unwrap();
    assert_eq!(back, q.headers);
}

#[test]
fn unusable_captures_are_rejected() {
    assert!(!CapturedQuery::default().is_usable());
    assert!(
        !CapturedQuery {
            doc_id: "1".into(),
            ..Default::default()
        }
        .is_usable()
    );
}

#[test]
fn rewritten_variables_are_sorted_and_compact() {
    let q = CapturedQuery {
        variables: r#"{ "z": [1, 2.50], "after": "old", "a": {"y": null} }"#.into(),
        ..Default::default()
    };
    assert_eq!(
        q.variables_for("me", ""),
        r#"{"a":{"y":null},"after":null,"username":"me","z":[1,2.5]}"#
    );
    assert_eq!(
        q.variables_for("me", "c"),
        r#"{"a":{"y":null},"after":"c","username":"me","z":[1,2.5]}"#
    );
}

#[test]
fn variables_that_are_no_table() {
    let broken = CapturedQuery {
        variables: "{".into(),
        ..Default::default()
    };
    assert_eq!(broken.variables_for("u", ""), r#"{"username":"u"}"#);
    assert_eq!(broken.variables_for("u", "c"), r#"{"after":"c","username":"u"}"#);
    assert!(!broken.is_paginated());
    assert!(!broken.keys_on_username());
    let list = CapturedQuery {
        variables: "[ 1 ]".into(),
        ..Default::default()
    };
    assert_eq!(list.variables_for("u", "c"), "[1]");
}

#[test]
fn variables_tell_what_kind_of_query_it_is() {
    let doc = read_json_text(r#"{"first": 0, "username": "a"}"#).unwrap();
    assert!(variables_page(&doc));
    assert!(variables_name_user(&doc));
    let doc = read_json_text(r#"{"first": null, "username": 1}"#).unwrap();
    assert!(!variables_page(&doc));
    assert!(!variables_name_user(&doc));
}

fn query(doc_id: &str, variables: &str) -> CapturedQuery {
    CapturedQuery {
        doc_id: doc_id.into(),
        variables: variables.into(),
        ..Default::default()
    }
}

#[test]
fn catalog_keeps_the_latest_of_each_kind() {
    let mut catalog = QueryCatalog::new();
    assert!(catalog.posts_query().is_none());
    let mut other = query("4", "{}");
    other.lsd = "L".into();
    other.headers = [("h".to_string(), "v".to_string())].into_iter().collect();
    let mut unusable = query("", r#"{"username":"a"}"#);
    unusable.jazoest = "J".into();
    catalog.harvest_queries(&vec![
        query("1", r#"{"username":"a","first":1}"#),
        query("2", r#"{"username":"a"}"#),
        query("3", r#"{"username":"a","first":2}"#),
        other,
        unusable,
    ]);
    assert_eq!(catalog.posts_query().unwrap().doc_id, "3");
    assert_eq!(catalog.profile_query().unwrap().doc_id, "2");
    assert_eq!(catalog.tokens.lsd, "L");
    assert_eq!(catalog.tokens.jazoest, "");
    assert_eq!(catalog.tokens.headers.len(), 1);
    catalog.harvest_queries(&vec![]);
    assert_eq!(catalog.posts_query().unwrap().doc_id, "3");
}

#[test]
fn catalog_notes_by_kind() {
    let mut catalog = QueryCatalog::new();
    catalog.note(&query("1", "x"), false, true);
    assert!(catalog.posts_query().is_none());
    catalog.note(&query("1", "x"), true, true);
    catalog.note(&query("2", "x"), true, false);
    assert_eq!(catalog.posts_query().unwrap().doc_id, "1");
    assert_eq!(catalog.profile_query().unwrap().doc_id, "2");
}

#[test]
fn replays_carry_the_latest_tokens() {
    let mut catalog = QueryCatalog::new();
    let mut q = query("7", "{}");
    q.friendly_name = "F\"".into();
    q.fb_dtsg = "D".into();
    q.jazoest = "J".into();
    q.headers = [
        ("b".to_string(), "2".to_string()),
        ("a".to_string(), "1".to_string()),
    ]
    .into_iter()
    .collect();
    catalog.harvest_queries(&vec![q]);
    let mut old = query("8", "{}");
    old.friendly_name = "F\"".into();
    let want = format!(
        "{GRAPHQL_FN}(\"8\", \"v\", \"D\", \"\", \"J\", \"F\\\"\", \"app\", \"{{\\\"a\\\":\\\"1\\\",\\\"b\\\":\\\"2\\\"}}\")"
    );
    assert_eq!(catalog.issue_expression(&old, "v", "app"), want);
    assert_eq!(
        replay_expression(&old, "v", &catalog.tokens, "app", "{\"a\":\"1\",\"b\":\"2\"}"),
        want
    );
}

#[test]
fn app_id_patterns_match_expected_shapes() {
    let cases = [
        (r#"{"appId":"936619743392459"}"#, "936619743392459"),
        (r#"{"X-IG-App-ID":"123456789012"}"#, "123456789012"),
        (r#"X-IG-App-ID: 936619743392459"#, "936619743392459"),
        (r#"{"app_id":"1217981644879628"}"#, "1217981644879628"),
    ];
    for (input, want) in cases {
        let got = APP_ID_PATTERNS
            .iter()
            .find_map(|p| find(p, input))
            .map(|groups| group(&groups, 1).unwrap().clone());
        assert_eq!(got.as_deref(), Some(want), "input {input}");
        assert_eq!(find_app_id(input).as_deref(), Some(want), "input {input}");
    }
}

#[test]
fn app_id_is_kept_until_a_page_gives_another() {
    let current = FALLBACK_APP_ID.to_string();
    assert_eq!(extract_app_id(current.clone(), ""), FALLBACK_APP_ID);
    assert_eq!(extract_app_id(current.clone(), "<html>"), FALLBACK_APP_ID);
    assert_eq!(extract_app_id(current, r#""appId":"1234567890""#), "1234567890");
    let both = r#""app_id":"1111111111" "appId":"2222222222""#;
    assert_eq!(find_app_id(both).as_deref(), Some("2222222222"));
}

#[test]
fn the_browsers_socket_is_read_from_its_version() {
    let url = version_url("http://h:9222///");
    assert_eq!(url, "http://h:9222/json/version");
    let text = r#"{"Browser": "x", "webSocketDebuggerUrl": "ws://h/x"}"#;
    assert_eq!(socket_from_text(text, &url), Ok("ws://h/x".to_string()));
    assert_eq!(
        socket_from_text("{}", &url),
        Err("no webSocketDebuggerUrl in http://h:9222/json/version".to_string())
    );
    let wrong = read_json(br#"{"webSocketDebuggerUrl": 1}"#).unwrap();
    assert!(socket_from_json(&wrong, "u").is_err());
    assert!(socket_from_text("nope", &url).unwrap_err().contains("expected"));
    assert_eq!(connect_error("u", "e"), "connect u: e");
}
