use instagrab::feed::{
    feed_from_json, parse_graphql_feed, post_from_feed_item, user_id_from_feed, user_id_from_json,
    FeedError,
};
use instagrab::json::read_json;

const GRAPHQL_FEED_WITH_USER: &[u8] = br#"{"data": {
  "xdt_api__v1__feed__user_timeline_graphql_connection": {
    "edges": [
      {"node": {"code": "Z", "taken_at": 0, "user": {"pk": "777", "username": "reposter"}}},
      {"node": {"code": "A", "taken_at": 1,
                "user": {"pk": "25025320", "username": "instagram"}}}
    ],
    "page_info": {"end_cursor": "", "has_next_page": false}
  }}}"#;

const FEED_WITH_FOREIGN_STUBS: &[u8] = br#"{"data": {
  "xdt_api__v1__feed__user_timeline_graphql_connection": {
    "edges": [
      {"node": {"code": "A", "taken_at": 1, "user": {
         "pk": "53528241800", "username": "janiesdaisies", "full_name": "janie's daisies"
      }}},
      {"node": {"code": "B", "taken_at": 2, "coauthor_producers": [
         {"pk": "999", "username": "someoneelse", "full_name": "Someone Else"}
      ]}}
    ],
    "page_info": {"end_cursor": "", "has_next_page": false}
  }}}"#;

const GRAPHQL_FEED: &[u8] = br#"{
  "data": {
    "xdt_api__v1__feed__user_timeline_graphql_connection": {
      "edges": [
        {"node": {
           "code": "DcjKbIJyVs3",
           "taken_at": 1787846425,
           "media_type": 2,
           "caption": {"text": "game, set, algo"},
           "image_versions2": {"candidates": [
             {"url": "https://cdn/x_1152.jpg", "width": 1152, "height": 2048},
             {"url": "https://cdn/x_640.jpg", "width": 640, "height": 1138}
           ]}
         }, "cursor": ""},
        {"node": {
           "code": "DcgYclUEV18",
           "taken_at": 1787752983,
           "media_type": 8,
           "carousel_media_count": 4,
           "carousel_media": [
             {"code": null, "media_type": 1, "carousel_parent_id": "3972282388667522428_25025320"},
             {"code": null, "media_type": 1, "carousel_parent_id": "3972282388667522428_25025320"}
           ],
           "image_versions2": {"candidates": [
             {"url": "https://cdn/y_2160.jpg", "width": 2160, "height": 2700}
           ]}
         }, "cursor": ""}
      ],
      "page_info": {
        "end_cursor": "3961559603594599528_25025320",
        "has_next_page": true,
        "has_previous_page": false,
        "start_cursor": null
      }
    },
    "xdt_viewer": {"user": {"id": "1018933991"}}
  },
  "status": "ok"
}"#;

#[test]
fn user_id_comes_from_the_node_owned_by_the_requested_account() {
    assert_eq!(
        user_id_from_feed(GRAPHQL_FEED_WITH_USER, "instagram").as_deref(),
        Some("25025320")
    );
}

#[test]
fn user_id_ignores_nodes_owned_by_someone_else() {
    assert_eq!(user_id_from_feed(FEED_WITH_FOREIGN_STUBS, "instagram"), None);
}

#[test]
fn user_id_search_ends_at_an_edge_without_a_node() {
    let raw = br#"{"data": {"c": {"edges": [{}, {"node": {"user":
        {"pk": 5, "username": "a"}}}], "page_info": {}}}}"#;
    assert_eq!(user_id_from_feed(raw, "a"), None);
}

#[test]
fn user_id_may_be_a_number_or_stand_under_id() {
    let raw = br#"{"data": {"c": {"edges": [{"node": {"user":
        {"pk": "", "id": 42, "username": "AbC"}}}], "page_info": null}}}"#;
    assert_eq!(user_id_from_feed(raw, "aBc").as_deref(), Some("42"));
    let doc = read_json(raw).unwrap();
    assert_eq!(user_id_from_json(&doc, "abc").as_deref(), Some("42"));
    assert_eq!(user_id_from_feed(b"no json", "a"), None);
}

#[test]
fn graphql_feed_reuses_mobile_node_extraction() {
    let page = parse_graphql_feed(GRAPHQL_FEED).unwrap();
    assert_eq!(page.raw_count, 2);
    assert_eq!(page.posts.len(), 2);

    let video = &page.posts[0];
    assert_eq!(video.shortcode, "DcjKbIJyVs3");
    assert_eq!(video.taken_at_unix, Some(1787846425));
    assert_eq!(video.is_video, Some(true));
    assert_eq!(video.caption.as_deref(), Some("game, set, algo"));
    assert_eq!(video.display_url.as_deref(), Some("https://cdn/x_1152.jpg"));
}

#[test]
fn graphql_feed_reads_code_from_carousel_parent_not_children() {
    let page = parse_graphql_feed(GRAPHQL_FEED).unwrap();
    let carousel = &page.posts[1];
    assert_eq!(carousel.shortcode, "DcgYclUEV18");
    assert_eq!(carousel.is_carousel, Some(true));
    assert_eq!(carousel.media_count, Some(2));
}

#[test]
fn graphql_feed_maps_page_info_to_cursor() {
    let page = parse_graphql_feed(GRAPHQL_FEED).unwrap();
    assert_eq!(page.next_cursor, "3961559603594599528_25025320");
    assert!(page.has_more);
}

#[test]
fn graphql_feed_survives_connection_rename() {
    let raw = br#"{"data": {"xdt_api__v1__feed__renamed_tomorrow": {
        "edges": [{"node": {"code": "ABC", "taken_at": 100}}],
        "page_info": {"end_cursor": "c1", "has_next_page": false}
    }}}"#;
    let page = parse_graphql_feed(raw).unwrap();
    assert_eq!(page.posts.len(), 1);
    assert_eq!(page.next_cursor, "c1");
    assert!(!page.has_more);
}

#[test]
fn graphql_feed_surfaces_errors_block() {
    let raw = br#"{"errors": [{"message": "PersistedQueryNotFound"}], "data": null}"#;
    let err = parse_graphql_feed(raw).unwrap_err().message();
    assert!(err.contains("PersistedQueryNotFound"), "got {err}");
    assert_eq!(err, "graphql error: PersistedQueryNotFound");
}

#[test]
fn graphql_feed_empty_last_page_stops_pagination() {
    let raw = br#"{"data": {"xdt_api__v1__feed__user_timeline_graphql_connection": {
        "edges": [],
        "page_info": {"end_cursor": null, "has_next_page": false}
    }}}"#;
    let page = parse_graphql_feed(raw).unwrap();
    assert!(page.posts.is_empty());
    assert!(page.next_cursor.is_empty());
    assert!(!page.has_more);
}

#[test]
fn feed_errors_are_told_apart() {
    let unknown = parse_graphql_feed(br#"{"errors": [{}]}"#).unwrap_err();
    assert_eq!(unknown.message(), "graphql error: unknown");
    let none = parse_graphql_feed(br#"{"data": {"x": {"edges": []}}}"#).unwrap_err();
    assert!(matches!(none, FeedError::NoConnection));
    assert_eq!(none.message(), "no posts connection in response");
    let raw = br#"{"data": {"xdt_api__v1__feed__user_timeline_graphql_connection": {}}}"#;
    let edges = parse_graphql_feed(raw).unwrap_err();
    assert!(matches!(edges, FeedError::NoEdges));
    assert_eq!(edges.message(), "connection has no edges");
    let json = parse_graphql_feed(b"{").unwrap_err();
    assert!(matches!(json, FeedError::Json(_)));
    assert_eq!(
        json.message(),
        serde_json::from_slice::<serde_json::Value>(b"{").unwrap_err().to_string()
    );
}

#[test]
fn items_without_a_shortcode_give_no_post() {
    let raw = br#"{"data": {"c": {"edges": [{"node": {"taken_at": 5}}, {"node": 3}, {},
        {"node": {"carousel_media": [{"code": ""}, {"code": "kid", "media_type": 2}]}}],
        "page_info": {}}}}"#;
    let page = feed_from_json(&read_json(raw).unwrap()).unwrap();
    assert_eq!(page.raw_count, 4);
    assert_eq!(page.posts.len(), 1);
    assert_eq!(page.posts[0].shortcode, "kid");
    assert_eq!(page.posts[0].url, "https://www.instagram.com/p/kid/");
    assert_eq!(page.posts[0].has_video, Some(true));
    assert_eq!(page.posts[0].media_count, Some(2));
}

#[test]
fn times_and_widths_are_cut_to_whole_numbers() {
    let raw = br#"{"code": "c", "taken_at": 12.9, "media_type": 2.5, "image_versions2":
        {"candidates": [{"url": "a", "width": 10.2}, {"url": "b", "width": 10.9},
        {"url": "", "width": 99}, {"url": "c", "width": 11}]}}"#;
    let post = post_from_feed_item(&read_json(raw).unwrap()).unwrap();
    assert_eq!(post.taken_at_unix, Some(12));
    assert_eq!(post.is_video, Some(true));
    assert_eq!(post.display_url.as_deref(), Some("c"));
    let raw = br#"{"code": "c", "taken_at": -3, "carousel_media": [{"image_versions2":
        {"candidates": [{"url": "kid"}]}}]}"#;
    let post = post_from_feed_item(&read_json(raw).unwrap()).unwrap();
    assert_eq!(post.taken_at_unix, None);
    assert_eq!(post.display_url.as_deref(), Some("kid"));
    let raw = br#"{"code": "c", "taken_at": 1e300}"#;
    let post = post_from_feed_item(&read_json(raw).unwrap()).unwrap();
    assert_eq!(post.taken_at_unix, Some(i64::MAX));
}
