use instagrab::clock::{rfc3339_seconds_text, rfc3339_text, Timestamp, MAX_SECS};
use instagrab::double::{positive, truncate};
use instagrab::flags::{parse_bool_flag, parse_flags, usage};
use instagrab::images::{new, note_image, note_no_dir, note_no_image};
use instagrab::json::{read_json, read_json_text, Json};
use instagrab::output::{alert_at, new_alert};
use instagrab::pace::{
    jitter_secs, next_nap, page_pause_secs, pause_for_draw, pause_width, range_width, wait_for_draw,
};
use instagrab::record::{is_false_opt, RecentPost, ScrapeResult};
use instagrab::shutdown::{requested, ShutdownFlag, EXIT_INTERRUPTED};
use instagrab::text::{
    contains, decimal_text, eq_ignore_ascii_case, file_text, lines, parse_i64, replace, split_once,
    trim, trim_end_matches, trim_start_matches, unsigned_text,
};

fn args(list: &[&str]) -> Vec<String> {
    list.iter().map(|s| s.to_string()).collect()
}

#[test]
fn flags_have_defaults() {
    let f = parse_flags(&args(&[])).unwrap();
    assert_eq!(f.config_path, "/etc/instagrab/config.toml");
    assert!(!f.dry_run && !f.debug && !f.fetch_follows && !f.capture_queries);
    assert_eq!((f.one_shot.as_str(), f.seed.as_str(), f.limit), ("", "", 0));
}

#[test]
fn flags_take_values_either_way() {
    let f = parse_flags(&args(&[
        "--config", "c.toml", "--once=zuck", "--write-sample-config", "--x", "--dry-run",
        "--debug=false", "--fetch-follows=T", "--seed=a=b", "--limit", "-3", "--config=",
    ]))
    .unwrap();
    assert_eq!(f.config_path, "");
    assert_eq!(f.one_shot, "zuck");
    assert_eq!(f.write_sample, "--x");
    assert!(f.dry_run && !f.debug && f.fetch_follows);
    assert_eq!((f.seed.as_str(), f.limit), ("a=b", -3));
}

#[test]
fn capture_queries_is_a_flag() {
    assert!(parse_flags(&args(&["--capture-queries"])).unwrap().capture_queries);
    let f = parse_flags(&args(&["--capture-queries=f", "--once", "zuck"])).unwrap();
    assert!(!f.capture_queries && !f.fetch_follows);
    assert!(usage().contains("\n  --capture-queries\n"));
}

#[test]
fn only_carousels_and_videos_say_how_many_media_they_have() {
    let mut p = RecentPost::new("x".to_string());
    p.media_count = Some(1);
    assert_eq!(p.written_media_count(), None);
    p.has_video = Some(true);
    assert_eq!(p.written_media_count(), Some(1));
    p.has_video = None;
    p.is_carousel = Some(true);
    p.media_count = Some(4);
    assert_eq!(p.written_media_count(), Some(4));
    p.is_carousel = Some(false);
    assert_eq!(p.written_media_count(), None);
}

#[test]
fn flags_that_are_wrong() {
    let error = |list: &[&str]| parse_flags(&args(list)).unwrap_err();
    assert_eq!(
        error(&["-v"]),
        format!("unknown flag: -v (flags take two dashes, e.g. --v)\n{}", usage())
    );
    assert_eq!(
        error(&["-"]),
        format!("unknown flag: - (flags take two dashes, e.g. --)\n{}", usage())
    );
    assert_eq!(error(&["x"]), format!("unexpected argument: x\n{}", usage()));
    assert_eq!(error(&[""]), format!("unexpected argument: \n{}", usage()));
    assert_eq!(
        error(&["--nope=1"]),
        format!("flag provided but not defined: --nope\n{}", usage())
    );
    assert_eq!(error(&["--"]), format!("flag provided but not defined: --\n{}", usage()));
    assert_eq!(error(&["--seed"]), "flag needs an argument: --seed");
    assert_eq!(error(&["--limit", "x"]), "invalid --limit value: x");
    assert_eq!(error(&["--debug=no\t\u{7f}"]), "invalid boolean value \"no\\t\\u{7f}\"");
    assert_eq!(error(&["--h"]), usage());
    assert_eq!(error(&["--help=x", "--nope"]), usage());
    assert!(usage().starts_with("Usage of instagrab:\n  --config string\n    TOML config path"));
}

#[test]
fn truth_values_of_flags() {
    for v in ["true", "1", "t", "T", "TRUE", "True"] {
        assert_eq!(parse_bool_flag(Some(v)), Ok(true));
    }
    for v in ["false", "0", "f", "F", "FALSE", "False"] {
        assert_eq!(parse_bool_flag(Some(v)), Ok(false));
    }
    assert_eq!(parse_bool_flag(None), Ok(true));
    assert_eq!(parse_bool_flag(Some("")), Err("invalid boolean value \"\"".to_string()));
}

#[test]
fn times_are_written_to_their_last_digit() {
    let at = |secs: i64, nanos: u32| rfc3339_text(&Timestamp { secs, nanos });
    assert_eq!(at(0, 0), "1970-01-01T00:00:00Z");
    assert_eq!(at(1784859430, 765_462_000), "2026-07-24T02:17:10.765462Z");
    assert_eq!(at(1, 1), "1970-01-01T00:00:01.000000001Z");
    assert_eq!(at(1, 100_000_000), "1970-01-01T00:00:01.1Z");
    let t = Timestamp { secs: 1784859430, nanos: 5 };
    assert_eq!(rfc3339_seconds_text(&t), "2026-07-24T02:17:10Z");
    let end = Timestamp { secs: MAX_SECS, nanos: 0 };
    assert!(rfc3339_text(&end).contains("262142-12-31T23:59:59Z"));
}

#[test]
fn alert_omits_empty_fields() {
    let a = new_alert("logged_out");
    assert_eq!(a.event, "alert");
    assert_eq!(a.kind, "logged_out");
    assert!(a.username.is_empty());
    assert!(a.note.is_empty());
    assert!(a.missing.is_empty());
    assert!(a.saw_keys.is_empty());
    let ts = a.scraped_at.as_str();
    assert!(ts.ends_with('Z') && ts.len() == 20, "bad ts {ts}");
}

#[test]
fn alerts_are_dated() {
    let a = alert_at("k", Timestamp { secs: 60, nanos: 9 });
    assert_eq!(a.scraped_at, "1970-01-01T00:01:00Z");
}

#[test]
fn records_are_dated_now() {
    let before = chrono::Utc::now().timestamp();
    let r = ScrapeResult::new("u", "s");
    let after = chrono::Utc::now().timestamp();
    assert!(before <= r.scraped_at.secs && r.scraped_at.secs <= after);
}

#[test]
fn flags_of_a_record_are_left_out_unless_true() {
    assert!(is_false_opt(&None));
    assert!(is_false_opt(&Some(false)));
    assert!(!is_false_opt(&Some(true)));
}

#[test]
fn doubles_are_cut_as_the_machine_cuts_them() {
    let samples = [
        0.0, -0.0, 0.5, 0.999, 1.0, -1.0, 1.5, -1.5, 2.5e9, 1e15, 4503599627370497.5, 1e18, 9.2e18,
        9223372036854775807.0, 9223372036854775808.0, -9223372036854775808.0, -1e19, 1e300,
        f64::INFINITY, f64::NEG_INFINITY, f64::NAN, f64::MIN_POSITIVE, 5e-324, 123456789.987,
        4611686018427387904.0, 1025.99, -2048.01,
    ];
    for x in samples {
        assert_eq!(truncate(x.to_bits()), x as i64, "{x}");
        assert_eq!(positive(x.to_bits()), x > 0.0, "{x}");
    }
}

#[test]
fn documents_are_read_in_plain_values() {
    let doc = read_json(br#"{"b": [null, true, 1.5], "a": {"x": "y"}, "n": -7, "u": 18446744073709551615}"#)
        .unwrap();
    assert_eq!(doc.get("a").and_then(|v| v.get_str("x")).map(String::as_str), Some("y"));
    assert_eq!(doc.get_array("b").unwrap().len(), 3);
    assert!(matches!(&doc.get_array("b").unwrap()[1], Json::Bool(true)));
    match doc.get("n") {
        Some(Json::Number(n)) => {
            assert_eq!((n.int, n.text.as_str()), (Some(-7), "-7"));
            assert_eq!(n.bits, Some((-7.0f64).to_bits()));
        }
        other => panic!("{other:?}"),
    }
    match doc.get("u") {
        Some(Json::Number(n)) => assert_eq!((n.int, n.text.as_str()), (None, "18446744073709551615")),
        other => panic!("{other:?}"),
    }
    assert_eq!(doc.get_double("n"), Some((-7.0f64).to_bits()));
    assert!(doc.is_object());
    assert!(doc.holds_value("a") && !doc.holds_value("z"));
    assert!(!read_json(b"[1]").unwrap().is_object());
    let e = read_json_text("[1,").unwrap_err();
    assert_eq!(e, serde_json::from_str::<serde_json::Value>("[1,").unwrap_err().to_string());
}

#[test]
fn pauses_stay_in_their_range() {
    assert_eq!(range_width(3, 9), 6);
    assert_eq!(range_width(3, 3), 1);
    assert_eq!(range_width(3, 1), 1);
    assert_eq!(wait_for_draw(3, 2), 5);
    assert_eq!(wait_for_draw(-3, 2), 0);
    assert_eq!(pause_width(4, 9), 5);
    assert_eq!(pause_width(7, 0), 1);
    assert_eq!(pause_for_draw(4, 3), 7);
    let mut seen = std::collections::BTreeSet::new();
    for _ in 0..400 {
        let s = jitter_secs(30, 33);
        assert!((30..33).contains(&s));
        seen.insert(s);
        let p = page_pause_secs(4, 9);
        assert!((4..9).contains(&p));
        seen.insert(p);
    }
    assert!(seen.len() > 4);
    assert_eq!(jitter_secs(5, 5), 5);
    assert_eq!(page_pause_secs(7, 0), 7);
    assert_eq!(jitter_secs(-5, -1), 0);
}

#[test]
fn naps_fill_a_wait() {
    let (mut elapsed, mut naps) = (0u128, 0);
    while next_nap(1050, elapsed) > 0 {
        elapsed += next_nap(1050, elapsed) as u128;
        naps += 1;
    }
    assert_eq!((elapsed, naps), (1050, 6));
    assert_eq!(next_nap(0, 0), 0);
    assert_eq!(next_nap(5, 9), 0);
}

#[test]
fn the_second_signal_quits() {
    let mut flag = ShutdownFlag::new();
    assert!(!requested(&flag));
    assert_eq!(flag.signal(), None);
    assert!(requested(&flag));
    assert_eq!(flag.signal(), Some(EXIT_INTERRUPTED));
    assert_eq!(EXIT_INTERRUPTED, 130);
}

fn record() -> ScrapeResult {
    let mut r = ScrapeResult::new("u", "graphql");
    for (code, url) in [("a", Some("")), ("b", Some("http://b")), ("c", None), ("d", Some("http://d"))] {
        let mut p = RecentPost::new(code.to_string());
        p.display_url = url.map(String::from);
        r.push_post(p);
    }
    r
}

#[test]
fn images_are_taken_in_order() {
    let mut r = record();
    let dl = new("out/images");
    assert!(dl.has_work(&r));
    assert!(!new("").has_work(&r));
    assert!(!dl.has_work(&ScrapeResult::new("u", "graphql")));
    assert_eq!(dl.user_dir(&r), "out/images/u");
    let (i, url, target) = dl.next_image(&r, 0).unwrap();
    assert_eq!((i, url.as_str(), target.as_str()), (1, "http://b", "out/images/u/b.jpg"));
    note_image(&mut r, i, target);
    let (i, _, _) = dl.next_image(&r, i + 1).unwrap();
    assert_eq!(i, 3);
    note_no_image(&mut r, i, "http 404 Not Found");
    note_no_dir(&mut r, "denied");
    assert!(dl.next_image(&r, 4).is_none());
    let posts = r.recent_posts.unwrap();
    assert_eq!(posts[1].local_path.as_deref(), Some("out/images/u/b.jpg"));
    assert_eq!(posts[3].local_path, None);
    assert_eq!(r.errors, vec!["image d: http 404 Not Found", "images_mkdir: denied"]);
}

#[test]
fn texts_are_taken_apart_as_std_does() {
    let samples = ["", " a ", "\u{3000}x\u{85}", "aXbXc", "--a--", "a\r\nb\n\nc", "\n", "x\r", "\r\n\r"];
    for s in samples {
        assert_eq!(trim(s), s.trim(), "{s:?}");
        assert_eq!(trim_end_matches(s, '-'), s.trim_end_matches('-'), "{s:?}");
        assert_eq!(trim_start_matches(s, '-'), s.trim_start_matches('-'), "{s:?}");
        assert_eq!(lines(s), s.lines().collect::<Vec<_>>(), "{s:?}");
        assert_eq!(split_once(s, "X"), s.split_once("X"), "{s:?}");
        assert_eq!(contains(s, "X"), s.contains("X"), "{s:?}");
        assert_eq!(replace(s, "X", "--"), s.replace("X", "--"), "{s:?}");
    }
    assert_eq!(replace("aaaa", "aa", "b"), "bb");
    assert_eq!(file_text(&vec!["a".to_string(), String::new()]), "a\n\n");
    assert_eq!(file_text(&vec![String::new()]), "");
    assert!(eq_ignore_ascii_case("AbC", "aBc"));
    assert!(!eq_ignore_ascii_case("\u{c9}", "\u{e9}"));
}

#[test]
fn integers_are_written_and_read_back() {
    for n in [0, 7, -7, 10, i64::MAX, i64::MIN] {
        assert_eq!(decimal_text(n), n.to_string());
        assert_eq!(parse_i64(&decimal_text(n)), Some(n));
    }
    assert_eq!(unsigned_text(u64::MAX), u64::MAX.to_string());
    for s in ["", "+", "-", "+5", "-0", "00012", " 1", "1 ", "9223372036854775808", "1.0", "0x1"] {
        assert_eq!(parse_i64(s), s.parse::<i64>().ok(), "{s:?}");
    }
}
