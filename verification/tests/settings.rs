use instagrab::config::{decode_error, join_path, load, Config, ConfigError, SAMPLE};

fn decoded(output_path: &str) -> Config {
    Config {
        output_path: output_path.to_string(),
        ..Default::default()
    }
}

#[test]
fn defaults_and_username_cleaning() {
    let c = load(Config {
        usernames: ["@zuck", "  ", "plain", "@"]
            .iter()
            .map(|s| s.to_string())
            .collect(),
        ..decoded("/tmp/runs.jsonl")
    })
    .unwrap();
    assert_eq!(c.browser_url, "http://127.0.0.1:9222");
    assert_eq!(c.jitter_min_secs, 30);
    assert_eq!(c.jitter_max_secs, 75);
    assert_eq!(c.nav_timeout_sec, 20);
    assert_eq!(c.max_scrolls, 8);
    assert_eq!(c.time_window_days, 0);
    assert_eq!(c.usernames, vec!["zuck", "plain"]);
}

#[test]
fn missing_output_path_rejected() {
    let err = load(decoded("")).unwrap_err();
    assert_eq!(err.message(), "output_path is required");
    assert_eq!(err, ConfigError::MissingOutputPath);
}

#[test]
fn output_path_derives_subpaths() {
    let c = load(decoded("/var/lib/ig")).unwrap();
    assert_eq!(c.jsonl_path(), "/var/lib/ig/runs.jsonl");
    assert_eq!(c.images_path(), "/var/lib/ig/images");
    assert_eq!(c.friends_path(), "/var/lib/ig/friends.txt");
}

#[test]
fn invalid_jitter_rejected() {
    let err = load(Config {
        jitter_min_secs: 100,
        ..decoded("/tmp/r.jsonl")
    })
    .unwrap_err();
    assert_eq!(err.message(), "invalid jitter range: 100..75");
}

#[test]
fn negative_jitter_rejected() {
    let err = load(Config {
        jitter_min_secs: -1,
        ..decoded("x")
    })
    .unwrap_err();
    assert_eq!(err.message(), "invalid jitter range: -1..75");
}

#[test]
fn settings_that_are_given_stay() {
    let c = load(Config {
        browser_url: "http://h:1".to_string(),
        jitter_min_secs: 1,
        jitter_max_secs: 2,
        nav_timeout_sec: 3,
        time_window_days: 4,
        max_scrolls: 5,
        seed_username: "me".to_string(),
        ..decoded("out")
    })
    .unwrap();
    assert_eq!(c.browser_url, "http://h:1");
    assert_eq!((c.jitter_min_secs, c.jitter_max_secs), (1, 2));
    assert_eq!((c.nav_timeout_sec, c.time_window_days, c.max_scrolls), (3, 4, 5));
    assert_eq!(c.seed_username, "me");
}

#[test]
fn paths_join_as_std_joins_them() {
    for base in ["", "a", "a/", "/", "/x/y"] {
        for part in ["", "b", "b/c", "/abs"] {
            let want = std::path::Path::new(base).join(part);
            assert_eq!(join_path(base, part), want.to_string_lossy(), "{base:?} {part:?}");
        }
    }
}

#[test]
fn sample_and_message_texts() {
    assert!(SAMPLE.starts_with("# instagrab config\n"));
    assert!(SAMPLE.contains("output_path = \"/var/lib/instagrab\"\n"));
    assert_eq!(decode_error("c.toml", "boom"), "decode c.toml: boom");
}

#[test]
fn the_sample_is_a_valid_configuration() {
    let t: toml::Table = toml::from_str(SAMPLE).unwrap();
    assert_eq!(t.len(), 8);
    let text = |key: &str| t[key].as_str().unwrap().to_string();
    let number = |key: &str| t[key].as_integer().unwrap();
    let c = load(Config {
        browser_url: text("browser_url"),
        output_path: text("output_path"),
        usernames: Vec::new(),
        jitter_min_secs: number("jitter_min_secs"),
        jitter_max_secs: number("jitter_max_secs"),
        nav_timeout_sec: number("nav_timeout_sec"),
        time_window_days: number("time_window_days"),
        max_scrolls: number("max_scrolls"),
        seed_username: text("seed_username"),
    })
    .unwrap();
    assert_eq!(c.browser_url, "http://127.0.0.1:9222");
    assert_eq!(c.output_path, "/var/lib/instagrab");
    assert!(c.usernames.is_empty());
    assert_eq!((c.jitter_min_secs, c.jitter_max_secs), (30, 75));
    assert_eq!((c.nav_timeout_sec, c.time_window_days, c.max_scrolls), (20, 90, 8));
    assert_eq!(c.seed_username, "your_handle");
}
