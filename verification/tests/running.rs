use instagrab::cache::MergeOutcome;
use instagrab::clock::Timestamp;
use instagrab::follows::FollowsOutcome;
use instagrab::record::{RecentPost, ScrapeResult};
use instagrab::run::{
    alert_about, apply_window, apply_window_at, canary_record, canary_verdict, capture_target,
    choose_seed, exit_for, fetched_line, follows_verdict, idle_secs, paginate_until, partial_note, scan_list,
    CanaryVerdict, FollowsVerdict, ProfileStep, RunTally, CANARY_USERNAME, EXIT_BROWSER_ERROR,
    EXIT_CANARY_FAILED, EXIT_CONFIG_ERROR, EXIT_LOGGED_OUT, EXIT_OK, EXIT_SCHEMA_DRIFT,
};
use instagrab::scan::Outcome;

#[test]
fn exit_code_contract_constants() {
    assert_eq!(EXIT_OK, 0);
    assert_eq!(EXIT_CONFIG_ERROR, 1);
    assert_eq!(EXIT_LOGGED_OUT, 2);
    assert_eq!(EXIT_SCHEMA_DRIFT, 3);
    assert_eq!(EXIT_BROWSER_ERROR, 4);
    assert_eq!(EXIT_CANARY_FAILED, 5);
}

#[test]
fn exit_for_precedence() {
    assert_eq!(exit_for(true, 3, 3), EXIT_LOGGED_OUT);
    assert_eq!(exit_for(false, 3, 3), EXIT_SCHEMA_DRIFT);
    assert_eq!(exit_for(false, 2, 3), EXIT_OK);
    assert_eq!(exit_for(false, 0, 0), EXIT_OK);
}

#[test]
fn scan_list_selection() {
    let usernames = vec!["a".to_string(), "b".to_string()];
    let follows = vec!["c".to_string(), "d".to_string(), "e".to_string()];

    assert_eq!(
        scan_list("zuck", follows.clone(), &usernames, 0),
        vec!["zuck"]
    );
    assert_eq!(
        scan_list("", follows.clone(), &usernames, 0),
        vec!["c", "d", "e"]
    );
    assert_eq!(scan_list("", Vec::new(), &usernames, 0), vec!["a", "b"]);
    assert_eq!(
        scan_list("", follows.clone(), &usernames, 2),
        vec!["c", "d"]
    );
    assert_eq!(scan_list("", follows, &usernames, 10), vec!["c", "d", "e"]);
}

#[test]
fn a_limit_that_is_not_positive_is_none() {
    let usernames = vec!["a".to_string(), "b".to_string()];
    assert_eq!(scan_list("", Vec::new(), &usernames, -1), vec!["a", "b"]);
    assert_eq!(scan_list("", Vec::new(), &usernames, 1), vec!["a"]);
    assert!(scan_list("", Vec::new(), &[], 3).is_empty());
}

#[test]
fn limits_of_time() {
    assert_eq!(idle_secs(20, 8, 75), 135);
    assert_eq!(idle_secs(60, 8, 75), 154);
    assert_eq!(paginate_until(0, 1_000_000), 0);
    assert_eq!(paginate_until(-2, 1_000_000), 0);
    assert_eq!(paginate_until(2, 1_000_000), 827_200);
}

fn with_posts(n: usize) -> Outcome {
    let mut r = ScrapeResult::new("instagram", "graphql");
    for i in 0..n {
        r.push_post(RecentPost::new(format!("p{i}")));
    }
    Outcome {
        result: Some(r),
        ..Default::default()
    }
}

#[test]
fn the_canary_is_healthy_with_a_post() {
    assert_eq!(CANARY_USERNAME, "instagram");
    assert!(matches!(canary_verdict(&with_posts(1)), CanaryVerdict::Healthy));
    let note = |o: &Outcome| match canary_verdict(o) {
        CanaryVerdict::Failed(note) => note,
        other => format!("{other:?}"),
    };
    assert_eq!(
        note(&with_posts(0)),
        "canary returned 0 posts \u{2014} extraction likely broken"
    );
    assert_eq!(note(&Outcome::default()), "canary returned no result");
    let mut broken = with_posts(1);
    broken.err = Some("e".to_string());
    assert_eq!(note(&broken), "canary scrape errored: e");
    assert!(matches!(canary_verdict(&Outcome::login()), CanaryVerdict::LoggedOut));
    let record = canary_record(with_posts(1)).unwrap();
    assert_eq!((record.source.as_str(), record.username.as_str()), ("canary", "instagram"));
    assert_eq!(record.recent_posts.unwrap().len(), 1);
    assert!(canary_record(Outcome::default()).is_none());
}

#[test]
fn queries_are_captured_from_the_one_profile_or_the_canary() {
    assert_eq!(capture_target("zuck"), "zuck");
    assert_eq!(capture_target(""), "instagram");
}

#[test]
fn outcomes_become_records() {
    let mut tally = RunTally::new();
    let line = |step: ProfileStep| match step {
        ProfileStep::Write(r) => (r.source, r.errors),
        other => panic!("{other:?}"),
    };
    let mut both = Outcome::login();
    both.err = Some("e".to_string());
    assert_eq!(
        line(tally.take_outcome("u", both)),
        ("error".to_string(), vec!["e".to_string()])
    );
    assert!(!tally.logged_out_seen);
    assert_eq!(
        line(tally.take_outcome("u", Outcome::not_found())),
        ("not_found".to_string(), vec!["profile_not_found".to_string()])
    );
    assert_eq!(
        line(tally.take_outcome("u", Outcome::login())),
        ("logged_out".to_string(), vec!["requires_login".to_string()])
    );
    assert!(tally.logged_out_seen);
    assert!(matches!(tally.take_outcome("u", Outcome::default()), ProfileStep::Skip));
    assert_eq!(tally.results_this_run, 0);
}

#[test]
fn drift_is_alerted_when_it_is_everywhere() {
    let mut tally = RunTally::new();
    let mut drifting = with_posts(1);
    drifting.missing_schema = vec!["biography".to_string()];
    let mut kept = match tally.take_outcome("u", drifting) {
        ProfileStep::Keep { record, drifted } => {
            assert!(drifted);
            record
        }
        other => panic!("{other:?}"),
    };
    tally.settle_record(&mut kept, true);
    assert_eq!(kept.errors, vec!["schema_drift_partial"]);
    assert_eq!(tally.exit_code(), EXIT_SCHEMA_DRIFT);
    let alerts = tally.closing_alerts();
    assert_eq!(alerts.len(), 1);
    assert_eq!(alerts[0].kind, "schema_drift");
    assert!(alerts[0].scraped_at.ends_with('Z') && alerts[0].scraped_at.len() == 20);
    assert_eq!(alerts[0].note, "expected paths missing on 1/1 profiles");
    let mut fine = ScrapeResult::new("v", "graphql");
    tally.settle_record(&mut fine, false);
    assert!(fine.errors.is_empty());
    assert_eq!(tally.exit_code(), EXIT_OK);
    assert!(tally.closing_alerts().is_empty());
    tally.logged_out_seen = true;
    assert_eq!(tally.exit_code(), EXIT_LOGGED_OUT);
    assert_eq!(tally.closing_alerts()[0].note, "re-run SSH-tunnel login bootstrap");
}

#[test]
fn windows_are_applied_and_noted() {
    let mut r = ScrapeResult::new("u", "graphql");
    for at in [1_000_000, 900_000, 800_000] {
        let mut p = RecentPost::new(format!("{at}"));
        p.taken_at_unix = Some(at);
        r.push_post(p);
    }
    apply_window_at(&mut r, 0, 1_000_000);
    assert_eq!((r.window_days, r.recent_posts.as_ref().unwrap().len()), (0, 3));
    apply_window_at(&mut r, 3, 1_000_000);
    assert!(r.window_maybe_truncated);
    apply_window_at(&mut r, 2, 1_000_000);
    assert_eq!(r.window_days, 2);
    assert!(!r.window_maybe_truncated);
    assert_eq!(r.recent_posts.as_ref().unwrap().len(), 2);
    apply_window(&mut r, 1);
    assert_eq!(r.recent_posts.as_ref().unwrap().len(), 0);
}

#[test]
fn seeds_and_verdicts_on_follows() {
    assert_eq!(choose_seed("a", "b").as_deref(), Some("a"));
    assert_eq!(choose_seed("", "b").as_deref(), Some("b"));
    assert_eq!(choose_seed("", ""), None);
    assert_eq!(follows_verdict(&FollowsOutcome::login(), false), FollowsVerdict::LoggedOut);
    let mut failed = FollowsOutcome::failed("e".to_string());
    assert_eq!(follows_verdict(&failed, false), FollowsVerdict::Failed);
    failed.usernames.push("a".to_string());
    assert_eq!(follows_verdict(&failed, false), FollowsVerdict::Merge { complete: false });
    assert_eq!(
        follows_verdict(&FollowsOutcome::default(), false),
        FollowsVerdict::Merge { complete: true }
    );
    assert_eq!(
        follows_verdict(&FollowsOutcome::default(), true),
        FollowsVerdict::Merge { complete: false }
    );
}

#[test]
fn texts_about_a_merge() {
    assert_eq!(
        partial_note(12),
        "harvest returned 12 names; merged additively, deleted nothing"
    );
    let o = MergeOutcome {
        added: 1,
        removed: 2,
        excluded: 3,
        active: 40,
        deletions_skipped: false,
    };
    assert_eq!(
        fetched_line(43, "f.txt", &o),
        "fetched 43 follows -> f.txt (1 added, 2 removed, 3 excluded, 40 scannable)"
    );
    let a = alert_about("k", "u", "n");
    assert_eq!((a.event.as_str(), a.kind.as_str()), ("alert", "k"));
    assert_eq!((a.username.as_str(), a.note.as_str()), ("u", "n"));
}

#[test]
fn filter_by_window_semantics() {
    let now = chrono::Utc::now().timestamp();
    let mk = |ts: Option<i64>| {
        let mut p = RecentPost::new("X".to_string());
        p.taken_at_unix = ts;
        p
    };

    let mut r = ScrapeResult::new("u", "graphql");
    r.push_post(mk(Some(now - 100)));
    r.push_post(mk(Some(now - 200)));
    assert!(r.filter_by_window(7));
    assert_eq!(r.recent_posts.as_ref().unwrap().len(), 2);

    let mut r = ScrapeResult::new("u", "graphql");
    r.push_post(mk(Some(now - 100)));
    r.push_post(mk(Some(now - 100 * 24 * 60 * 60)));
    r.push_post(mk(None));
    assert!(!r.filter_by_window(7));
    assert_eq!(r.recent_posts.as_ref().unwrap().len(), 1);

    let mut r = ScrapeResult::new("u", "graphql");
    r.push_post(mk(Some(now - 100 * 24 * 60 * 60)));
    assert!(!r.filter_by_window(7));
    assert_eq!(r.recent_posts.as_ref().unwrap().len(), 0);
    assert!(r.recent_posts.is_some());

    let mut r = ScrapeResult::new("u", "graphql");
    r.push_post(mk(None));
    assert!(!r.filter_by_window(0));
    assert_eq!(r.recent_posts.as_ref().unwrap().len(), 1);
}

#[test]
fn the_edge_of_a_window_is_inside() {
    let at = |secs: i64| {
        let mut p = RecentPost::new("X".to_string());
        p.taken_at_unix = Some(secs);
        p
    };
    let mut r = ScrapeResult::new_at("u", "graphql", Timestamp { secs: 0, nanos: 0 });
    r.push_post(at(13_600));
    r.push_post(at(13_599));
    assert!(!r.filter_by_window_at(1, 100_000));
    assert_eq!(r.recent_posts.as_ref().unwrap().len(), 1);
    assert!(r.filter_by_window_at(1, 100_000));
}

#[test]
fn status_line_serializes_like_go_zero_value_result() {
    let r = ScrapeResult::status_line("zuck", "error", vec!["boom".to_string()]);
    assert!(r.full_name.is_none());
    assert!(r.recent_posts.is_none());
    assert!(r.user_id.is_empty());
    assert!(instagrab::record::is_zero(&r.window_days));
    assert!(instagrab::record::is_false(&r.window_maybe_truncated));
    assert_eq!(r.errors[0], "boom");
    assert_eq!(r.source, "error");
}
