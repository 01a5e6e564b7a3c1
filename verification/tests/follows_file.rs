use instagrab::cache::{
    clean, is_username, merge_friends, parse_line, read_friends, shrank_suspiciously, Line,
    MAX_USERNAME_LEN,
};

fn names(v: &[&str]) -> Vec<String> {
    v.iter().map(|s| s.to_string()).collect()
}

#[test]
fn skips_comments_blanks_and_dupes() {
    let text = "# header\n\n@zuck\nzuck\n  plain  \n@\n";
    assert_eq!(read_friends(text), vec!["zuck", "plain"]);
}

#[test]
fn missing_file_writes_the_harvest() {
    let (text, outcome) = merge_friends("", &names(&["@a", "b"]), true);
    assert_eq!(text, "a\nb\n");
    assert_eq!(outcome.added, 2);
    assert_eq!(outcome.removed, 0);
    assert!(!outcome.deletions_skipped);
}

#[test]
fn exclusion_survives_a_harvest() {
    let file = "# porthole manages this file\nanniebannie\n# nononancy\nberryp\n";
    let (text, outcome) =
        merge_friends(file, &names(&["anniebannie", "nononancy", "berryp"]), true);
    assert_eq!(
        text,
        "# porthole manages this file\nanniebannie\n# nononancy\nberryp\n"
    );
    assert_eq!(outcome.excluded, 1);
    assert_eq!(outcome.active, 2);
    assert_eq!(outcome.added, 0);
    assert_eq!(outcome.removed, 0);
    assert_eq!(read_friends(&text), vec!["anniebannie", "berryp"]);
}

#[test]
fn unfollowed_entries_are_dropped_active_or_excluded() {
    let file = "keeper\ngone\n# excluded_gone\n# excluded_kept\n";
    let (text, outcome) = merge_friends(file, &names(&["keeper", "excluded_kept"]), true);
    assert_eq!(text, "keeper\n# excluded_kept\n");
    assert_eq!(outcome.removed, 2);
    assert_eq!(outcome.excluded, 1);
    assert_eq!(outcome.active, 1);
}

#[test]
fn new_follows_are_appended_in_harvest_order() {
    let (text, outcome) =
        merge_friends("existing\n", &names(&["existing", "newer", "newest"]), true);
    assert_eq!(text, "existing\nnewer\nnewest\n");
    assert_eq!(outcome.added, 2);
}

#[test]
fn prose_blanks_and_formatting_are_preserved_verbatim() {
    let file = "# instagrab follows list\n#\n\n  @zuck  \n\n# a note about the next one\nplain\n";
    let (text, _) = merge_friends(file, &names(&["zuck", "plain"]), true);
    assert_eq!(
        text,
        "# instagrab follows list\n#\n\n  @zuck  \n\n# a note about the next one\nplain\n"
    );
}

#[test]
fn partial_harvest_never_deletes() {
    let (text, outcome) = merge_friends("a\nb\nc\n# d\n", &names(&["a", "e"]), false);
    assert_eq!(text, "a\nb\nc\n# d\ne\n");
    assert_eq!(outcome.removed, 0);
    assert_eq!(outcome.added, 1);
    assert!(outcome.deletions_skipped);
}

#[test]
fn suspicious_shrink_withholds_deletes() {
    let (text, outcome) = merge_friends("a\nb\nc\nd\ne\nf\n", &names(&["a", "b"]), true);
    assert_eq!(text, "a\nb\nc\nd\ne\nf\n");
    assert_eq!(outcome.removed, 0);
    assert!(outcome.deletions_skipped);

    let (text, outcome) = merge_friends("a\nb\nc\nd\n", &names(&["a", "b"]), true);
    assert_eq!(text, "a\nb\n");
    assert_eq!(outcome.removed, 2);
    assert!(!outcome.deletions_skipped);
}

#[test]
fn empty_harvest_keeps_everything() {
    let (text, outcome) = merge_friends("a\nb\n", &[], true);
    assert_eq!(text, "a\nb\n");
    assert!(outcome.deletions_skipped);
}

#[test]
fn duplicates_collapse_the_way_read_friends_resolves_them() {
    for body in ["# zuck\nzuck\n", "zuck\n# zuck\n", "zuck\n@zuck\n"] {
        let before = read_friends(body);
        let (text, outcome) = merge_friends(body, &names(&["zuck"]), true);
        assert_eq!(
            read_friends(&text),
            before,
            "changed scan list: {body:?}"
        );
        assert_eq!(outcome.active, 1, "{body:?}");
        assert_eq!(outcome.excluded, 0, "{body:?}");
    }
}

#[test]
fn merge_is_idempotent() {
    let (once, _) = merge_friends("# header note\na\n# b\n", &names(&["a", "b", "c"]), true);
    let (twice, outcome) = merge_friends(&once, &names(&["a", "b", "c"]), true);
    assert_eq!(twice, once);
    assert_eq!(outcome.added, 0);
    assert_eq!(outcome.removed, 0);
}

#[test]
fn scan_list_loses_the_deleted_and_gains_the_new() {
    let file = "b\n# x\ntwo words\na\ngone\nb\n";
    let (text, outcome) = merge_friends(file, &names(&["a", "x", "b", "new"]), true);
    assert_eq!(text, "b\n# x\ntwo words\na\nnew\n");
    assert_eq!(read_friends(&text), vec!["b", "two words", "a", "new"]);
    assert_eq!(outcome.active, 4);
    assert_eq!(outcome.removed, 1);
}

#[test]
fn active_counts_the_scan_list() {
    let file = "a\n# b\nc\n@a\n";
    let (text, outcome) = merge_friends(file, &names(&["a", "b", "d"]), true);
    assert_eq!(outcome.active, read_friends(&text).len());
    assert_eq!(text, "a\n# b\nd\n");
    for (file, list) in [
        ("two words\n", vec!["two words"]),
        ("a\r\r\n# b\r\r\n", vec!["a"]),
        ("two words\n@two words\n\r", vec!["two words"]),
    ] {
        let (text, outcome) = merge_friends(file, &[], false);
        assert_eq!(read_friends(&text), list, "{file:?}");
        assert_eq!(outcome.active, list.len(), "{file:?}");
    }
}

#[test]
fn a_trailing_carriage_return_is_lost_line_by_line() {
    let (once, _) = merge_friends("a\r\r\n", &names(&["a"]), true);
    assert_eq!(once, "a\r\n");
    let (twice, outcome) = merge_friends(&once, &names(&["a"]), true);
    assert_eq!(twice, "a\n");
    assert_eq!((outcome.added, outcome.removed, outcome.active), (0, 0, 1));
}

#[test]
fn windows_line_ends_are_line_ends() {
    assert_eq!(read_friends("a\r\nb\r\n"), vec!["a", "b"]);
    let (text, _) = merge_friends("a\r\n\r\nb", &names(&["a", "b"]), true);
    assert_eq!(text, "a\n\nb\n");
}

#[test]
fn blank_file_stays_empty() {
    let (text, outcome) = merge_friends("\n", &[], true);
    assert_eq!(text, "");
    assert!(!outcome.deletions_skipped);
}

#[test]
fn harvest_is_cleaned() {
    let raw = names(&["  @zuck ", "zuck", "not a name", "", "@", "ok.name_1", "na\u{e9}"]);
    assert_eq!(clean(&raw), vec!["zuck", "ok.name_1"]);
}

#[test]
fn usernames_have_a_shape() {
    assert!(is_username("a"));
    assert!(is_username("A.b_9"));
    assert!(!is_username(""));
    assert!(!is_username("a b"));
    assert!(!is_username("a-b"));
    assert!(is_username(&"x".repeat(MAX_USERNAME_LEN)));
    assert!(!is_username(&"x".repeat(MAX_USERNAME_LEN + 1)));
}

#[test]
fn lines_are_told_apart() {
    assert!(matches!(
        parse_line("  # @nononancy "),
        Line::Entry { name, excluded: true, raw } if name == "nononancy" && raw == "  # @nononancy "
    ));
    assert!(matches!(
        parse_line("@zuck"),
        Line::Entry { name, excluded: false, .. } if name == "zuck"
    ));
    assert!(matches!(parse_line("# two words"), Line::Other(raw) if raw == "# two words"));
    assert!(matches!(parse_line(" "), Line::Other(raw) if raw == " "));
}

#[test]
fn fewer_than_half_is_suspicious() {
    assert!(shrank_suspiciously(0, 1));
    assert!(shrank_suspiciously(2, 5));
    assert!(!shrank_suspiciously(2, 4));
    assert!(!shrank_suspiciously(0, 0));
    assert!(!shrank_suspiciously(usize::MAX, usize::MAX));
}
