use instagrab::count::parse_abbreviated_count;
use instagrab::page::{
    content_from_groups, decode_entities, fields_from, handle_is_named, meta_content,
    profile_fields_from_html, HtmlProfile, COUNTS_PATTERN,
};
use instagrab::pattern::{find, group};

#[test]
fn meta_tags_yield_counts_and_name() {
    let html = r#"<meta property="og:title" content="Instagram (@instagram) &#039; Instagram photos and videos" />
        <meta property="og:description" content="695M Followers, 176 Following, 8,021 Posts - See Instagram photos and videos from Instagram (@instagram)" />"#;
    let p = profile_fields_from_html("instagram", html);
    assert_eq!(p.followers, Some(695_000_000));
    assert_eq!(p.following, Some(176));
    assert_eq!(p.posts, Some(8021));
    assert_eq!(p.full_name.as_deref(), Some("Instagram"));
}

#[test]
fn meta_tags_for_a_different_handle_are_ignored() {
    let html = r#"<meta property="og:description" content="12 Followers, 3 Following, 4 Posts - See Instagram photos and videos from Someone (@someoneelse)" />"#;
    assert_eq!(
        profile_fields_from_html("instagram", html),
        HtmlProfile::default()
    );
}

#[test]
fn meta_name_description_is_accepted_too() {
    let html = r#"<meta name="description" content="1,234 Followers, 567 Following, 89 Posts - See Instagram photos and videos from Jane (@jane_doe)" />"#;
    let p = profile_fields_from_html("jane_doe", html);
    assert_eq!(p.followers, Some(1234));
    assert_eq!(p.posts, Some(89));
}

#[test]
fn content_before_property_attribute_order_parses() {
    let html = r#"<meta content="5 Followers, 6 Following, 7 Posts - See Instagram photos and videos from A (@a)" property="og:description">"#;
    assert_eq!(profile_fields_from_html("a", html).followers, Some(5));
}

#[test]
fn private_account_is_flagged() {
    let html = r#"<meta property="og:description" content="5 Followers, 6 Following, 7 Posts - See Instagram photos and videos from A (@a)"><h2>This Account is Private</h2>"#;
    assert_eq!(profile_fields_from_html("a", html).is_private, Some(true));
}

#[test]
fn abbreviated_counts_scale() {
    assert_eq!(parse_abbreviated_count("8,021"), Some(8021));
    assert_eq!(parse_abbreviated_count("695M"), Some(695_000_000));
    assert_eq!(parse_abbreviated_count("1.2K"), Some(1200));
    assert_eq!(parse_abbreviated_count("1.5B"), Some(1_500_000_000));
    assert_eq!(parse_abbreviated_count(""), None);
    assert_eq!(parse_abbreviated_count("n/a"), None);
}

#[test]
fn missing_meta_tags_yield_nothing_rather_than_guesses() {
    assert_eq!(
        profile_fields_from_html("x", "<html></html>"),
        HtmlProfile::default()
    );
}

/// A count by way of the machine's own doubles.
fn by_machine(s: &str) -> Option<i64> {
    let s = s.trim();
    if s.is_empty() {
        return None;
    }
    let (num, mult) = match s.chars().last()?.to_ascii_uppercase() {
        'K' => (&s[..s.len() - 1], 1_000f64),
        'M' => (&s[..s.len() - 1], 1_000_000f64),
        'B' => (&s[..s.len() - 1], 1_000_000_000f64),
        _ => (s, 1f64),
    };
    let cleaned: String = num
        .chars()
        .filter(|c| *c != ',' && !c.is_whitespace())
        .collect();
    let v: f64 = cleaned.parse().ok()?;
    Some((v * mult).round() as i64)
}

#[test]
fn counts_agree_with_the_machines_doubles() {
    let numbers = [
        "0", "1", "-1", "+7", "0.5", "-0.5", "1.5", "2.5", "0.49999999999999994", ".5", "5.", ".",
        "1.005", "1.0005", "2.675", "0.0005", "0.00049999999", "123456789.987654321", "1e3",
        "1E3", "1e+3", "1e-3", "1e", "e1", "1e--3", "1e400", "-1e400", "1e-400", "0e999999999999",
        "1e99999999999999999999999999999999", "1e-99999999999999999999999999999999", "inf",
        "-Infinity", "+nan", "NaN", "infinit", "9007199254740992", "9007199254740993",
        "9007199254740995", "9223372036854775807", "9223372036854775808", "-9223372036854775809",
        "18446744073709551616", "99999999999999999999", "100000000000000000000",
        "00000000000000000000000000012", "0.000000000000000000000000000000012", "1,2,3", "1 2 3",
        "1_000", "0x10", "12e0", "3.141592653589793238462643383279502884197", "4503599627370496.5",
        "4503599627370497.5", "2251799813685248.25", "2251799813685248.75", "1e19", "1e20", "1e21",
        "0.1", "0.2", "0.3", "1.1", "9.95", "0.0000000001", "0.00000000009", "--1", "+-1", "1.2.3",
        "179769313486231580793728971405301e276", "\u{a0}12\u{2003}", "1\u{a0}000", "\u{663}",
    ];
    for number in numbers {
        for suffix in ["", "K", "k", "M", "m", "B", "b", "x", " K ", "KK"] {
            let text = format!("{number}{suffix}");
            assert_eq!(parse_abbreviated_count(&text), by_machine(&text), "{text:?}");
        }
    }
}

#[test]
fn many_counts_agree_with_the_machines_doubles() {
    let mut state: u64 = 0x9e37_79b9_7f4a_7c15;
    let mut next = move || {
        state ^= state << 13;
        state ^= state >> 7;
        state ^= state << 17;
        state
    };
    for _ in 0..4000 {
        let whole = next() % 10u64.pow((next() % 18) as u32 + 1);
        let behind = next() % 10u64.pow((next() % 18) as u32 + 1);
        let exponent = (next() % 40) as i64 - 20;
        let suffix = ["", "K", "M", "B"][(next() % 4) as usize];
        let text = format!("{whole}.{behind}e{exponent}{suffix}");
        assert_eq!(parse_abbreviated_count(&text), by_machine(&text), "{text:?}");
    }
}

#[test]
fn long_ties_are_told_from_what_lies_beside_them() {
    let tie = "4503599627370496.5";
    let above = format!("{tie}{}1", "0".repeat(900));
    let below = format!("4503599627370496.4{}", "9".repeat(900));
    assert_eq!(parse_abbreviated_count(tie), by_machine(tie));
    assert_eq!(parse_abbreviated_count(&above), by_machine(&above));
    assert_eq!(parse_abbreviated_count(&below), by_machine(&below));
}

#[test]
fn entities_are_resolved_in_turn() {
    assert_eq!(decode_entities("&quot;a&#039;b&#39;&quot;"), "\"a'b'\"");
    assert_eq!(decode_entities("&amp;&lt;&gt;"), "&<>");
    assert_eq!(decode_entities("&amp;lt;"), "<");
    assert_eq!(decode_entities("&amp;quot;"), "&quot;");
}

#[test]
fn meta_keys_are_taken_literally() {
    let html = r#"<META NAME='abc' CONTENT='no'><meta name = "a.c" content = "yes">"#;
    assert_eq!(meta_content(html, "a.c").as_deref(), Some("yes"));
    assert_eq!(meta_content(html, "abc").as_deref(), Some("no"));
    assert_eq!(meta_content(html, "a+c"), None);
    assert_eq!(meta_content(r#"<meta name="k" content="">"#, "k"), None);
    assert_eq!(
        meta_content(r#"<meta name="k" content="a &amp; b">"#, "k").as_deref(),
        Some("a & b")
    );
}

#[test]
fn contents_come_from_either_group() {
    let some = |s: &str| Some(s.to_string());
    assert_eq!(
        content_from_groups(&vec![some("x"), some("a&lt;"), None]).as_deref(),
        Some("a<")
    );
    assert_eq!(content_from_groups(&vec![some("x"), None, some("b")]).as_deref(), Some("b"));
    assert_eq!(content_from_groups(&vec![some("x"), some(""), some("b")]), None);
    assert_eq!(content_from_groups(&vec![some("x")]), None);
}

#[test]
fn fields_come_from_groups_and_title() {
    let some = |s: &str| Some(s.to_string());
    let groups = vec![some("all"), some("1.5K"), some("2"), None];
    let p = fields_from(Some(&groups), Some(&"  Jane  (@jane) x".to_string()), true);
    assert_eq!(p.followers, Some(1500));
    assert_eq!(p.following, Some(2));
    assert_eq!(p.posts, None);
    assert_eq!(p.full_name.as_deref(), Some("Jane"));
    assert_eq!(p.is_private, Some(true));
    let p = fields_from(None, Some(&" (@jane)".to_string()), false);
    assert_eq!(p, HtmlProfile::default());
}

#[test]
fn handles_are_compared_in_small_letters() {
    let html = r#"<meta property="og:title" content="Ann (@ANN.B) x">"#;
    assert_eq!(
        profile_fields_from_html("Ann.b", html).full_name.as_deref(),
        Some("Ann")
    );
    assert!(handle_is_named("x (@a) y", "a"));
    assert!(!handle_is_named("x (@ab) y", "a"));
}

#[test]
fn the_counts_pattern_finds_three_groups() {
    let groups = find(COUNTS_PATTERN, "x 1,2 FOLLOWERS, 3 K following,4M Posts").unwrap();
    assert_eq!(group(&groups, 1).map(String::as_str), Some("1,2"));
    assert_eq!(group(&groups, 2).map(String::as_str), Some("3 K"));
    assert_eq!(group(&groups, 3).map(String::as_str), Some("4M"));
    assert_eq!(group(&groups, 4), None);
    assert!(find(COUNTS_PATTERN, "none").is_none());
    assert!(find("(", "(").is_none());
}

#[test]
fn the_case_of_the_handle_does_not_matter() {
    let html = r#"<meta property="og:title" content="Jane (@Jane_Doe.1) photos">
        <meta property="og:description" content="5 Followers, 6 Following, 7 Posts - See photos from Jane (@Jane_Doe.1)">"#;
    let want = profile_fields_from_html("jane_doe.1", html);
    assert_eq!(want.followers, Some(5));
    for handle in ["JANE_DOE.1", "Jane_Doe.1", "jANE_dOE.1"] {
        assert_eq!(profile_fields_from_html(handle, html), want);
    }
    assert_eq!(profile_fields_from_html("jane_doe.2", html), HtmlProfile::default());
}
