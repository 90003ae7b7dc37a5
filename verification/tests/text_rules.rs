use zephost::text::{
    clean_optional, clean_or_default, contains_char, decimal_string, eq_ignore_ascii_case, escape_csv, str_eq, trim,
};

#[test]
fn trim_drops_unicode_white_space_at_both_ends() {
    assert_eq!(trim("  \t hello world \n"), "hello world");
    assert_eq!(trim("\u{3000}\u{a0}x\u{2009}"), "x");
    assert_eq!(trim("   "), "");
    assert_eq!(trim(""), "");
    assert_eq!(trim("a b"), "a b");
}

#[test]
fn clean_or_default_keeps_trimmed_value() {
    assert_eq!(clean_or_default(Some("  render.mp4 ".to_string()), "sample-file.mp4"), "render.mp4");
}

#[test]
fn clean_or_default_falls_back_on_blank_or_missing() {
    assert_eq!(clean_or_default(Some(" \t ".to_string()), "beta"), "beta");
    assert_eq!(clean_or_default(None, "anonymous"), "anonymous");
}

#[test]
fn clean_optional_drops_blank_values() {
    assert_eq!(clean_optional(Some(" out of memory ".to_string())), Some("out of memory".to_string()));
    assert_eq!(clean_optional(Some("   ".to_string())), None);
    assert_eq!(clean_optional(None), None);
}

#[test]
fn escape_csv_quotes_fields_with_commas_or_quotes() {
    assert_eq!(escape_csv("plain"), "plain");
    assert_eq!(escape_csv("a,b"), "\"a,b\"");
    assert_eq!(escape_csv("say \"hi\""), "\"say \"\"hi\"\"\"");
    assert_eq!(escape_csv(""), "");
}

#[test]
fn decimal_string_renders_integers() {
    assert_eq!(decimal_string(0), "0");
    assert_eq!(decimal_string(7), "7");
    assert_eq!(decimal_string(1_725_029_869_123), "1725029869123");
    assert_eq!(decimal_string(u128::MAX), u128::MAX.to_string());
}

#[test]
fn ascii_case_insensitive_comparison() {
    assert!(eq_ignore_ascii_case("TrUe", "true"));
    assert!(!eq_ignore_ascii_case("true ", "true"));
    assert!(!eq_ignore_ascii_case("yes", "true"));
}

#[test]
fn string_equality_and_membership() {
    assert!(str_eq("queued", "queued"));
    assert!(!str_eq("queued", "queue"));
    assert!(contains_char("ops@zephost.dev", '@'));
    assert!(!contains_char("ops.zephost.dev", '@'));
}

#[test]
fn trimming_twice_changes_nothing_more() {
    for s in ["  a b  ", "\u{2003}x\t", "", "   ", "plain"] {
        assert_eq!(trim(trim(s)), trim(s));
        let cleaned = clean_or_default(Some(s.to_string()), "beta");
        assert_eq!(clean_or_default(Some(cleaned.clone()), "beta"), cleaned);
        assert!(!cleaned.is_empty());
    }
}
