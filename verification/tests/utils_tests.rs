use awful_text_news::utils::{
    contains_sub, join_lines, looks_truncated, slugify_title, split_lines, split_on_char,
    starts_with_str, str_lex_le, time_of_day, time_slot_name, trim, trim_eq, truncate_for_log,
    upcase, usize_to_string,
};
use chrono::NaiveTime;

#[test]
fn test_truncate_for_log_short_string() {
    let s = "Hello, world!";
    assert_eq!(truncate_for_log(s, 100), "Hello, world!");
}

#[test]
fn test_truncate_for_log_long_string() {
    let s = "a".repeat(500);
    let result = truncate_for_log(&s, 100);
    assert!(result.starts_with(&"a".repeat(100)));
    assert!(result.contains("…(+400 bytes)"));
}

#[test]
fn test_truncate_for_log_exact_boundary() {
    let s = "abcde";
    assert_eq!(truncate_for_log(s, 5), "abcde");
    assert_eq!(truncate_for_log(s, 4), "abcd…(+1 bytes)");
}

#[test]
fn test_truncate_for_log_short_non_ascii() {
    let s = "café résumé";
    assert_eq!(truncate_for_log(s, 100), "café résumé");
}

#[test]
fn test_slugify_title() {
    assert_eq!(slugify_title("Hello World"), "hello-world");
    assert_eq!(slugify_title("Test-Article!"), "test-article");
    assert_eq!(slugify_title("Multiple   Spaces"), "multiple---spaces");
    assert_eq!(slugify_title("Special@#$Characters"), "specialcharacters");
    assert_eq!(
        slugify_title("Trump-Xi 'situationship'"),
        "trump-xi-situationship"
    );
}

#[test]
fn test_slugify_title_idempotent() {
    for title in ["Hello World", "Test-Article!", "Trump-Xi 'situationship'", "MiXeD 42"] {
        let once = slugify_title(title);
        assert_eq!(slugify_title(&once), once);
    }
}

#[test]
fn test_upcase() {
    assert_eq!(upcase("hello"), "Hello");
    assert_eq!(upcase("world"), "World");
    assert_eq!(upcase(""), "");
    assert_eq!(upcase("a"), "A");
}

#[test]
fn test_time_of_day_morning() {
    let morning = NaiveTime::from_hms_opt(6, 30, 0).unwrap();
    let morning_low = NaiveTime::from_hms_opt(0, 0, 0).unwrap();
    let morning_high = NaiveTime::from_hms_opt(8, 0, 0).unwrap();
    assert!(morning >= morning_low && morning < morning_high);
}

#[test]
fn test_time_of_day_afternoon() {
    let afternoon = NaiveTime::from_hms_opt(12, 0, 0).unwrap();
    let afternoon_low = NaiveTime::from_hms_opt(8, 0, 0).unwrap();
    let afternoon_high = NaiveTime::from_hms_opt(16, 0, 0).unwrap();
    assert!(afternoon >= afternoon_low && afternoon < afternoon_high);
}

#[test]
fn test_time_of_day_evening() {
    let evening = NaiveTime::from_hms_opt(20, 0, 0).unwrap();
    let afternoon_high = NaiveTime::from_hms_opt(16, 0, 0).unwrap();
    assert!(evening >= afternoon_high);
}

#[test]
fn test_time_slot_name_boundaries() {
    assert_eq!(time_slot_name(0), "morning");
    assert_eq!(time_slot_name(7), "morning");
    assert_eq!(time_slot_name(8), "afternoon");
    assert_eq!(time_slot_name(15), "afternoon");
    assert_eq!(time_slot_name(16), "evening");
    assert_eq!(time_slot_name(23), "evening");
}

#[test]
fn test_time_of_day_is_a_slot() {
    let tod = time_of_day();
    assert!(tod == "morning" || tod == "afternoon" || tod == "evening");
}

#[test]
fn test_looks_truncated() {
    let json_eof = r#"{"field": "value"#;
    let result: Result<serde_json::Value, _> = serde_json::from_str(json_eof);
    if let Err(e) = result {
        assert!(looks_truncated(&e));
    }
}

#[test]
fn test_looks_truncated_rejects_syntax_error() {
    let bad = "}";
    let result: Result<serde_json::Value, _> = serde_json::from_str(bad);
    assert!(!looks_truncated(&result.unwrap_err()));
}

#[test]
fn test_trim_strips_blanks() {
    assert_eq!(trim("    - entry"), "- entry");
    assert_eq!(trim("\t\tx\t"), "x");
    assert_eq!(trim("   "), "");
    assert_eq!(trim(""), "");
    assert!(trim_eq("  a b ", "a b"));
    assert!(!trim_eq("a", "b"));
}

#[test]
fn test_starts_with_and_contains() {
    assert!(starts_with_str("    - [Morning]", "    - "));
    assert!(!starts_with_str("- [Morning]", "    - "));
    assert!(contains_sub("- [Daily News](./daily_news.md)", "- [Daily News]"));
    assert!(!contains_sub("- [Contact](./contact.md)", "- [Daily News]"));
}

#[test]
fn test_split_and_join_lines() {
    let v = split_lines("a\nb\n\nc");
    assert_eq!(v, vec!["a".to_string(), "b".to_string(), "".to_string(), "c".to_string()]);
    let w = split_lines("a\nb\n");
    assert_eq!(w, vec!["a".to_string(), "b".to_string()]);
    assert_eq!(join_lines(&v), "a\nb\n\nc");
    assert_eq!(split_lines(""), Vec::<String>::new());
}

#[test]
fn test_split_on_char_keeps_empty_segments() {
    assert_eq!(
        split_on_char("lite.cnn.com", '.'),
        vec!["lite".to_string(), "cnn".to_string(), "com".to_string()]
    );
    assert_eq!(
        split_on_char("a..b", '.'),
        vec!["a".to_string(), "".to_string(), "b".to_string()]
    );
    assert_eq!(split_on_char("", '.'), vec!["".to_string()]);
}

#[test]
fn test_usize_to_string() {
    assert_eq!(usize_to_string(0), "0");
    assert_eq!(usize_to_string(7), "7");
    assert_eq!(usize_to_string(400), "400");
    assert_eq!(usize_to_string(90210), "90210");
}

#[test]
fn test_str_lex_le_orders_strings() {
    assert!(str_lex_le("Health", "Politics"));
    assert!(!str_lex_le("Politics", "Health"));
    assert!(str_lex_le("abc", "abc"));
    assert!(str_lex_le("ab", "abc"));
    assert!(!str_lex_le("abd", "abc"));
}
