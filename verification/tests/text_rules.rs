use space_cmd::app::AppState;
use space_cmd::session::{color_role, is_error_result};
use space_cmd::strutil::{
    contains_sub, i64_to_string, parse_u32, split_lines, split_on, str_lt, u64_to_string,
};

#[test]
fn case_folding_reaches_beyond_ascii() {
    // The folding behind the autocomplete filter is the library's
    // Unicode case mapping, not an ASCII approximation.
    let mut state = AppState::new();
    state.autocomplete_list = vec!["\u{c9}CLAIR".to_string(), "BREAD".to_string()];
    state.autocomplete_query = "\u{e9}clair".to_string();
    state.filter_autocomplete();
    assert_eq!(state.autocomplete_list, vec!["\u{c9}CLAIR".to_string()]);
}

#[test]
fn substring_search_finds_and_rejects() {
    assert!(contains_sub("hailot", "ail"));
    assert!(contains_sub("hailot", ""));
    assert!(!contains_sub("hailot", "xyz"));
    assert!(!contains_sub("ab", "abc"));
}

#[test]
fn lexicographic_order_matches_str_order() {
    assert!(str_lt("abc", "abd"));
    assert!(str_lt("ab", "abc"));
    assert!(!str_lt("abc", "abc"));
    assert!(!str_lt("b", "ab"));
    assert_eq!(str_lt("m1", "m2"), "m1" < "m2");
}

#[test]
fn line_splitting_matches_std_lines() {
    let cases = [
        "a\nb",
        "a\n",
        "",
        "\n",
        "a\r\nb",
        "one\n\nthree\n",
    ];
    for text in cases {
        let mine = split_lines(text);
        let std_lines: Vec<String> = text.lines().map(|s| s.to_string()).collect();
        assert_eq!(mine, std_lines, "case: {:?}", text);
    }
}

#[test]
fn split_keeps_empty_pieces() {
    assert_eq!(split_on("a--b", '-'), vec!["a", "", "b"]);
    assert_eq!(split_on("", '-'), vec![""]);
}

#[test]
fn decimal_formatting_round_trips() {
    assert_eq!(u64_to_string(0), "0");
    assert_eq!(u64_to_string(90210), "90210");
    assert_eq!(i64_to_string(-45), "-45");
    assert_eq!(i64_to_string(7), "7");
}

#[test]
fn digit_parsing_is_exact() {
    assert_eq!(parse_u32("0"), Some(0));
    assert_eq!(parse_u32("4294967295"), Some(u32::MAX));
    assert_eq!(parse_u32("4294967296"), None);
    assert_eq!(parse_u32("12a"), None);
    assert_eq!(parse_u32(""), None);
}

#[test]
fn error_results_are_detected_case_insensitively() {
    assert!(is_error_result("Error: file not found"));
    assert!(is_error_result("the build FAILED badly"));
    assert!(is_error_result("unhandled exception"));
    assert!(!is_error_result("all fine"));
}

#[test]
fn role_coloring_marks_user_and_assistant() {
    let user = color_role("user");
    assert!(user.contains("\u{1b}[36m"));
    assert!(user.contains("USER"));
    let assistant = color_role("assistant");
    assert!(assistant.contains("\u{1b}[32m"));
    assert!(assistant.contains("assistant"));
    assert_eq!(color_role("system"), "system");
}
