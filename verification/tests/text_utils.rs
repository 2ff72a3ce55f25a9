//! The string utilities: comparison, parsing, formatting, joining,
//! substring search, insertion, and input normalization.

use shardbearer::text::{
    insert_code, join_strings, normalize_line, parse_dec, str_contains, str_eq, str_lt,
    usize_to_string,
};

#[test]
fn str_eq_compares_contents() {
    assert!(str_eq("abc", "abc"));
    assert!(!str_eq("abc", "abd"));
    assert!(!str_eq("abc", "ab"));
    assert!(str_eq("", ""));
}

#[test]
fn str_lt_orders_lexicographically() {
    assert!(str_lt("GHOST", "LIBERATION"));
    assert!(!str_lt("LIBERATION", "GHOST"));
    assert!(str_lt("ab", "abc"));
    assert!(!str_lt("abc", "ab"));
    assert!(!str_lt("same", "same"));
    assert!(str_lt("", "a"));
}

#[test]
fn parse_dec_accepts_digit_runs() {
    assert_eq!(parse_dec("1"), Some(1));
    assert_eq!(parse_dec("42"), Some(42));
    assert_eq!(parse_dec("0"), Some(0));
    assert_eq!(parse_dec("007"), Some(7));
}

#[test]
fn parse_dec_rejects_everything_else() {
    assert_eq!(parse_dec(""), None);
    assert_eq!(parse_dec("abc"), None);
    assert_eq!(parse_dec("1a"), None);
    assert_eq!(parse_dec("-1"), None);
    assert_eq!(parse_dec("+1"), None);
    assert_eq!(parse_dec("1 "), None);
}

#[test]
fn parse_dec_detects_overflow() {
    let max = usize::MAX.to_string();
    assert_eq!(parse_dec(&max), Some(usize::MAX));
    let too_big = format!("{}0", max);
    assert_eq!(parse_dec(&too_big), None);
}

#[test]
fn usize_to_string_writes_decimals() {
    assert_eq!(usize_to_string(0), "0");
    assert_eq!(usize_to_string(7), "7");
    assert_eq!(usize_to_string(10), "10");
    assert_eq!(usize_to_string(409), "409");
    assert_eq!(usize_to_string(usize::MAX), usize::MAX.to_string());
}

#[test]
fn join_strings_separates_entries() {
    let parts: Vec<String> = vec![];
    assert_eq!(join_strings(&parts, ", "), "");
    let parts = vec!["a".to_string()];
    assert_eq!(join_strings(&parts, ", "), "a");
    let parts = vec!["a".to_string(), "b".to_string(), "c".to_string()];
    assert_eq!(join_strings(&parts, " -> "), "a -> b -> c");
}

#[test]
fn str_contains_finds_runs() {
    assert!(str_contains("the Helix Spire at night", "Helix Spire"));
    assert!(!str_contains("the Helix Spire", "helix"));
    assert!(str_contains("abc", ""));
    assert!(str_contains("abc", "abc"));
    assert!(!str_contains("ab", "abc"));
}

#[test]
fn insert_code_keeps_sorted_unique() {
    let mut codes: Vec<String> = Vec::new();
    insert_code(&mut codes, "LIBERATION".to_string());
    insert_code(&mut codes, "GHOST".to_string());
    insert_code(&mut codes, "ZENITH".to_string());
    assert_eq!(codes, vec!["GHOST", "LIBERATION", "ZENITH"]);
    insert_code(&mut codes, "LIBERATION".to_string());
    assert_eq!(codes, vec!["GHOST", "LIBERATION", "ZENITH"]);
}

#[test]
fn normalize_line_trims_and_lowercases() {
    assert_eq!(normalize_line("  HeLp  "), "help");
    assert_eq!(normalize_line("\tQUIT\n"), "quit");
    assert_eq!(normalize_line("   "), "");
    assert_eq!(normalize_line("2"), "2");
}
