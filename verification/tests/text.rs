//! Operations on texts, maps by text, and sorting.

use overfry::string_map::StringMap;
use overfry::text;

#[test]
fn texts_are_trimmed() {
    assert_eq!(text::trim(" \u{a0}x \n"), "x");
    assert_eq!(text::trim_end_matches("a//", &text::only('/')), "a");
    assert_eq!(text::trim_start_matches("/\\a/", &text::either('/', '\\')), "a/");
    assert_eq!(text::trim_matches("--a-b--", &text::only('-')), "a-b");
}

#[test]
fn texts_are_searched_and_replaced() {
    assert!(text::starts_with("abc", "ab") && !text::starts_with("ab", "abc"));
    assert!(text::contains("abc", "bc") && !text::contains("abc", "ac"));
    assert!(text::contains_char("abc", 'b') && !text::contains_char("abc", 'd'));
    assert_eq!(text::strip_prefix("abc", "ab"), Some("c".to_string()));
    assert_eq!(text::strip_prefix("abc", "b"), None);
    assert_eq!(text::replace("aXbX", "X", "--"), "a--b--");
}

#[test]
fn texts_are_split_and_joined() {
    assert_eq!(text::split_char("a,b,", ','), vec!["a", "b", ""]);
    assert_eq!(text::split_lines_inclusive("a\r\nb"), vec!["a\r\n", "b"]);
    assert_eq!(text::lines("a\r\nb\n"), vec!["a", "b"]);
    assert_eq!(text::strip_ending("a\r\n"), "a");
    assert_eq!(text::join(&["a".to_string(), "b".to_string()], "+"), "a+b");
}

#[test]
fn numbers_and_sizes() {
    assert_eq!(text::to_decimal(0), "0");
    assert_eq!(text::to_decimal(u64::MAX), "18446744073709551615");
    assert_eq!(text::byte_len("aé"), 3);
    assert!(text::eq_ignore_ascii_case("TAGS", "tags"));
    assert!(text::le("a", "b") && text::le("a", "a") && !text::le("b", "a"));
}

#[test]
fn maps_hold_the_last_value_of_a_key() {
    let mut m: StringMap<u16> = StringMap::new();
    m.insert("a", 1);
    m.insert("b", 2);
    m.insert("a", 3);
    assert_eq!(m.get("a"), Some(&3));
    assert_eq!(m.keys().len(), 2);
    assert!(m.has_value(2) && !m.has_value(1));
    assert_eq!(m.remove("a"), Some(3));
    assert_eq!(m.remove("a"), None);
    m.clear();
    assert!(!m.contains_key("b"));
}
