use keyforge::order::{str_eq, str_lt};
use keyforge::text::{contains, decimal_string, trim, white_space};

#[test]
fn decimal_rendering() {
    assert_eq!(decimal_string(0), "0");
    assert_eq!(decimal_string(7), "7");
    assert_eq!(decimal_string(4096), "4096");
    assert_eq!(decimal_string(u64::MAX), u64::MAX.to_string());
}

#[test]
fn trim_matches_std() {
    for s in ["", "   ", " a ", "\u{3000}x y\u{2028}", "\t\nabc\r\n", "abc", "\u{85}z\u{a0}"] {
        assert_eq!(trim(s), s.trim());
    }
    assert!(white_space('\u{200A}'));
    assert!(!white_space('\u{200B}'));
}

#[test]
fn substring_search() {
    assert!(contains("https://x", "://"));
    assert!(!contains("example.com", "://"));
    assert!(contains("abc", ""));
    assert!(!contains("", "a"));
}

#[test]
fn text_order() {
    assert!(str_lt("Alpha", "alpha"));
    assert!(str_lt("ab", "abc"));
    assert!(!str_lt("abc", "abc"));
    assert!(str_eq("abc", "abc"));
    assert!(!str_eq("abc", "abd"));
}
