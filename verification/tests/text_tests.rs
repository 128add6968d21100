use seela::text::{is_whitespace, parse_u64, same_text, split_whitespace, trimmed};

#[test]
fn parse_u64_accepts_plain_and_plus_signed_digits() {
    assert_eq!(parse_u64("5"), Some(5));
    assert_eq!(parse_u64("+42"), Some(42));
    assert_eq!(parse_u64("007"), Some(7));
    assert_eq!(parse_u64("18446744073709551615"), Some(u64::MAX));
}

#[test]
fn parse_u64_rejects_what_std_rejects() {
    assert_eq!(parse_u64(""), None);
    assert_eq!(parse_u64("+"), None);
    assert_eq!(parse_u64("-5"), None);
    assert_eq!(parse_u64(" 5"), None);
    assert_eq!(parse_u64("5s"), None);
    assert_eq!(parse_u64("18446744073709551616"), None);
    assert_eq!(parse_u64("99999999999999999999999"), None);
}

#[test]
fn parse_u64_agrees_with_std() {
    for s in ["0", "+0", "12", "+", "-", "1_000", "184467440737095516150", "4294967296"] {
        assert_eq!(parse_u64(s), s.parse::<u64>().ok(), "{s}");
    }
}

#[test]
fn trimmed_drops_unicode_whitespace() {
    assert_eq!(trimmed("  a b \n"), "a b");
    assert_eq!(trimmed("\u{3000}yes\u{a0}"), "yes");
    assert_eq!(trimmed(" \t\r\n"), "");
    assert_eq!(trimmed("x"), "x");
}

#[test]
fn split_whitespace_gives_maximal_words() {
    assert_eq!(split_whitespace("  --height 40%\t--layout=reverse "), vec!["--height", "40%", "--layout=reverse"]);
    assert_eq!(split_whitespace(""), Vec::<String>::new());
    assert_eq!(split_whitespace("   "), Vec::<String>::new());
    assert_eq!(split_whitespace("a\u{2003}b"), vec!["a", "b"]);
}

#[test]
fn is_whitespace_matches_char_is_whitespace() {
    for c in ['\t', '\n', '\u{b}', '\u{c}', '\r', ' ', '\u{85}', '\u{a0}', '\u{1680}', '\u{2000}', '\u{200a}', '\u{2028}', '\u{2029}', '\u{202f}', '\u{205f}', '\u{3000}', 'a', '\u{200b}', '_', '\0'] {
        assert_eq!(is_whitespace(c), c.is_whitespace(), "{:?}", c);
    }
}

#[test]
fn same_text_compares_characters() {
    assert!(same_text("@run", "@run"));
    assert!(!same_text("@run", "@runs"));
    assert!(!same_text("", "a"));
}
