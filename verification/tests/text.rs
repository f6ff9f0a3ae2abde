use twrk::text::{decimal_string, is_whitespace, str_eq, str_lt, substring, trimmed};

#[test]
fn trimming_removes_unicode_white_space() {
    assert_eq!(trimmed("  a b \t\n"), "a b");
    assert_eq!(trimmed("\u{3000}x\u{a0}"), "x");
    assert_eq!(trimmed("   "), "");
}

#[test]
fn white_space_matches_std() {
    for c in ['a', ' ', '\t', '\n', '\u{85}', '\u{2028}', '\u{200b}', 'é'] {
        assert_eq!(is_whitespace(c), c.is_whitespace());
    }
}

#[test]
fn ordering_is_lexicographic_by_character() {
    assert!(str_lt("alpha", "beta"));
    assert!(str_lt("ab", "abc"));
    assert!(!str_lt("abc", "ab"));
    assert!(!str_lt("same", "same"));
    assert!(str_eq("same", "same"));
    assert!(!str_eq("same", "Same"));
}

#[test]
fn substrings_count_characters() {
    assert_eq!(substring("héllo", 1, 3), "él");
    assert_eq!(twrk::text::concat("a", "b"), "ab");
}

#[test]
fn decimal_numbers() {
    assert_eq!(decimal_string(0), "0");
    assert_eq!(decimal_string(7), "7");
    assert_eq!(decimal_string(120), "120");
}
