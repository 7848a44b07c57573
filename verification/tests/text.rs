use codex_silent::text::{
    byte_count, char_size, chars_within, characters, count_lines, is_before, is_bidi, is_control,
    is_space, join_all, only_digits, parse_digits, same, starts_with, strip_prefixes, to_decimal,
    to_escape, to_lower, to_signed, trim, trim_start,
};

#[test]
fn white_space_is_trimmed() {
    assert_eq!(trim(" \t\u{a0}\u{3000}a b\r\n"), "a b");
    assert_eq!(trim("  "), "");
    assert_eq!(trim_start("  a "), "a ");
    for c in '\0'..='\u{3100}' {
        assert_eq!(is_space(c), c.is_whitespace());
        assert_eq!(is_control(c), c.is_control());
    }
    assert!(is_bidi('\u{202e}') && is_bidi('\u{2066}') && !is_bidi('a'));
}

#[test]
fn lower_case_is_that_of_ascii() {
    assert_eq!(to_lower("YeS Ä"), "yes Ä");
}

#[test]
fn numbers_are_written_and_read() {
    assert_eq!(to_decimal(0), "0");
    assert_eq!(to_decimal(u128::MAX), u128::MAX.to_string());
    assert_eq!(to_signed(i64::MIN), i64::MIN.to_string());
    assert_eq!(to_signed(42), "42");
    assert_eq!(parse_digits("00042"), Some(42));
    assert_eq!(parse_digits("18446744073709551615"), Some(usize::MAX));
    assert_eq!(parse_digits("18446744073709551616"), None);
    assert!(only_digits("0123456789"));
    assert!(!only_digits("1٣"));
}

#[test]
fn escapes_are_those_of_the_language() {
    for c in ['\t', '\r', '\u{1b}', '\u{7f}', '\u{85}', '\u{202e}'] {
        assert_eq!(to_escape(c), c.escape_default().to_string());
    }
}

#[test]
fn lines_are_counted_as_they_are_shown() {
    for text in ["", "a", "a\n", "a\nb", "\n", "\n\n", "a\r\nb\r\n"] {
        assert_eq!(count_lines(text), text.lines().count());
    }
}

#[test]
fn texts_are_compared_and_joined() {
    assert!(same("λ", "λ") && !same("a", "ab"));
    assert!(is_before("a", "b") && is_before("a", "aa") && !is_before("b", "ab"));
    assert!(is_before("z", "é"));
    assert!(starts_with("/resume x", "/resume ") && !starts_with("/r", "/resume"));
    assert_eq!(strip_prefixes("aaab", "aa"), "ab");
    assert_eq!(strip_prefixes("/resume /resume x", "/resume "), "x");
    let parts = vec!["a".to_string(), String::new(), "b".to_string()];
    assert_eq!(join_all(&parts, ", "), "a, , b");
}

#[test]
fn byte_offsets_are_those_of_utf8() {
    for c in ['a', 'λ', '中', '😀'] {
        assert_eq!(char_size(c), c.len_utf8());
    }
    assert_eq!(byte_count("aλ中😀"), 10);
    let chars = characters("aλ中");
    assert_eq!(chars_within(&chars, 0), 0);
    assert_eq!(chars_within(&chars, 3), 2);
    assert_eq!(chars_within(&chars, 5), 2);
    assert_eq!(chars_within(&chars, 100), 3);
}
