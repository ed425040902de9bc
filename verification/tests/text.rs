use mail_mcp::text;

#[test]
fn white_space_is_that_of_std() {
    for code in 0..=0x10ffffu32 {
        if let Some(c) = char::from_u32(code) {
            assert_eq!(text::is_white_space(c), c.is_whitespace());
            assert_eq!(text::lower_char(c), c.to_ascii_lowercase());
        }
    }
}

#[test]
fn trimming_matches_std() {
    for s in ["", " ", "a", " a ", "\t\r\n a b \u{a0}", "\u{3000}x\u{2003}"] {
        assert_eq!(text::trim(s), s.trim());
    }
}

#[test]
fn replacing_matches_std() {
    for (s, p, w) in [("aaa", "aa", "b"), ("a&amp;b", "&amp;", "&"), ("", "x", "y"), ("xyx", "x", "")] {
        assert_eq!(text::replace(s, p, w), s.replace(p, w));
    }
}

#[test]
fn numbers_are_read_as_std_reads_them() {
    for s in ["0", "993", "+587", "65535", "65536", "", "+", "-1", "1 ", "00042", "99999999999999999999", "\u{661}"] {
        assert_eq!(text::parse_unsigned(s, 65535).map(|n| n as u16), s.parse::<u16>().ok());
        assert_eq!(text::parse_unsigned(s, u64::MAX), s.parse::<u64>().ok());
    }
}

#[test]
fn numbers_are_shown_in_decimal() {
    for n in [0u64, 7, 10, 99, 100, 26_214_400, u64::MAX] {
        assert_eq!(text::show(n), n.to_string());
    }
}

#[test]
fn case_is_ignored_for_ascii_only() {
    assert!(text::same_ignoring_case("Text/PLAIN", "text/plain"));
    assert!(!text::same_ignoring_case("\u{c4}", "\u{e4}"));
    assert!(!text::same_ignoring_case("a", "ab"));
}

#[test]
fn joining_puts_the_separator_between() {
    assert_eq!(text::join(&vec![], ","), "");
    assert_eq!(text::join(&vec!["a".to_string()], ","), "a");
    assert_eq!(text::join(&vec!["a".to_string(), "b".to_string(), "c".to_string()], ", "), "a, b, c");
}

#[test]
fn lines_are_trimmed_and_blank_ones_dropped() {
    assert_eq!(text::nonempty_lines(" a \r\n\n\t\nb\n"), vec!["a".to_string(), "b".to_string()]);
    assert!(text::nonempty_lines("").is_empty());
}

#[test]
fn shown_numbers_are_read_back() {
    for n in [0u64, 9, 10, 65535, u64::MAX] {
        assert_eq!(text::parse_unsigned(&text::show(n), u64::MAX), Some(n));
    }
}
