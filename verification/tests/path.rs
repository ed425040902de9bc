use mail_mcp::path::{file_name, join, sanitize_filename};

#[test]
fn filenames_cannot_escape_output_directory() {
    assert_eq!(sanitize_filename("../../secret.txt"), "secret.txt");
    assert_eq!(sanitize_filename("invoice:2026.pdf"), "invoice_2026.pdf");
}

#[test]
fn file_names_are_those_of_std() {
    for p in ["", "/", "a", "a/b", "a/b/", "a/b//", "a/.", "a/./", ".", "./", "..", "a/..", "../a", "/etc/passwd", "a//b", "a/ /", "./.", "x/...", "\\a"] {
        let expected = std::path::Path::new(p).file_name().and_then(|s| s.to_str()).map(|s| s.to_string());
        assert_eq!(file_name(p), expected, "{p:?}");
    }
}

#[test]
fn joining_is_that_of_std() {
    for (b, p) in [("", "x"), ("a", "x"), ("a/", "x"), ("/", "x"), ("a", "/x"), ("a", ""), ("", "")] {
        assert_eq!(join(b, p), std::path::Path::new(b).join(p).to_str().unwrap(), "{b:?} {p:?}");
    }
}

#[test]
fn nothing_left_becomes_a_fallback() {
    assert_eq!(sanitize_filename(""), "attachment.bin");
    assert_eq!(sanitize_filename("/"), "attachment.bin");
    assert_eq!(sanitize_filename(".."), "attachment.bin");
    assert_eq!(sanitize_filename("   "), "attachment.bin");
}

#[test]
fn dots_with_white_space_name_no_file() {
    assert_eq!(sanitize_filename(" .."), "attachment.bin");
    assert_eq!(sanitize_filename(".. "), "attachment.bin");
    assert_eq!(sanitize_filename("a/ . "), "attachment.bin");
    assert_eq!(sanitize_filename(" ... "), "...");
    assert_eq!(sanitize_filename(" .a"), ".a");
}

#[test]
fn directories_do_not_matter() {
    for file in ["report.pdf", " a:b ", " ..", "x/"] {
        for dir in ["", "/", "..", "a/b", "../.."] {
            let whole = format!("{dir}/{file}");
            assert_eq!(sanitize_filename(&whole), sanitize_filename(file), "{whole:?}");
        }
    }
}

#[test]
fn letters_beyond_ascii_are_kept() {
    assert_eq!(sanitize_filename("\u{fc}ber-\u{6587}\u{4ef6} 1.txt"), "\u{fc}ber-\u{6587}\u{4ef6} 1.txt");
    assert_eq!(sanitize_filename("a\u{2028}b\\c\u{0}d"), "a_b_c_d");
}

#[test]
fn ascii_letters_and_digits_are_the_safe_ones() {
    for code in 0u8..128 {
        let c = code as char;
        let name = format!("x{c}x");
        let expected = if c == '/' {
            "x".to_string()
        } else if c.is_ascii_alphanumeric() || c == '.' || c == '-' || c == '_' || c == ' ' {
            name.clone()
        } else {
            "x_x".to_string()
        };
        assert_eq!(sanitize_filename(&name), expected);
    }
}

#[test]
fn a_safe_name_stays() {
    for name in ["report.pdf", "../../a b.txt", "x:y", "", " ..", " . "] {
        let once = sanitize_filename(name);
        assert_eq!(sanitize_filename(&once), once);
    }
}
