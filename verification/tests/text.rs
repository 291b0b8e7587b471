use postgrest::text;

#[test]
fn white_space_is_that_of_unicode() {
    for code in 0..=0x10ffffu32 {
        if let Some(c) = char::from_u32(code) {
            assert_eq!(text::white(c), c.is_whitespace(), "U+{:04X}", code);
        }
    }
}

#[test]
fn trimming_agrees_with_std() {
    for s in ["", " ", "a", "  a b \t", "\u{3000}x\u{85}", "\n\nhost\r\n", "\u{200b}x"] {
        assert_eq!(text::trim(s), s.trim());
        assert_eq!(text::trim_front(s), s.trim_start());
        assert_eq!(text::trim_line_end(s), s.trim_end_matches(|c| c == '\n' || c == '\r'));
    }
    assert_eq!(text::trim_line_end("pw \r\n\n"), "pw ");
}

#[test]
fn splitting_agrees_with_std() {
    for s in ["", ";", "a", "a;b", ";a;;b;", "ä;ö"] {
        let expected: Vec<String> = s.split(';').map(String::from).collect();
        assert_eq!(text::split_at_char(s, ';'), expected);
        assert!(text::split_at_char(s, ';').iter().all(|part| !part.contains(';')));
    }
}

#[test]
fn lines_agree_with_std() {
    for s in ["", "\n", "a", "a\n", "a\r\nb", "a\rb\n\r\n", "a\r", "\r\n\r", "x\n\ny\n"] {
        let expected: Vec<String> = s.lines().map(String::from).collect();
        assert_eq!(text::split_lines(s), expected);
    }
}

#[test]
fn prefixes_and_parts() {
    assert_eq!(text::strip_prefix("ExecStart=/bin/x", "ExecStart="), Some("/bin/x".to_string()));
    assert_eq!(text::strip_prefix("Exec", "ExecStart="), None);
    assert_eq!(text::strip_prefix("abc", ""), Some("abc".to_string()));
    assert_eq!(text::take_before("/a b --c --d", " --"), "/a b");
    assert_eq!(text::take_before("/a b", " --"), "/a b");
    assert_eq!(text::take_after("a : b : c", ':'), Some(" b : c".to_string()));
    assert_eq!(text::take_after("abc", ':'), None);
    assert_eq!(text::leading_word("  one two"), Some("one".to_string()));
    assert_eq!(text::leading_word(" \t\n"), None);
    assert_eq!(text::leading_word(""), None);
}

#[test]
fn case_is_ignored_for_ascii_only() {
    for (a, b) in [("Cookie", "cOOKIE"), ("ä", "Ä"), ("k", "\u{212a}"), ("", ""), ("a", "ab")] {
        assert_eq!(text::same_ignoring_case(a, b), a.eq_ignore_ascii_case(b));
    }
    assert!(text::same("x", "x"));
    assert!(!text::same("x", "X"));
}

#[test]
fn joining_puts_the_separator_between() {
    let parts = |v: &[&str]| v.iter().map(|s| s.to_string()).collect::<Vec<String>>();
    assert_eq!(text::join(&parts(&[]), ": "), "");
    assert_eq!(text::join(&parts(&["a"]), ": "), "a");
    assert_eq!(text::join(&parts(&["db error", "FATAL", ""]), ": "), "db error: FATAL: ");
}

#[test]
fn numbers_are_read_as_std_reads_them() {
    for s in [
        "0", "7", "007", "+7", "+", "-1", "", " 1", "1 ", "1_0", "٣", "++1", "18446744073709551615",
        "18446744073709551616", "99999999999999999999999", "000000000000000000000000001",
    ] {
        assert_eq!(text::parse_number(s), s.parse::<u64>().ok(), "{:?}", s);
    }
}

#[test]
fn numbers_are_written_in_decimal() {
    for n in [0, 9, 10, 11, 100, 12345, u64::MAX] {
        let mut s = String::from("n=");
        text::push_decimal(&mut s, n);
        assert_eq!(s, format!("n={}", n));
    }
}
