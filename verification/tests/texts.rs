use plc_mirror::text;

#[test]
fn trimming_takes_unicode_white_space_off_both_ends() {
    assert_eq!(text::trim("\u{3000} a b\t\n"), "a b");
    assert_eq!(text::trim(" \t\u{a0}"), "");
    assert_eq!(text::trim(""), "");
    assert_eq!(text::trim("x"), "x");
}

#[test]
fn white_space_is_that_of_the_standard_library() {
    for c in '\0'..=char::MAX {
        let text = String::from(c);
        assert_eq!(text::trim(&text).is_empty(), c.is_whitespace(), "{:?}", c);
    }
}

#[test]
fn lines_with_nothing_but_white_space_are_left_out() {
    assert_eq!(text::nonblank_lines("a\r\n\n  \u{2003}\nb"), vec!["a", "b"]);
    assert_eq!(text::nonblank_lines("{\"x\":1}\n{\"y\":2}\n"), vec!["{\"x\":1}", "{\"y\":2}"]);
    assert_eq!(text::nonblank_lines(" kept \n"), vec![" kept "]);
    assert_eq!(text::nonblank_lines("a\rb\nc\r"), vec!["a\rb", "c\r"]);
    assert!(text::nonblank_lines("").is_empty());
    assert!(text::nonblank_lines("\n\r\n \n").is_empty());
}

#[test]
fn nonblank_lines_agree_with_the_standard_library() {
    for sample in ["", "a", "a\n", "\na", "a\n\nb\r\n\r\nc", " \n x \n\t", "\r", "a\r\r\nb"] {
        let expected: Vec<&str> = sample.lines().filter(|l| !l.trim().is_empty()).collect();
        assert_eq!(text::nonblank_lines(sample), expected);
    }
}

#[test]
fn unsigned_numbers_are_read_as_the_standard_library_reads_them() {
    for sample in [
        "0", "30", "+7", "007", "", "+", "-1", " 5", "5 ", "1_0", "1.5", "++1",
        "18446744073709551615", "18446744073709551616", "99999999999999999999", "٣",
    ] {
        assert_eq!(text::parse_unsigned(sample), sample.parse::<u64>().ok(), "{}", sample);
    }
}

#[test]
fn numbers_are_written_in_decimal() {
    let mut out = String::from("n=");
    text::push_decimal(&mut out, 0);
    text::push_decimal(&mut out, u64::MAX);
    assert_eq!(out, "n=018446744073709551615");
    let mut out = String::new();
    text::push_signed(&mut out, i64::MIN);
    text::push_signed(&mut out, -1);
    text::push_signed(&mut out, 1700000000123);
    assert_eq!(out, "-9223372036854775808-11700000000123");
}

#[test]
fn texts_are_ordered_by_their_bytes() {
    assert!(text::str_lt("a", "b"));
    assert!(text::str_lt("a", "aa"));
    assert!(text::str_lt("", "a"));
    assert!(text::str_lt("Z", "a"));
    assert!(text::str_lt("z", "é"));
    assert!(text::str_lt("\u{ffff}", "\u{10000}"));
    assert!(!text::str_lt("a", "a"));
    assert!(!text::str_lt("b", "a"));
}

#[test]
fn a_part_of_a_text_is_found() {
    assert!(text::str_contains("did:plc:abc", "plc"));
    assert!(text::str_contains("did:plc:abc", ""));
    assert!(text::str_contains("", ""));
    assert!(text::str_contains("aaab", "aab"));
    assert!(!text::str_contains("ab", "abc"));
    assert!(!text::str_contains("grün", "gruen"));
    assert!(text::str_contains("grün", "ün"));
    assert!(text::str_eq("same", "same"));
    assert!(!text::str_eq("same", "sane"));
}
