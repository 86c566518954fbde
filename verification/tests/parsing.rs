use guessing_game::numeral::parse_guess;

#[test]
fn plain_number_parses() {
    assert_eq!(parse_guess(b"42"), Some(42));
    assert_eq!(parse_guess(b"3"), Some(3));
    assert_eq!(parse_guess(b"0"), Some(0));
}

#[test]
fn surrounding_whitespace_is_trimmed() {
    assert_eq!(parse_guess(b" 17 "), Some(17));
    assert_eq!(parse_guess(b"5\n"), Some(5));
    assert_eq!(parse_guess(b"\t3\r\n"), Some(3));
    assert_eq!(parse_guess(b"  1000  "), Some(1000));
}

#[test]
fn whitespace_set_matches_str_trim() {
    // Every White_Space code point that str::trim strips is trimmed here.
    assert_eq!(parse_guess(b"\x0B7"), Some(7));
    assert_eq!(parse_guess("\u{0085}8\u{0085}".as_bytes()), Some(8));
    assert_eq!(parse_guess("\u{00A0} 5 \u{00A0}".as_bytes()), Some(5));
    assert_eq!(parse_guess("\u{1680}2\u{1680}".as_bytes()), Some(2));
    assert_eq!(parse_guess("\u{2000}4".as_bytes()), Some(4));
    assert_eq!(parse_guess("\u{2003}3\u{2003}".as_bytes()), Some(3));
    assert_eq!(parse_guess("\u{200A}9".as_bytes()), Some(9));
    assert_eq!(parse_guess("\u{2028}6\u{2029}".as_bytes()), Some(6));
    assert_eq!(parse_guess("\u{202F}1".as_bytes()), Some(1));
    assert_eq!(parse_guess("\u{205F}10".as_bytes()), Some(10));
    assert_eq!(parse_guess("\u{3000}11\u{3000}".as_bytes()), Some(11));
    // The same texts agree with str::trim followed by str::parse.
    for text in ["\x0B7", "\u{00A0} 5 \u{00A0}", "\u{3000}11\u{3000}", "\u{200B}5", "x\u{2003}2"] {
        assert_eq!(parse_guess(text.as_bytes()), text.trim().parse::<u32>().ok());
    }
}

#[test]
fn non_whitespace_code_points_are_not_trimmed() {
    // Zero-width space and word joiner are not in White_Space.
    assert_eq!(parse_guess("\u{200B}5".as_bytes()), None);
    assert_eq!(parse_guess("5\u{2060}".as_bytes()), None);
    // Whitespace in the middle does not join the digits.
    assert_eq!(parse_guess("1\u{00A0}2".as_bytes()), None);
}

#[test]
fn leading_plus_sign_is_accepted() {
    assert_eq!(parse_guess(b"+5"), Some(5));
    assert_eq!(parse_guess(b" +12 "), Some(12));
}

#[test]
fn leading_zeroes_are_accepted() {
    assert_eq!(parse_guess(b"007"), Some(7));
    assert_eq!(parse_guess(b"00"), Some(0));
}

#[test]
fn largest_value_parses_and_overflow_does_not() {
    assert_eq!(parse_guess(b"4294967295"), Some(u32::MAX));
    assert_eq!(parse_guess(b"4294967296"), None);
    assert_eq!(parse_guess(b"99999999999999999999"), None);
}

#[test]
fn empty_and_whitespace_only_are_rejected() {
    assert_eq!(parse_guess(b""), None);
    assert_eq!(parse_guess(b" "), None);
    assert_eq!(parse_guess(b" \t\r\n"), None);
}

#[test]
fn non_numeric_text_is_rejected() {
    assert_eq!(parse_guess(b"abc"), None);
    assert_eq!(parse_guess(b"4.5"), None);
    assert_eq!(parse_guess(b"1 2"), None);
    assert_eq!(parse_guess(b"12a"), None);
    assert_eq!(parse_guess(b"a12"), None);
}

#[test]
fn signs_alone_or_negative_numbers_are_rejected() {
    assert_eq!(parse_guess(b"-1"), None);
    assert_eq!(parse_guess(b"+"), None);
    assert_eq!(parse_guess(b"++1"), None);
    assert_eq!(parse_guess(b"+-1"), None);
}

#[test]
fn non_utf8_bytes_are_rejected() {
    assert_eq!(parse_guess(&[0xff, 0xfe]), None);
    assert_eq!(parse_guess(&[0x35, 0xff]), None);
    assert_eq!(parse_guess(&[0xc3, 0x28]), None);
}
