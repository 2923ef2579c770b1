use scrapland_codec::{decode_string, encode_string, DecodeError};

fn malformed(fragment: &str, line: &str) -> DecodeError {
    DecodeError::MalformedEscape { fragment: fragment.to_string(), line: line.to_string() }
}

#[test]
fn test_decode_string() {
    {
        let string = "\u{1}0421\u{1}0432\u{1}0430\u{1}043B\u{1}043A\u{1}0430";
        let actual = decode_string(string).unwrap();
        let expected = String::from("Свалка");
        assert_eq!(actual, expected);
    }

    {
        let string = "\u{1}042\u{1}0432\u{1}0430\u{1}043B\u{1}043A\u{1}043I";
        assert!(decode_string(string).is_err());
    }
}

#[test]
fn test_encode_string() {
    {
        let string = "Свалка";
        let actual = encode_string(string).unwrap();
        let expected = String::from("\u{1}0421\u{1}0432\u{1}0430\u{1}043B\u{1}043A\u{1}0430");
        assert_eq!(actual, expected);
    }

    {
        let string = "\u{1}0421\u{1}0432\u{1}0430\u{1}043B\u{1}043A\u{1}0430";
        let actual = encode_string(string).unwrap();
        let expected = String::from("\u{1}0421\u{1}0432\u{1}0430\u{1}043B\u{1}043A\u{1}0430");
        assert_eq!(actual, expected);
    }
}

#[test]
fn decode_empty_line() {
    assert_eq!(decode_string(""), Ok(String::new()));
}

#[test]
fn decode_plain_text_is_copied() {
    assert_eq!(decode_string("Hello, world! 123"), Ok(String::from("Hello, world! 123")));
}

#[test]
fn decode_raw_non_ascii_is_copied() {
    assert_eq!(decode_string("naïve Свалка"), Ok(String::from("naïve Свалка")));
}

#[test]
fn decode_mixed_plain_and_escapes() {
    assert_eq!(decode_string("a\u{1}0431c\u{1}00E9!"), Ok(String::from("aбcé!")));
}

#[test]
fn decode_accepts_lower_case_digits() {
    assert_eq!(decode_string("\u{1}043b\u{1}00e9"), Ok(String::from("лé")));
    assert_eq!(decode_string("\u{1}aBcD"), Ok(String::from("\u{ABCD}")));
}

#[test]
fn decode_extreme_code_units() {
    assert_eq!(decode_string("\u{1}0000"), Ok(String::from("\u{0}")));
    assert_eq!(decode_string("\u{1}FFFF"), Ok(String::from("\u{FFFF}")));
    assert_eq!(decode_string("\u{1}D7FF"), Ok(String::from("\u{D7FF}")));
    assert_eq!(decode_string("\u{1}E000"), Ok(String::from("\u{E000}")));
}

#[test]
fn decode_escape_of_an_ascii_character() {
    assert_eq!(decode_string("\u{1}0041"), Ok(String::from("A")));
}

#[test]
fn decode_escape_of_the_marker() {
    assert_eq!(decode_string("\u{1}0001"), Ok(String::from("\u{1}")));
}

#[test]
fn decode_digits_after_a_complete_escape_are_plain() {
    assert_eq!(decode_string("\u{1}04210"), Ok(String::from("С0")));
}

#[test]
fn decode_truncated_escape_at_end_of_input() {
    let line = "\u{1}04";
    assert_eq!(decode_string(line), Err(malformed("04", line)));
}

#[test]
fn decode_marker_alone_at_end_of_input() {
    let line = "abc\u{1}";
    assert_eq!(decode_string(line), Err(malformed("", line)));
}

#[test]
fn decode_three_digits_at_end_of_input() {
    let line = "\u{1}0421\u{1}043";
    assert_eq!(decode_string(line), Err(malformed("043", line)));
}

#[test]
fn decode_new_escape_before_four_digits() {
    let line = "\u{1}04\u{1}0430";
    assert_eq!(decode_string(line), Err(malformed("04", line)));
}

#[test]
fn decode_two_markers_in_a_row() {
    let line = "\u{1}\u{1}0430";
    assert_eq!(decode_string(line), Err(malformed("", line)));
}

#[test]
fn decode_first_malformed_escape_decides() {
    let line = "\u{1}042\u{1}0432\u{1}0430\u{1}043B\u{1}043A\u{1}043I";
    assert_eq!(decode_string(line), Err(malformed("042", line)));
}

#[test]
fn decode_non_hex_digit_in_escape() {
    let line = "\u{1}043I";
    assert_eq!(decode_string(line), Err(malformed("043I", line)));
}

#[test]
fn decode_sign_is_no_digit() {
    let line = "\u{1}+123";
    assert_eq!(decode_string(line), Err(malformed("+123", line)));
}

#[test]
fn decode_non_ascii_character_in_escape() {
    let line = "\u{1}04é1";
    assert_eq!(decode_string(line), Err(malformed("04é1", line)));
}

#[test]
fn decode_non_hex_digit_then_marker() {
    let line = "\u{1}Z\u{1}0430";
    assert_eq!(decode_string(line), Err(malformed("Z", line)));
}

#[test]
fn decode_surrogate_pair() {
    assert_eq!(decode_string("\u{1}D83D\u{1}DE00"), Ok(String::from("😀")));
    assert_eq!(decode_string("x\u{1}d83d\u{1}de00y"), Ok(String::from("x😀y")));
}

#[test]
fn decode_extreme_surrogate_pairs() {
    assert_eq!(decode_string("\u{1}D800\u{1}DC00"), Ok(String::from("\u{10000}")));
    assert_eq!(decode_string("\u{1}DBFF\u{1}DFFF"), Ok(String::from("\u{10FFFF}")));
}

#[test]
fn decode_lone_low_surrogate() {
    assert_eq!(
        decode_string("\u{1}DE00"),
        Err(DecodeError::InvalidCodeUnit { unit: 0xDE00 })
    );
    assert_eq!(
        decode_string("\u{1}DC00\u{1}D800"),
        Err(DecodeError::InvalidCodeUnit { unit: 0xDC00 })
    );
}

#[test]
fn decode_high_surrogate_at_end_of_input() {
    assert_eq!(
        decode_string("ab\u{1}D83D"),
        Err(DecodeError::InvalidCodeUnit { unit: 0xD83D })
    );
}

#[test]
fn decode_high_surrogate_followed_by_plain_character() {
    assert_eq!(
        decode_string("\u{1}D83Dx\u{1}DE00"),
        Err(DecodeError::InvalidCodeUnit { unit: 0xD83D })
    );
}

#[test]
fn decode_high_surrogate_followed_by_other_escape() {
    assert_eq!(
        decode_string("\u{1}D83D\u{1}0041"),
        Err(DecodeError::InvalidCodeUnit { unit: 0xD83D })
    );
    assert_eq!(
        decode_string("\u{1}D83D\u{1}D83D\u{1}DE00"),
        Err(DecodeError::InvalidCodeUnit { unit: 0xD83D })
    );
}

#[test]
fn decode_high_surrogate_followed_by_malformed_escape() {
    let line = "\u{1}D83D\u{1}DE";
    assert_eq!(decode_string(line), Err(malformed("DE", line)));
    let line = "\u{1}D83D\u{1}DEXY";
    assert_eq!(decode_string(line), Err(malformed("DEXY", line)));
}

#[test]
fn decode_failure_after_good_items() {
    let line = "ok\u{1}0421 \u{1}12";
    assert_eq!(decode_string(line), Err(malformed("12", line)));
}

#[test]
fn encode_empty_text() {
    assert_eq!(encode_string(""), Ok(String::new()));
}

#[test]
fn encode_ascii_passes_through() {
    let text = "Hello, world!\t~\u{0}\u{7f} [0-9]";
    assert_eq!(encode_string(text), Ok(String::from(text)));
}

#[test]
fn encode_first_character_beyond_ascii() {
    assert_eq!(encode_string("\u{80}"), Ok(String::from("\u{1}0080")));
}

#[test]
fn encode_pads_with_zeros_and_writes_upper_case() {
    assert_eq!(encode_string("é"), Ok(String::from("\u{1}00E9")));
    assert_eq!(encode_string("\u{abcd}"), Ok(String::from("\u{1}ABCD")));
    assert_eq!(encode_string("\u{ffff}"), Ok(String::from("\u{1}FFFF")));
}

#[test]
fn encode_mixed_text() {
    assert_eq!(encode_string("aбc"), Ok(String::from("a\u{1}0431c")));
}

#[test]
fn encode_supplementary_character_as_two_escapes() {
    assert_eq!(encode_string("😀"), Ok(String::from("\u{1}D83D\u{1}DE00")));
    assert_eq!(encode_string("\u{10000}"), Ok(String::from("\u{1}D800\u{1}DC00")));
    assert_eq!(encode_string("\u{10FFFF}"), Ok(String::from("\u{1}DBFF\u{1}DFFF")));
}

#[test]
fn encode_copies_a_literal_marker() {
    assert_eq!(encode_string("a\u{1}b"), Ok(String::from("a\u{1}b")));
}

#[test]
fn encode_is_idempotent() {
    let once = encode_string("Свалка 😀 plain").unwrap();
    let twice = encode_string(&once).unwrap();
    assert_eq!(once, twice);
}

#[test]
fn every_escape_has_four_upper_case_digits() {
    let encoded = encode_string("é\u{7ff}я😀\u{fffd}z").unwrap();
    let chars: Vec<char> = encoded.chars().collect();
    let mut escapes = 0;
    let mut i = 0;
    while i < chars.len() {
        if chars[i] == '\u{1}' {
            assert!(i + 4 < chars.len());
            for d in &chars[i + 1..i + 5] {
                assert!(matches!(*d, '0'..='9' | 'A'..='F'));
            }
            escapes += 1;
            i += 5;
        } else {
            i += 1;
        }
    }
    assert_eq!(escapes, 6);
    assert_eq!(chars.len(), 31);
}

#[test]
fn round_trip_in_the_basic_plane() {
    for text in ["", "plain", "Свалка", "über naïve café", "日本語 text", "\u{80}\u{ffff}\u{d7ff}\u{e000}"] {
        let encoded = encode_string(text).unwrap();
        assert!(encoded.is_ascii());
        assert_eq!(decode_string(&encoded), Ok(String::from(text)));
    }
}

#[test]
fn round_trip_beyond_the_basic_plane() {
    for text in ["😀", "a😀b", "\u{10000}\u{10FFFF}", "𝄞 clef Свалка 🎵"] {
        let encoded = encode_string(text).unwrap();
        assert!(encoded.is_ascii());
        assert_eq!(decode_string(&encoded), Ok(String::from(text)));
    }
}

#[test]
fn round_trip_of_every_plane_boundary() {
    for code in [0x7fu32, 0x80, 0x7ff, 0x800, 0xd7ff, 0xe000, 0xffff, 0x10000, 0x103ff, 0x10400, 0x10ffff] {
        let c = char::from_u32(code).unwrap();
        let text = c.to_string();
        let encoded = encode_string(&text).unwrap();
        assert_eq!(decode_string(&encoded), Ok(text));
    }
}

#[test]
fn literal_marker_does_not_round_trip() {
    let encoded = encode_string("a\u{1}b").unwrap();
    assert_eq!(decode_string(&encoded), Err(malformed("b", "a\u{1}b")));
}
