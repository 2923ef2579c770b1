use scrapland_codec::{
    decode, decode_lines, destination, encode, encode_lines, output_suffix, Config, DecodeError,
    Destination,
};
use std::path::PathBuf;

fn lines(texts: &[&str]) -> Vec<String> {
    texts.iter().map(|t| t.to_string()).collect()
}

fn config(out: Option<&str>, tostd: bool) -> Config {
    Config {
        in_file_path: PathBuf::from("dir/input.txt"),
        out_file_path: out.map(PathBuf::from),
        tostd,
    }
}

#[test]
fn decode_lines_joins_with_terminator() {
    let input = lines(&["\u{1}0421\u{1}0432", "plain", ""]);
    assert_eq!(decode_lines(&input, "\r\n"), Ok(String::from("Св\r\nplain\r\n\r\n")));
    assert_eq!(decode_lines(&input, "\n"), Ok(String::from("Св\nplain\n\n")));
}

#[test]
fn decode_lines_of_no_lines_is_empty() {
    assert_eq!(decode_lines(&Vec::new(), "\r\n"), Ok(String::new()));
}

#[test]
fn decode_lines_fails_as_the_first_bad_line() {
    let input = lines(&["good", "\u{1}04", "\u{1}DC00"]);
    assert_eq!(
        decode_lines(&input, "\r\n"),
        Err(DecodeError::MalformedEscape {
            fragment: String::from("04"),
            line: String::from("\u{1}04"),
        })
    );
    let input = lines(&["\u{1}DC00", "\u{1}04"]);
    assert_eq!(decode_lines(&input, "\r\n"), Err(DecodeError::InvalidCodeUnit { unit: 0xDC00 }));
}

#[test]
fn encode_lines_joins_with_terminator() {
    let input = lines(&["Св", "plain", ""]);
    assert_eq!(
        encode_lines(&input, "\r\n"),
        Ok(String::from("\u{1}0421\u{1}0432\r\nplain\r\n\r\n"))
    );
    assert_eq!(encode_lines(&input, "|"), Ok(String::from("\u{1}0421\u{1}0432|plain||")));
    assert_eq!(encode_lines(&Vec::new(), "\r\n"), Ok(String::new()));
}

#[test]
fn lines_round_trip() {
    let input = lines(&["Свалка", "😀 and text", "", "ascii only"]);
    let encoded = encode_lines(&input, "\r\n").unwrap();
    let again: Vec<String> = encoded.lines().map(|l| l.to_string()).collect();
    assert_eq!(
        decode_lines(&again, "\r\n"),
        Ok(String::from("Свалка\r\n😀 and text\r\n\r\nascii only\r\n"))
    );
}

#[test]
fn suffix_names_the_action() {
    assert_eq!(output_suffix("decoded"), "_decoded.txt");
    assert_eq!(output_suffix("encoded"), "_encoded.txt");
    assert_eq!(output_suffix(""), "_.txt");
}

#[test]
fn destination_is_stdout_when_asked_for() {
    assert_eq!(destination(config(None, true), "decoded"), Destination::Stdout);
    assert_eq!(destination(config(Some("out.txt"), true), "decoded"), Destination::Stdout);
}

#[test]
fn destination_is_the_named_file() {
    assert_eq!(
        destination(config(Some("out.txt"), false), "encoded"),
        Destination::File { path: PathBuf::from("out.txt") }
    );
}

#[test]
fn destination_is_derived_from_the_input() {
    assert_eq!(
        destination(config(None, false), "encoded"),
        Destination::Derived {
            input: PathBuf::from("dir/input.txt"),
            suffix: String::from("_encoded.txt"),
        }
    );
}

#[test]
fn decode_gives_text_and_destination() {
    let input = lines(&["\u{1}0421", "b"]);
    let output = decode(config(None, false), &input).unwrap();
    assert_eq!(output.text, "С\r\nb\r\n");
    assert_eq!(
        output.destination,
        Destination::Derived {
            input: PathBuf::from("dir/input.txt"),
            suffix: String::from("_decoded.txt"),
        }
    );
    let output = decode(config(Some("o"), true), &input).unwrap();
    assert_eq!(output.destination, Destination::Stdout);
}

#[test]
fn decode_fails_as_its_first_bad_line() {
    let input = lines(&["a", "\u{1}D83D"]);
    let failure = decode(config(None, true), &input).unwrap_err();
    assert_eq!(failure, DecodeError::InvalidCodeUnit { unit: 0xD83D });
}

#[test]
fn encode_gives_text_and_destination() {
    let input = lines(&["С", "b"]);
    let output = encode(config(Some("out.txt"), false), &input).unwrap();
    assert_eq!(output.text, "\u{1}0421\r\nb\r\n");
    assert_eq!(output.destination, Destination::File { path: PathBuf::from("out.txt") });
    let output = encode(config(None, false), &input).unwrap();
    assert_eq!(
        output.destination,
        Destination::Derived {
            input: PathBuf::from("dir/input.txt"),
            suffix: String::from("_encoded.txt"),
        }
    );
}
