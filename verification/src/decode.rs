//! Decoding: escaped text back to plain text.
//!
//! What a line decodes to is stated by [`decode_text`], which reads the line
//! item by item: a plain character, an escape, or two escapes that form a
//! surrogate pair. [`decode_string`] computes it with a state machine that
//! sees one character at a time.

use vstd::prelude::*;
use crate::encode::MARKER;
use crate::hex::{hex_quad_value, is_hex_quad};
use crate::machine::{finish, step, tracks, State};
use crate::utf16::{is_low_surrogate, is_surrogate, scalar_of_pair, scalar_of_unit};

verus! {

/// Why a line could not be decoded.
#[derive(Debug, PartialEq, Eq)]
pub enum DecodeError {
    /// A marker was not followed by four hexadecimal digits before the line
    /// ended or the next marker came.
    MalformedEscape {
        /// The characters that followed the marker: at most four, none of
        /// them a marker.
        fragment: String,
        /// The whole line.
        line: String,
    },
    /// An escape held a surrogate code unit that is not part of a pair: a
    /// low surrogate with no high one before it, or a high surrogate that the
    /// escape of a low one does not follow at once.
    InvalidCodeUnit {
        /// The unpaired surrogate.
        unit: u16,
    },
}

/// A [`DecodeError`] with its texts as sequences of characters: what the
/// contracts speak of.
pub enum DecodeFailure {
    /// The escape body `fragment` in `line` is not four hexadecimal digits.
    MalformedEscape { fragment: Seq<char>, line: Seq<char> },
    /// The surrogate `unit` is not part of a pair.
    InvalidCodeUnit { unit: u16 },
}

impl View for DecodeError {
    type V = DecodeFailure;

    open spec fn view(&self) -> DecodeFailure {
        match *self {
            DecodeError::MalformedEscape { fragment, line } => DecodeFailure::MalformedEscape {
                fragment: fragment@,
                line: line@,
            },
            DecodeError::InvalidCodeUnit { unit } => DecodeFailure::InvalidCodeUnit { unit },
        }
    }
}

/// Whether the body of an escape cannot reach position `i`: the line ends
/// there, or a marker stands there.
pub open spec fn ends_body(line: Seq<char>, i: int) -> bool {
    i >= line.len() || line[i] == MARKER
}

/// How many characters belong to the escape whose marker stands at `at`:
/// those that follow the marker, up to four, before the next marker or the
/// end of the line.
pub open spec fn escape_body_len(line: Seq<char>, at: int) -> int {
    if ends_body(line, at + 1) {
        0
    } else if ends_body(line, at + 2) {
        1
    } else if ends_body(line, at + 3) {
        2
    } else if ends_body(line, at + 4) {
        3
    } else {
        4
    }
}

/// The characters that belong to the escape whose marker stands at `at`.
pub open spec fn escape_body(line: Seq<char>, at: int) -> Seq<char> {
    line.subrange(at + 1, at + 1 + escape_body_len(line, at))
}

/// The code unit that the escape at `at` writes, if its body is four
/// hexadecimal digits.
pub open spec fn code_unit_at(line: Seq<char>, at: int) -> Option<u16> {
    let body = escape_body(line, at);
    if is_hex_quad(body) {
        Some(hex_quad_value(body) as u16)
    } else {
        None
    }
}

/// The failure of the escape at `at` to have four hexadecimal digits.
pub open spec fn malformed_at(line: Seq<char>, at: int) -> DecodeFailure {
    DecodeFailure::MalformedEscape { fragment: escape_body(line, at), line }
}

/// `rest` with `head` put before its text; a failure stays as it is.
pub open spec fn preceded_by(head: Seq<char>, rest: Result<Seq<char>, DecodeFailure>) -> Result<
    Seq<char>,
    DecodeFailure,
> {
    match rest {
        Ok(text) => Ok(head + text),
        Err(failure) => Err(failure),
    }
}

/// What the part of `line` from position `at` on decodes to, `at` being the
/// start of an item.
///
/// A character other than the marker stands for itself. A marker opens an
/// escape, which must have four hexadecimal digits. The code unit they write
/// stands for a character by itself unless it is a surrogate. A high
/// surrogate must be followed at once by the escape of a low surrogate, and
/// the two stand for one character. The first item that breaks these rules
/// decides the failure.
pub open spec fn decode_from(line: Seq<char>, at: int) -> Result<Seq<char>, DecodeFailure>
    decreases line.len() - at,
    via decode_from_terminates
{
    if at < 0 || at >= line.len() {
        Ok(Seq::empty())
    } else if line[at] != MARKER {
        preceded_by(seq![line[at]], decode_from(line, at + 1))
    } else {
        match code_unit_at(line, at) {
            None => Err(malformed_at(line, at)),
            Some(unit) => {
                if !is_surrogate(unit) {
                    preceded_by(seq![scalar_of_unit(unit)], decode_from(line, at + 5))
                } else if is_low_surrogate(unit) {
                    Err(DecodeFailure::InvalidCodeUnit { unit })
                } else if at + 5 < line.len() && line[at + 5] == MARKER {
                    match code_unit_at(line, at + 5) {
                        None => Err(malformed_at(line, at + 5)),
                        Some(low) => {
                            if is_low_surrogate(low) {
                                preceded_by(
                                    seq![scalar_of_pair(unit, low)],
                                    decode_from(line, at + 10),
                                )
                            } else {
                                Err(DecodeFailure::InvalidCodeUnit { unit })
                            }
                        },
                    }
                } else {
                    Err(DecodeFailure::InvalidCodeUnit { unit })
                }
            },
        }
    }
}

#[via_fn]
proof fn decode_from_terminates(line: Seq<char>, at: int) {
    if 0 <= at < line.len() {
        lemma_escape_body_in_line(line, at);
        if at + 5 < line.len() {
            lemma_escape_body_in_line(line, at + 5);
        }
    }
}

/// The body of an escape lies inside the line, has the length that
/// `escape_body_len` gives, and holds no marker. One with four hexadecimal
/// digits is followed by position `at + 5`.
pub proof fn lemma_escape_body_in_line(line: Seq<char>, at: int)
    requires
        0 <= at < line.len(),
    ensures
        0 <= escape_body_len(line, at) <= 4,
        at + 1 + escape_body_len(line, at) <= line.len(),
        escape_body(line, at).len() == escape_body_len(line, at),
        forall|i: int|
            0 <= i < escape_body_len(line, at) ==> #[trigger] escape_body(line, at)[i] == line[at
                + 1 + i] && line[at + 1 + i] != MARKER,
        code_unit_at(line, at) is Some ==> at + 5 <= line.len() && escape_body_len(line, at) == 4,
{
}

/// What `line` decodes to: its plain text, or the failure of its first
/// item that cannot be decoded.
pub open spec fn decode_text(line: Seq<char>) -> Result<Seq<char>, DecodeFailure> {
    decode_from(line, 0)
}

/// Decodes `string`: characters other than the marker are copied, and
/// every escape is replaced by the character it writes.
///
/// Fails with `MalformedEscape` when a marker is not followed by four
/// hexadecimal digits, and with `InvalidCodeUnit` when an escape holds a
/// surrogate that is not part of a pair; the first such item of the line
/// decides. Nothing is dropped or replaced: the result is the whole text
/// or a failure.
pub fn decode_string(string: &str) -> (r: Result<String, DecodeError>)
    ensures
        match r {
            Ok(text) => decode_text(string@) == Ok::<Seq<char>, DecodeFailure>(text@),
            Err(e) => decode_text(string@) == Err::<Seq<char>, DecodeFailure>(e@),
        },
{
    let mut res = String::new();
    let mut state = State::Plain { pending: None };
    proof {
        assert(preceded_by(res@, decode_from(string@, 0)) == decode_from(string@, 0)) by {
            match decode_from(string@, 0) {
                Ok(text) => {
                    assert(res@ + text =~= text);
                },
                Err(_) => {},
            }
        }
    }
    for c in it: string.chars()
        invariant
            it.seq() == string@,
            tracks(state, string@, it.index() as int),
            decode_text(string@) == preceded_by(
                res@,
                decode_from(string@, state.item_start(it.index() as int)),
            ),
    {
        match step(state, c, &mut res, string, Ghost(it.index() as int)) {
            Ok(next) => {
                state = next;
            },
            Err(e) => {
                return Err(e);
            },
        }
    }
    finish(state, res, string)
}

} // verus!
