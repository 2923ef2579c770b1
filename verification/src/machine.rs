//! The decoder's state machine.
//!
//! The machine sees a line one character at a time. It is either copying
//! plain characters or collecting the four digits of an escape, and in both
//! states it may hold a high surrogate that waits for its low half.
//! [`tracks`] ties a state to the part of the line read so far, and the
//! contracts of [`step`] and [`finish`] tie every move to [`decode_from`].

use vstd::prelude::*;
use crate::decode::{
    code_unit_at,
    decode_from,
    escape_body,
    lemma_escape_body_in_line,
    preceded_by,
    DecodeError,
    DecodeFailure,
};
use crate::encode::MARKER;
use crate::hex::{is_hex_quad, lemma_hex_quad_value_fits, parse_hex_quad};
use crate::utf16::{
    decode_pair,
    decode_unit,
    is_high_surrogate,
    is_low_surrogate,
    is_surrogate,
    scalar_of_pair,
    scalar_of_unit,
};

verus! {

/// What the decoder is doing between two characters.
pub(crate) enum State {
    /// Copying characters through.
    Plain {
        /// A high surrogate that the last escape wrote and that waits for
        /// the escape of its low half.
        pending: Option<u16>,
    },
    /// Collecting the digits of an escape whose marker has been read.
    ReadingHex {
        /// As in `Plain`; the escape being read is the one awaited.
        pending: Option<u16>,
        /// The characters read since the marker.
        buffer: String,
        /// How many they are; fewer than four.
        count: usize,
    },
}

impl State {
    /// The high surrogate that waits for its low half, if any.
    pub(crate) open spec fn pending(self) -> Option<u16> {
        match self {
            State::Plain { pending } => pending,
            State::ReadingHex { pending, .. } => pending,
        }
    }

    /// How many characters the machine has read of the escape it is in: the
    /// marker and the digits so far.
    pub(crate) open spec fn escape_progress(self) -> int {
        match self {
            State::Plain { .. } => 0int,
            State::ReadingHex { buffer, .. } => 1 + buffer@.len() as int,
        }
    }

    /// Where the item began that the machine is in the middle of, `read`
    /// characters of the line having been read. A finished escape of a high
    /// surrogate belongs to the item of the pair.
    pub(crate) open spec fn item_start(self, read: int) -> int {
        read - self.escape_progress() - (if self.pending() is Some {
            5int
        } else {
            0int
        })
    }
}

/// Whether `state` is what reading the first `read` characters of `line`
/// leaves the machine in, all items before `state.item_start(read)` having
/// been decoded.
pub(crate) open spec fn tracks(state: State, line: Seq<char>, read: int) -> bool {
    let start = state.item_start(read);
    &&& 0 <= start <= read <= line.len()
    &&& state.pending() matches Some(high) ==> {
        &&& is_high_surrogate(high)
        &&& line[start] == MARKER
        &&& code_unit_at(line, start) == Some(high)
    }
    &&& state matches State::ReadingHex { buffer, count, .. } ==> {
        let marker = read - 1 - buffer@.len();
        &&& count == buffer@.len()
        &&& count < 4
        &&& line[marker] == MARKER
        &&& buffer@ == line.subrange(marker + 1, read)
        &&& forall|i: int| marker < i < read ==> line[i] != MARKER
    }
}

/// Putting a character before a result and `head` before that is putting
/// `head` with the character pushed on it before the result.
pub(crate) proof fn lemma_preceded_by_pushed(
    head: Seq<char>,
    c: char,
    rest: Result<Seq<char>, DecodeFailure>,
)
    ensures
        preceded_by(head, preceded_by(seq![c], rest)) == preceded_by(head.push(c), rest),
{
    match rest {
        Ok(text) => {
            assert(head + (seq![c] + text) =~= head.push(c) + text);
        },
        Err(_) => {},
    }
}

/// The failure that an escape gives which stopped after `buffer`.
fn malformed(buffer: String, line: &str) -> (e: DecodeError)
    ensures
        e@ == (DecodeFailure::MalformedEscape { fragment: buffer@, line: line@ }),
{
    DecodeError::MalformedEscape { fragment: buffer, line: line.to_owned() }
}

/// Takes in the code unit `unit` that a complete escape wrote, `pending`
/// being the high surrogate that waits for its low half, if any. A unit
/// that completes a character has that character appended to `out`.
fn accept_unit(pending: Option<u16>, unit: u16, out: &mut String) -> (r: Result<
    State,
    DecodeError,
>)
    requires
        pending matches Some(high) ==> is_high_surrogate(high),
    ensures
        match pending {
            None => {
                if !is_surrogate(unit) {
                    &&& r matches Ok(State::Plain { pending: None })
                    &&& final(out)@ == old(out)@.push(scalar_of_unit(unit))
                } else if is_low_surrogate(unit) {
                    r matches Err(DecodeError::InvalidCodeUnit { unit: lone }) && lone == unit
                } else {
                    &&& r matches Ok(State::Plain { pending: Some(high) })
                    &&& high == unit
                    &&& final(out)@ == old(out)@
                }
            },
            Some(high) => {
                if is_low_surrogate(unit) {
                    &&& r matches Ok(State::Plain { pending: None })
                    &&& final(out)@ == old(out)@.push(scalar_of_pair(high, unit))
                } else {
                    r matches Err(DecodeError::InvalidCodeUnit { unit: lone }) && lone == high
                }
            },
        },
{
    match pending {
        None => {
            if unit < 0xD800 || unit > 0xDFFF {
                out.push(decode_unit(unit));
                Ok(State::Plain { pending: None })
            } else if unit >= 0xDC00 {
                Err(DecodeError::InvalidCodeUnit { unit })
            } else {
                Ok(State::Plain { pending: Some(unit) })
            }
        },
        Some(high) => {
            if 0xDC00 <= unit && unit <= 0xDFFF {
                out.push(decode_pair(high, unit));
                Ok(State::Plain { pending: None })
            } else {
                Err(DecodeError::InvalidCodeUnit { unit: high })
            }
        },
    }
}

/// Takes the machine from `state` over the character `c`, which stands at
/// position `read` of `line`. A character that completes an item is
/// appended to `out`.
///
/// On success the new state tracks one character more, and what is decoded
/// so far, followed by what remains, is what it was before. On failure the
/// item that the machine was in cannot be decoded, for the reason returned.
pub(crate) fn step(
    state: State,
    c: char,
    out: &mut String,
    line: &str,
    Ghost(read): Ghost<int>,
) -> (r: Result<State, DecodeError>)
    requires
        tracks(state, line@, read),
        read < line@.len(),
        c == line@[read],
    ensures
        match r {
            Ok(next) => {
                &&& tracks(next, line@, read + 1)
                &&& preceded_by(final(out)@, decode_from(line@, next.item_start(read + 1)))
                    == preceded_by(old(out)@, decode_from(line@, state.item_start(read)))
            },
            Err(e) => decode_from(line@, state.item_start(read)) == Err::<
                Seq<char>,
                DecodeFailure,
            >(e@),
        },
{
    let ghost start = state.item_start(read);
    proof {
        lemma_escape_body_in_line(line@, start);
        if start + 5 < line@.len() {
            lemma_escape_body_in_line(line@, start + 5);
        }
    }
    match state {
        State::Plain { pending } => {
            if c == MARKER {
                proof {
                    assert(line@.subrange(read + 1, read + 1) =~= Seq::<char>::empty());
                }
                Ok(State::ReadingHex { pending, buffer: String::new(), count: 0 })
            } else {
                match pending {
                    Some(high) => Err(DecodeError::InvalidCodeUnit { unit: high }),
                    None => {
                        out.push(c);
                        proof {
                            lemma_preceded_by_pushed(old(out)@, c, decode_from(line@, read + 1));
                        }
                        Ok(State::Plain { pending: None })
                    },
                }
            }
        },
        State::ReadingHex { pending, buffer, count } => {
            let ghost marker = read - 1 - buffer@.len();
            if c == MARKER {
                proof {
                    assert(escape_body(line@, marker) =~= buffer@);
                }
                Err(malformed(buffer, line))
            } else {
                let mut buffer = buffer;
                buffer.push(c);
                proof {
                    assert(buffer@ =~= line@.subrange(marker + 1, read + 1));
                }
                if count + 1 < 4 {
                    Ok(State::ReadingHex { pending, buffer, count: count + 1 })
                } else {
                    proof {
                        assert(escape_body(line@, marker) =~= buffer@);
                        if is_hex_quad(buffer@) {
                            lemma_hex_quad_value_fits(buffer@);
                        }
                    }
                    match parse_hex_quad(buffer.as_str()) {
                        None => Err(malformed(buffer, line)),
                        Some(unit) => {
                            proof {
                                lemma_preceded_by_pushed(
                                    old(out)@,
                                    scalar_of_unit(unit),
                                    decode_from(line@, read + 1),
                                );
                                if let Some(high) = pending {
                                    lemma_preceded_by_pushed(
                                        old(out)@,
                                        scalar_of_pair(high, unit),
                                        decode_from(line@, read + 1),
                                    );
                                }
                            }
                            accept_unit(pending, unit, out)
                        },
                    }
                }
            }
        },
    }
}

/// Ends the decoding when the line has been read to its end: the text in
/// `out`, unless the line stopped inside an item.
pub(crate) fn finish(state: State, out: String, line: &str) -> (r: Result<String, DecodeError>)
    requires
        tracks(state, line@, line@.len() as int),
    ensures
        match r {
            Ok(text) => preceded_by(
                out@,
                decode_from(line@, state.item_start(line@.len() as int)),
            ) == Ok::<Seq<char>, DecodeFailure>(text@),
            Err(e) => decode_from(line@, state.item_start(line@.len() as int)) == Err::<
                Seq<char>,
                DecodeFailure,
            >(e@),
        },
{
    let ghost read = line@.len() as int;
    let ghost start = state.item_start(read);
    proof {
        if start < read {
            lemma_escape_body_in_line(line@, start);
            if start + 5 < line@.len() {
                lemma_escape_body_in_line(line@, start + 5);
            }
        }
    }
    match state {
        State::Plain { pending: None } => {
            proof {
                assert(out@ + Seq::<char>::empty() =~= out@);
            }
            Ok(out)
        },
        State::Plain { pending: Some(high) } => Err(DecodeError::InvalidCodeUnit { unit: high }),
        State::ReadingHex { pending, buffer, count } => {
            proof {
                assert(escape_body(line@, read - 1 - buffer@.len()) =~= buffer@);
            }
            Err(malformed(buffer, line))
        },
    }
}

} // verus!
