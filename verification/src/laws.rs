//! What holds of encoding and decoding together.

use vstd::prelude::*;
use crate::decode::{
    code_unit_at,
    decode_from,
    decode_text,
    escape_body,
    escape_body_len,
    DecodeFailure,
};
use crate::encode::{
    encode_char,
    encode_text,
    escape,
    is_ascii_char,
    lemma_encode_text_concat,
    MARKER,
};
use crate::hex::{hex_quad, is_upper_hex_digit, lemma_hex_quad_round_trip};
use crate::utf16::{
    high_surrogate_of,
    is_bmp,
    lemma_bmp_round_trip,
    lemma_pair_round_trip,
    low_surrogate_of,
};

verus! {

/// No character of `text` is the marker.
pub open spec fn is_marker_free(text: Seq<char>) -> bool {
    forall|i: int| 0 <= i < text.len() ==> #[trigger] text[i] != MARKER
}

/// Every character of `text` is ASCII.
pub open spec fn is_ascii_text(text: Seq<char>) -> bool {
    forall|i: int| 0 <= i < text.len() ==> is_ascii_char(#[trigger] text[i])
}

/// Every character of `text` lies in the Basic Multilingual Plane.
pub open spec fn is_bmp_text(text: Seq<char>) -> bool {
    forall|i: int| 0 <= i < text.len() ==> is_bmp(#[trigger] text[i])
}

/// An escape in upper case stands at `at`: the marker, then four
/// hexadecimal digits, none of them a lower-case letter.
pub open spec fn is_upper_escape_at(line: Seq<char>, at: int) -> bool {
    &&& 0 <= at
    &&& at + 4 < line.len()
    &&& line[at] == MARKER
    &&& is_upper_hex_digit(line[at + 1])
    &&& is_upper_hex_digit(line[at + 2])
    &&& is_upper_hex_digit(line[at + 3])
    &&& is_upper_hex_digit(line[at + 4])
}

/// The escape of a code unit is five characters: the marker, then four
/// upper-case hexadecimal digits, which are ASCII and no markers.
pub proof fn lemma_escape_shape(unit: u16)
    ensures
        escape(unit).len() == 5,
        escape(unit)[0] == MARKER,
        forall|i: int| 0 <= i < 4 ==> #[trigger] escape(unit)[i + 1] == hex_quad(unit)[i],
        is_upper_escape_at(escape(unit), 0),
        is_ascii_text(escape(unit)),
        forall|i: int| 1 <= i < 5 ==> #[trigger] escape(unit)[i] != MARKER,
{
    lemma_hex_quad_round_trip(unit);
    let e = escape(unit);
    let q = hex_quad(unit);
    assert(e.len() == 5);
    assert(e[0] == MARKER);
    assert forall|i: int| 0 <= i < 4 implies #[trigger] e[i + 1] == q[i] by {}
    assert(is_upper_hex_digit(q[0]) && is_upper_hex_digit(q[1]) && is_upper_hex_digit(q[2])
        && is_upper_hex_digit(q[3]));
    assert(e[1] == q[0] && e[2] == q[1] && e[3] == q[2] && e[4] == q[3]);
    assert forall|i: int| 0 <= i < e.len() implies is_ascii_char(#[trigger] e[i]) by {
        if i > 0 {
            assert(e[i] == q[i - 1]);
            assert(is_upper_hex_digit(q[i - 1]));
        }
    }
    assert forall|i: int| 1 <= i < 5 implies #[trigger] e[i] != MARKER by {
        assert(e[i] == q[i - 1]);
        assert(is_upper_hex_digit(q[i - 1]));
    }
}

/// Where the escape of `unit` stands in a line, the line's code unit there
/// is `unit`.
pub proof fn lemma_code_unit_at_escape(line: Seq<char>, at: int, unit: u16)
    requires
        0 <= at,
        at + 5 <= line.len(),
        line.subrange(at, at + 5) == escape(unit),
    ensures
        line[at] == MARKER,
        code_unit_at(line, at) == Some(unit),
{
    lemma_escape_shape(unit);
    lemma_hex_quad_round_trip(unit);
    let e = escape(unit);
    assert forall|i: int| 0 <= i < 5 implies line[at + i] == #[trigger] e[i] by {
        assert(line.subrange(at, at + 5)[i] == line[at + i]);
    }
    assert(line[at] == e[0]);
    assert(line[at + 1] == e[1] && line[at + 2] == e[2] && line[at + 3] == e[3] && line[at + 4]
        == e[4]);
    assert(escape_body_len(line, at) == 4);
    assert(escape_body(line, at) =~= hex_quad(unit)) by {
        assert forall|i: int| 0 <= i < 4 implies #[trigger] escape_body(line, at)[i] == hex_quad(
            unit,
        )[i] by {
            assert(e[i + 1] == hex_quad(unit)[i]);
        }
    }
}

/// Decoding undoes encoding, from any item start of a line on: where the
/// rest of `line` from `at` is the encoding of a text without markers,
/// it decodes to that text.
pub proof fn lemma_decode_encoded_rest(line: Seq<char>, at: int, text: Seq<char>)
    requires
        0 <= at <= line.len(),
        line.subrange(at, line.len() as int) == encode_text(text),
        is_marker_free(text),
    ensures
        decode_from(line, at) == Ok::<Seq<char>, DecodeFailure>(text),
    decreases text.len(),
{
    let rest_of_line = line.subrange(at, line.len() as int);
    if text.len() == 0 {
        assert(rest_of_line.len() == 0);
        assert(text =~= Seq::<char>::empty());
    } else {
        let c = text[0];
        let rest = text.drop_first();
        let head = encode_char(c);
        let tail = encode_text(rest);
        assert(c != MARKER);
        assert(rest_of_line == head + tail);
        assert(is_marker_free(rest)) by {
            assert forall|i: int| 0 <= i < rest.len() implies #[trigger] rest[i] != MARKER by {
                assert(rest[i] == text[i + 1]);
            }
        }
        assert(text =~= seq![c] + rest);
        if is_ascii_char(c) {
            assert(head.len() == 1);
        } else if is_bmp(c) {
            lemma_escape_shape(c as u16);
        } else {
            lemma_escape_shape(high_surrogate_of(c));
            lemma_escape_shape(low_surrogate_of(c));
        }
        let n = head.len() as int;
        assert(rest_of_line.len() == n + tail.len());
        assert(at + n <= line.len());
        assert(line.subrange(at + n, line.len() as int) =~= tail) by {
            assert forall|i: int| 0 <= i < tail.len() implies #[trigger] line.subrange(
                at + n,
                line.len() as int,
            )[i] == tail[i] by {
                assert(rest_of_line[n + i] == (head + tail)[n + i]);
            }
        }
        lemma_decode_encoded_rest(line, at + n, rest);
        assert(line[at] == head[0]) by {
            assert(rest_of_line[0] == (head + tail)[0]);
        }
        if is_ascii_char(c) {
            assert(line[at] == c);
        } else if is_bmp(c) {
            assert(line.subrange(at, at + 5) =~= escape(c as u16)) by {
                assert forall|i: int| 0 <= i < 5 implies #[trigger] line.subrange(at, at + 5)[i]
                    == escape(c as u16)[i] by {
                    assert(rest_of_line[i] == (head + tail)[i]);
                }
            }
            lemma_code_unit_at_escape(line, at, c as u16);
            lemma_bmp_round_trip(c);
        } else {
            let high = high_surrogate_of(c);
            let low = low_surrogate_of(c);
            assert(line.subrange(at, at + 5) =~= escape(high)) by {
                assert forall|i: int| 0 <= i < 5 implies #[trigger] line.subrange(at, at + 5)[i]
                    == escape(high)[i] by {
                    assert(rest_of_line[i] == (head + tail)[i]);
                }
            }
            assert(line.subrange(at + 5, at + 10) =~= escape(low)) by {
                assert forall|i: int| 0 <= i < 5 implies #[trigger] line.subrange(
                    at + 5,
                    at + 10,
                )[i] == escape(low)[i] by {
                    assert(rest_of_line[5 + i] == (head + tail)[5 + i]);
                }
            }
            lemma_code_unit_at_escape(line, at, high);
            lemma_code_unit_at_escape(line, at + 5, low);
            lemma_pair_round_trip(c);
        }
    }
}

/// Round trip: a text without markers, encoded and then decoded, comes
/// back unchanged, whatever planes its characters lie in.
pub proof fn lemma_round_trip(text: Seq<char>)
    requires
        is_marker_free(text),
    ensures
        decode_text(encode_text(text)) == Ok::<Seq<char>, DecodeFailure>(text),
{
    let line = encode_text(text);
    assert(line.subrange(0, line.len() as int) =~= line);
    lemma_decode_encoded_rest(line, 0, text);
}

/// Round trip in the Basic Multilingual Plane: a text of such characters
/// without markers, encoded and then decoded, comes back unchanged.
pub proof fn lemma_round_trip_bmp(text: Seq<char>)
    requires
        is_bmp_text(text),
        is_marker_free(text),
    ensures
        decode_text(encode_text(text)) == Ok::<Seq<char>, DecodeFailure>(text),
{
    lemma_round_trip(text);
}

/// Decoding and encoding again keeps the meaning: where a line decodes to
/// a text without markers, the encoding of that text decodes to the same
/// text, however the line itself wrote it.
pub proof fn lemma_reencoded_decodes_alike(line: Seq<char>, text: Seq<char>)
    requires
        decode_text(line) == Ok::<Seq<char>, DecodeFailure>(text),
        is_marker_free(text),
    ensures
        decode_text(encode_text(text)) == decode_text(line),
{
    lemma_round_trip(text);
}

/// ASCII passes through: encoding a text of ASCII characters gives the
/// same text.
pub proof fn lemma_encode_ascii(text: Seq<char>)
    requires
        is_ascii_text(text),
    ensures
        encode_text(text) == text,
    decreases text.len(),
{
    if text.len() == 0 {
        assert(text =~= Seq::<char>::empty());
    } else {
        let rest = text.drop_first();
        assert(is_ascii_text(rest)) by {
            assert forall|i: int| 0 <= i < rest.len() implies is_ascii_char(#[trigger] rest[i]) by {
                assert(rest[i] == text[i + 1]);
            }
        }
        lemma_encode_ascii(rest);
        assert(is_ascii_char(text[0]));
        assert(seq![text[0]] + rest =~= text);
    }
}

/// Encoded text is ASCII.
pub proof fn lemma_encoded_is_ascii(text: Seq<char>)
    ensures
        is_ascii_text(encode_text(text)),
    decreases text.len(),
{
    if text.len() > 0 {
        let c = text[0];
        let head = encode_char(c);
        let tail = encode_text(text.drop_first());
        lemma_encoded_is_ascii(text.drop_first());
        if is_ascii_char(c) {
        } else if is_bmp(c) {
            lemma_escape_shape(c as u16);
        } else {
            lemma_escape_shape(high_surrogate_of(c));
            lemma_escape_shape(low_surrogate_of(c));
        }
        assert(is_ascii_text(head));
        assert forall|i: int| 0 <= i < (head + tail).len() implies is_ascii_char(
            #[trigger] (head + tail)[i],
        ) by {
            if i < head.len() {
                assert((head + tail)[i] == head[i]);
            } else {
                assert((head + tail)[i] == tail[i - head.len()]);
            }
        }
    }
}

/// Encoding is idempotent: encoding text that is already encoded, and so
/// holds no character beyond ASCII, gives it back unchanged.
pub proof fn lemma_encode_idempotent(text: Seq<char>)
    ensures
        encode_text(encode_text(text)) == encode_text(text),
{
    lemma_encoded_is_ascii(text);
    lemma_encode_ascii(encode_text(text));
}

/// Escape width: for each character of `text` that is not ASCII, the
/// encoding holds, where that character's turn comes, an escape with
/// exactly four upper-case hexadecimal digits, and a second one right
/// behind it when the character lies beyond the Basic Multilingual Plane.
pub proof fn lemma_escape_width(text: Seq<char>, index: int)
    requires
        0 <= index < text.len(),
        !is_ascii_char(text[index]),
    ensures
        is_upper_escape_at(encode_text(text), encode_text(text.take(index)).len() as int),
        !is_bmp(text[index]) ==> is_upper_escape_at(
            encode_text(text),
            encode_text(text.take(index)).len() as int + 5,
        ),
{
    let c = text[index];
    let before = text.take(index);
    let after = text.skip(index + 1);
    assert(text =~= before + (seq![c] + after));
    lemma_encode_text_concat(before, seq![c] + after);
    lemma_encode_text_concat(seq![c], after);
    assert(encode_text(seq![c]) =~= encode_char(c)) by {
        assert(seq![c].drop_first() =~= Seq::<char>::empty());
        assert(encode_text(Seq::<char>::empty()) =~= Seq::<char>::empty());
    }
    let head = encode_text(before);
    let mid = encode_char(c);
    let tail = encode_text(after);
    let line = encode_text(text);
    assert(line == head + (mid + tail));
    let off = head.len() as int;
    if is_bmp(c) {
        lemma_escape_shape(c as u16);
        assert forall|i: int| 0 <= i < 5 implies line[off + i] == #[trigger] mid[i] by {}
        assert(line[off] == mid[0]);
        assert(line[off + 1] == mid[1] && line[off + 2] == mid[2] && line[off + 3] == mid[3]
            && line[off + 4] == mid[4]);
    } else {
        let high = escape(high_surrogate_of(c));
        let low = escape(low_surrogate_of(c));
        lemma_escape_shape(high_surrogate_of(c));
        lemma_escape_shape(low_surrogate_of(c));
        assert forall|i: int| 0 <= i < 5 implies line[off + i] == #[trigger] high[i] by {
            assert(mid[i] == high[i]);
        }
        assert forall|i: int| 0 <= i < 5 implies line[off + 5 + i] == #[trigger] low[i] by {
            assert(mid[5 + i] == low[i]);
        }
        assert(line[off] == high[0]);
        assert(line[off + 1] == high[1] && line[off + 2] == high[2] && line[off + 3] == high[3]
            && line[off + 4] == high[4]);
        assert(line[off + 5] == low[0]);
        assert(line[off + 5 + 1] == low[1] && line[off + 5 + 2] == low[2] && line[off + 5 + 3]
            == low[3] && line[off + 5 + 4] == low[4]);
    }
}

} // verus!
