//! Encoding: plain text to escaped ASCII text.

use vstd::prelude::*;
use crate::hex::{hex_quad, upper_digit};
use crate::utf16::{encode_utf16, high_surrogate_of, is_bmp, low_surrogate_of};

verus! {

/// The marker that opens an escape.
pub const MARKER: char = '\u{1}';

/// Whether `c` is an ASCII character; these are copied through unchanged.
pub open spec fn is_ascii_char(c: char) -> bool {
    c <= '\u{7f}'
}

/// The escape of one code unit: the marker, then the unit's four upper-case
/// hexadecimal digits.
pub open spec fn escape(unit: u16) -> Seq<char> {
    seq![MARKER] + hex_quad(unit)
}

/// What one character becomes: itself if it is ASCII, else one escape for
/// each of its UTF-16 code units.
pub open spec fn encode_char(c: char) -> Seq<char> {
    if is_ascii_char(c) {
        seq![c]
    } else if is_bmp(c) {
        escape(c as u16)
    } else {
        escape(high_surrogate_of(c)) + escape(low_surrogate_of(c))
    }
}

/// What a text becomes: the encodings of its characters, in order.
pub open spec fn encode_text(text: Seq<char>) -> Seq<char>
    decreases text.len(),
{
    if text.len() == 0 {
        Seq::empty()
    } else {
        encode_char(text[0]) + encode_text(text.drop_first())
    }
}

/// The reason an encoding failed. Every text can be encoded, so no function
/// of this library returns one; the type keeps the signature of encoding in
/// line with that of decoding.
#[derive(Debug, Clone, Copy, PartialEq, Eq)]
pub enum EncodeError {
    /// The text has no encoded form.
    Unencodable,
}

/// Encoding distributes over concatenation.
pub proof fn lemma_encode_text_concat(a: Seq<char>, b: Seq<char>)
    ensures
        encode_text(a + b) == encode_text(a) + encode_text(b),
    decreases a.len(),
{
    if a.len() == 0 {
        assert(a + b =~= b);
        assert(encode_text(a) + encode_text(b) =~= encode_text(b));
    } else {
        lemma_encode_text_concat(a.drop_first(), b);
        assert((a + b).drop_first() =~= a.drop_first() + b);
        assert((a + b)[0] == a[0]);
        assert(encode_text(a + b) =~= encode_text(a) + encode_text(b));
    }
}

/// Encoding one more character appends that character's encoding.
pub proof fn lemma_encode_text_push(text: Seq<char>, c: char)
    ensures
        encode_text(text.push(c)) == encode_text(text) + encode_char(c),
{
    lemma_encode_text_concat(text, seq![c]);
    assert(text.push(c) =~= text + seq![c]);
    assert(seq![c].drop_first() =~= Seq::<char>::empty());
    assert(encode_text(Seq::<char>::empty()) =~= Seq::<char>::empty());
    assert(encode_text(seq![c]) =~= encode_char(c));
}

/// Encoding the first `k + 1` characters appends the encoding of the
/// character at `k` to the encoding of the first `k`.
pub proof fn lemma_encode_text_take(text: Seq<char>, k: int)
    requires
        0 <= k < text.len(),
    ensures
        encode_text(text.take(k + 1)) == encode_text(text.take(k)) + encode_char(text[k]),
{
    lemma_encode_text_push(text.take(k), text[k]);
    assert(text.take(k + 1) =~= text.take(k).push(text[k]));
}

/// Appends the escape of `unit` to `out`.
pub(crate) fn push_escape(out: &mut String, unit: u16)
    ensures
        final(out)@ == old(out)@ + escape(unit),
{
    out.push(MARKER);
    out.push(upper_digit((unit / 0x1000) as u8));
    out.push(upper_digit((unit / 0x100 % 0x10) as u8));
    out.push(upper_digit((unit / 0x10 % 0x10) as u8));
    out.push(upper_digit((unit % 0x10) as u8));
    assert(out@ =~= old(out)@ + escape(unit));
}

/// Appends the encoding of `c` to `out`.
pub(crate) fn push_encoded(out: &mut String, c: char)
    ensures
        final(out)@ == old(out)@ + encode_char(c),
{
    if c as u32 <= 0x7f {
        out.push(c);
        assert(out@ =~= old(out)@ + seq![c]);
    } else {
        let units = encode_utf16(c);
        push_escape(out, units.0);
        match units.1 {
            Some(low) => {
                push_escape(out, low);
                assert(out@ =~= old(out)@ + (escape(high_surrogate_of(c)) + escape(
                    low_surrogate_of(c),
                )));
            },
            None => {},
        }
    }
}

/// Encodes `string`: ASCII characters are copied, every other character is
/// written as the escapes of its UTF-16 code units. Never fails.
///
/// A marker that stands in `string` is ASCII and is copied like any other
/// ASCII character.
pub fn encode_string(string: &str) -> (r: Result<String, EncodeError>)
    ensures
        r matches Ok(encoded) && encoded@ == encode_text(string@),
{
    let mut res = String::new();
    proof {
        assert(string@.take(0) =~= Seq::<char>::empty());
    }
    for c in it: string.chars()
        invariant
            it.seq() == string@,
            res@ == encode_text(string@.take(it.index() as int)),
    {
        proof {
            lemma_encode_text_take(string@, it.index() as int);
        }
        push_encoded(&mut res, c);
    }
    proof {
        assert(string@.take(string@.len() as int) =~= string@);
    }
    Ok(res)
}

} // verus!
