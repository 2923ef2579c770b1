//! UTF-16 code units of a Unicode scalar value, and the way back.

use vstd::prelude::*;
use crate::text::is_scalar_value;

verus! {

/// Whether `unit` is the first half of a surrogate pair.
pub open spec fn is_high_surrogate(unit: u16) -> bool {
    0xD800 <= unit <= 0xDBFF
}

/// Whether `unit` is the second half of a surrogate pair.
pub open spec fn is_low_surrogate(unit: u16) -> bool {
    0xDC00 <= unit <= 0xDFFF
}

/// Whether `unit` is either half of a surrogate pair.
pub open spec fn is_surrogate(unit: u16) -> bool {
    0xD800 <= unit <= 0xDFFF
}

/// Whether `c` lies in the Basic Multilingual Plane, that is, takes a single
/// UTF-16 code unit.
pub open spec fn is_bmp(c: char) -> bool {
    (c as u32) < 0x10000
}

/// The first code unit of the surrogate pair of a character beyond the
/// Basic Multilingual Plane.
pub open spec fn high_surrogate_of(c: char) -> u16 {
    (0xD800 + (c as int - 0x10000) / 0x400) as u16
}

/// The second code unit of the surrogate pair of a character beyond the
/// Basic Multilingual Plane.
pub open spec fn low_surrogate_of(c: char) -> u16 {
    (0xDC00 + (c as int - 0x10000) % 0x400) as u16
}

/// The UTF-16 encoding of `c`: one code unit in the Basic Multilingual
/// Plane, a surrogate pair beyond it.
pub open spec fn utf16_units(c: char) -> Seq<u16> {
    if is_bmp(c) {
        seq![c as u16]
    } else {
        seq![high_surrogate_of(c), low_surrogate_of(c)]
    }
}

/// The character that a single code unit stands for; meaningful when the
/// unit is not a surrogate.
pub open spec fn scalar_of_unit(unit: u16) -> char {
    unit as char
}

/// The character that a surrogate pair stands for.
pub open spec fn scalar_of_pair(high: u16, low: u16) -> char {
    (0x10000 + (high - 0xD800) * 0x400 + (low - 0xDC00)) as char
}

/// A character of the Basic Multilingual Plane is a single code unit that is
/// no surrogate, and that unit stands for the character.
pub proof fn lemma_bmp_round_trip(c: char)
    requires
        is_bmp(c),
    ensures
        !is_surrogate(c as u16),
        scalar_of_unit(c as u16) == c,
{
}

/// A character beyond the Basic Multilingual Plane splits into a high and a
/// low surrogate, and the pair stands for the character.
pub proof fn lemma_pair_round_trip(c: char)
    requires
        !is_bmp(c),
    ensures
        is_high_surrogate(high_surrogate_of(c)),
        is_low_surrogate(low_surrogate_of(c)),
        scalar_of_pair(high_surrogate_of(c), low_surrogate_of(c)) == c,
{
}

/// The UTF-16 code units of `c`: the first, and the second where `c` takes
/// a surrogate pair.
pub(crate) fn encode_utf16(c: char) -> (units: (u16, Option<u16>))
    ensures
        is_bmp(c) ==> units.0 == c as u16 && units.1 is None,
        !is_bmp(c) ==> units.0 == high_surrogate_of(c) && units.1 == Some(low_surrogate_of(c)),
{
    let code: u32 = c as u32;
    if code < 0x10000 {
        (code as u16, None)
    } else {
        let offset: u32 = code - 0x10000;
        let high: u32 = 0xD800 + offset / 0x400;
        let low: u32 = 0xDC00 + offset % 0x400;
        (high as u16, Some(low as u16))
    }
}

/// The character that the code unit `unit` stands for on its own.
pub(crate) fn decode_unit(unit: u16) -> (c: char)
    requires
        !is_surrogate(unit),
    ensures
        c == scalar_of_unit(unit),
{
    let r = char::from_u32(unit as u32);
    assert(is_scalar_value(unit as u32));
    r.unwrap()
}

/// The character that the surrogate pair `high`, `low` stands for.
pub(crate) fn decode_pair(high: u16, low: u16) -> (c: char)
    requires
        is_high_surrogate(high),
        is_low_surrogate(low),
    ensures
        c == scalar_of_pair(high, low),
{
    let code: u32 = 0x10000 + (high as u32 - 0xD800) * 0x400 + (low as u32 - 0xDC00);
    let r = char::from_u32(code);
    assert(is_scalar_value(code));
    r.unwrap()
}

} // verus!
