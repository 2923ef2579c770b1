//! Contracts for the two standard-library calls that the codec relies on and
//! that are taken on trust, and small verified helpers built on them.

use vstd::prelude::*;

verus! {

/// `String::push` appends one character to the end of the string and
/// changes nothing else. Taken on trust from the standard library's
/// documentation.
pub assume_specification[ String::push ](s: &mut String, ch: char)
    ensures
        final(s)@ == old(s)@.push(ch),
;

/// Whether `value` is a Unicode scalar value: a code point that is not a
/// surrogate.
pub open spec fn is_scalar_value(value: u32) -> bool {
    value < 0xD800 || 0xE000 <= value <= 0x10FFFF
}

/// `char::from_u32` gives the character with the given number when the
/// number is a Unicode scalar value, and `None` for every other number.
/// Taken on trust from the standard library's documentation.
pub assume_specification[ char::from_u32 ](i: u32) -> (r: Option<char>)
    ensures
        is_scalar_value(i) ==> r == Some(i as char),
        !is_scalar_value(i) ==> r is None,
;

} // verus!
