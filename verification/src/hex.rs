//! Hexadecimal digits and the four-digit form of a UTF-16 code unit.

use vstd::prelude::*;

verus! {

/// Whether `c` is one of `0-9`, `a-f`, `A-F`.
pub open spec fn is_hex_digit(c: char) -> bool {
    ('0' <= c <= '9') || ('a' <= c <= 'f') || ('A' <= c <= 'F')
}

/// Whether `c` is one of `0-9`, `A-F`.
pub open spec fn is_upper_hex_digit(c: char) -> bool {
    ('0' <= c <= '9') || ('A' <= c <= 'F')
}

/// The number that the hexadecimal digit `c` stands for; 0 for any other character.
pub open spec fn hex_digit_value(c: char) -> nat {
    if '0' <= c <= '9' {
        (c as int - '0' as int) as nat
    } else if 'a' <= c <= 'f' {
        (c as int - 'a' as int + 10) as nat
    } else if 'A' <= c <= 'F' {
        (c as int - 'A' as int + 10) as nat
    } else {
        0
    }
}

/// The upper-case digit that writes `n`, for `n < 16`.
pub open spec fn upper_hex_digit(n: nat) -> char {
    if n < 10 {
        ('0' as int + n) as char
    } else {
        ('A' as int + n - 10) as char
    }
}

/// Whether `digits` is exactly four hexadecimal digits.
pub open spec fn is_hex_quad(digits: Seq<char>) -> bool {
    &&& digits.len() == 4
    &&& is_hex_digit(digits[0])
    &&& is_hex_digit(digits[1])
    &&& is_hex_digit(digits[2])
    &&& is_hex_digit(digits[3])
}

/// The number that four hexadecimal digits write, most significant digit first.
pub open spec fn hex_quad_value(digits: Seq<char>) -> nat {
    0x1000 * hex_digit_value(digits[0]) + 0x100 * hex_digit_value(digits[1]) + 0x10
        * hex_digit_value(digits[2]) + hex_digit_value(digits[3])
}

/// The four upper-case hexadecimal digits of `unit`, padded with zeros.
pub open spec fn hex_quad(unit: u16) -> Seq<char> {
    seq![
        upper_hex_digit((unit / 0x1000) as nat),
        upper_hex_digit((unit / 0x100 % 0x10) as nat),
        upper_hex_digit((unit / 0x10 % 0x10) as nat),
        upper_hex_digit((unit % 0x10) as nat),
    ]
}

/// An upper-case digit is a hexadecimal digit, and it stands for the number it was made from.
pub proof fn lemma_upper_hex_digit(n: nat)
    requires
        n < 16,
    ensures
        is_upper_hex_digit(upper_hex_digit(n)),
        is_hex_digit(upper_hex_digit(n)),
        hex_digit_value(upper_hex_digit(n)) == n,
{
}

/// Four hexadecimal digits write a number that fits a code unit.
pub proof fn lemma_hex_quad_value_fits(digits: Seq<char>)
    requires
        is_hex_quad(digits),
    ensures
        hex_quad_value(digits) <= 0xFFFF,
{
}

/// A code unit is the sum of its four base-16 digits, each with its weight.
proof fn lemma_base16_digits(unit: u16)
    ensures
        unit / 0x1000 < 16,
        unit / 0x100 % 0x10 < 16,
        unit / 0x10 % 0x10 < 16,
        unit % 0x10 < 16,
        0x1000 * (unit / 0x1000) + 0x100 * (unit / 0x100 % 0x10) + 0x10 * (unit / 0x10 % 0x10) + unit
            % 0x10 == unit,
{
    assert(unit / 0x1000 < 16) by (bit_vector);
    assert(unit / 0x100 % 0x10 < 16) by (bit_vector);
    assert(unit / 0x10 % 0x10 < 16) by (bit_vector);
    assert(unit % 0x10 < 16) by (bit_vector);
    assert(0x1000 * (unit / 0x1000) + 0x100 * (unit / 0x100 % 0x10) + 0x10 * (unit / 0x10 % 0x10)
        + unit % 0x10 == unit) by (bit_vector);
}

/// Reading back the four digits of a code unit gives the code unit.
pub proof fn lemma_hex_quad_round_trip(unit: u16)
    ensures
        is_hex_quad(hex_quad(unit)),
        hex_quad_value(hex_quad(unit)) == unit,
        forall|i: int| 0 <= i < 4 ==> is_upper_hex_digit(#[trigger] hex_quad(unit)[i]),
{
    lemma_base16_digits(unit);
    let d0 = (unit / 0x1000) as nat;
    let d1 = (unit / 0x100 % 0x10) as nat;
    let d2 = (unit / 0x10 % 0x10) as nat;
    let d3 = (unit % 0x10) as nat;
    lemma_upper_hex_digit(d0);
    lemma_upper_hex_digit(d1);
    lemma_upper_hex_digit(d2);
    lemma_upper_hex_digit(d3);
    let q = hex_quad(unit);
    assert(q.len() == 4);
    assert(q[0] == upper_hex_digit(d0));
    assert(q[1] == upper_hex_digit(d1));
    assert(q[2] == upper_hex_digit(d2));
    assert(q[3] == upper_hex_digit(d3));
}

/// The value of a hexadecimal digit, or `None` for any other character.
pub(crate) fn digit_value(c: char) -> (r: Option<u8>)
    ensures
        is_hex_digit(c) ==> r == Some(hex_digit_value(c) as u8),
        !is_hex_digit(c) ==> r is None,
{
    let code: u32 = c as u32;
    if 0x30 <= code && code <= 0x39 {
        Some((code - 0x30) as u8)
    } else if 0x61 <= code && code <= 0x66 {
        Some((code - 0x61 + 10) as u8)
    } else if 0x41 <= code && code <= 0x46 {
        Some((code - 0x41 + 10) as u8)
    } else {
        None
    }
}

/// The upper-case hexadecimal digit that writes `n`.
pub(crate) fn upper_digit(n: u8) -> (r: char)
    requires
        n < 16,
    ensures
        r == upper_hex_digit(n as nat),
{
    if n < 10 {
        (0x30u8 + n) as char
    } else {
        (0x41u8 + (n - 10)) as char
    }
}

/// Reads four characters as a base-16 code unit; `None` unless all four are
/// hexadecimal digits.
pub(crate) fn parse_hex_quad(digits: &str) -> (r: Option<u16>)
    requires
        digits@.len() == 4,
    ensures
        is_hex_quad(digits@) ==> r == Some(hex_quad_value(digits@) as u16),
        !is_hex_quad(digits@) ==> r is None,
{
    let mut value: u16 = 0;
    for c in it: digits.chars()
        invariant
            it.seq() == digits@,
            digits@.len() == 4,
            forall|i: int| 0 <= i < it.index() ==> is_hex_digit(#[trigger] digits@[i]),
            it.index() == 0 ==> value == 0,
            it.index() == 1 ==> value == hex_digit_value(digits@[0]),
            it.index() == 2 ==> value == 0x10 * hex_digit_value(digits@[0]) + hex_digit_value(
                digits@[1],
            ),
            it.index() == 3 ==> value == 0x100 * hex_digit_value(digits@[0]) + 0x10
                * hex_digit_value(digits@[1]) + hex_digit_value(digits@[2]),
            it.index() == 4 ==> value == hex_quad_value(digits@),
    {
        match digit_value(c) {
            Some(d) => {
                value = value * 16 + d as u16;
            },
            None => {
                return None;
            },
        }
    }
    Some(value)
}

} // verus!
