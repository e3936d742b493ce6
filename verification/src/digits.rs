//! The hexadecimal alphabet of the stream, over ASCII bytes.

use vstd::prelude::*;

verus! {

/// ASCII `0`.
pub const DIGIT_0: u8 = 0x30;

/// ASCII `9`.
pub const DIGIT_9: u8 = 0x39;

/// ASCII `A`.
pub const UPPER_A: u8 = 0x41;

/// ASCII `F`.
pub const UPPER_F: u8 = 0x46;

/// ASCII `a`.
pub const LOWER_A: u8 = 0x61;

/// ASCII `f`.
pub const LOWER_F: u8 = 0x66;

/// The lower-case ASCII digit that stands for the nibble `nibble` (0 to 15).
pub open spec fn digit_of(nibble: int) -> u8 {
    if nibble < 10 {
        (DIGIT_0 + nibble) as u8
    } else {
        (LOWER_A + nibble - 10) as u8
    }
}

/// Whether `c` is an ASCII hexadecimal digit, of either case.
pub open spec fn is_hex_digit(c: u8) -> bool {
    (DIGIT_0 <= c <= DIGIT_9) || (LOWER_A <= c <= LOWER_F) || (UPPER_A <= c <= UPPER_F)
}

/// Whether `c` is a digit that `digit_of` produces: `0` to `9` or `a` to `f`.
pub open spec fn is_lower_hex_digit(c: u8) -> bool {
    (DIGIT_0 <= c <= DIGIT_9) || (LOWER_A <= c <= LOWER_F)
}

/// The value, 0 to 15, of the hexadecimal digit `c`.
pub open spec fn hex_value(c: u8) -> int
    recommends
        is_hex_digit(c),
{
    if c <= DIGIT_9 {
        c - DIGIT_0
    } else if c <= UPPER_F {
        c - UPPER_A + 10
    } else {
        c - LOWER_A + 10
    }
}

/// Whether every element of `s` is a hexadecimal digit.
pub open spec fn all_hex_digits(s: Seq<u8>) -> bool {
    forall|i: int| 0 <= i < s.len() ==> is_hex_digit(#[trigger] s[i])
}

/// Writes a nibble as its lower-case hexadecimal digit.
pub fn hex_digit(nibble: u8) -> (digit: u8)
    requires
        nibble < 16,
    ensures
        digit == digit_of(nibble as int),
{
    if nibble < 10 {
        DIGIT_0 + nibble
    } else {
        LOWER_A + (nibble - 10)
    }
}

/// `digit_of` and `hex_value` are inverse on nibbles, and every digit that
/// `digit_of` yields is a lower-case hexadecimal digit.
pub proof fn lemma_digit_value(nibble: int)
    requires
        0 <= nibble < 16,
    ensures
        is_lower_hex_digit(digit_of(nibble)),
        is_hex_digit(digit_of(nibble)),
        hex_value(digit_of(nibble)) == nibble,
{
}

/// On lower-case digits `hex_value` and `digit_of` are inverse too.
pub proof fn lemma_value_digit(c: u8)
    requires
        is_lower_hex_digit(c),
    ensures
        0 <= hex_value(c) < 16,
        digit_of(hex_value(c)) == c,
{
}

/// A hexadecimal digit has a value from 0 to 15.
pub proof fn lemma_value_range(c: u8)
    requires
        is_hex_digit(c),
    ensures
        0 <= hex_value(c) < 16,
{
}

} // verus!
