//! Strict parsing of hexadecimal text, on top of `const_hex`.

use vstd::prelude::*;
use crate::digits::{all_hex_digits, hex_value, is_hex_digit, DIGIT_0};

verus! {

/// ASCII `x`.
pub const LOWER_X: u8 = 0x78;

/// ASCII `X`.
pub const UPPER_X: u8 = 0x58;

/// The error of `const_hex::decode`. The library reads nothing from it.
#[verifier::external_type_specification]
#[verifier::external_body]
pub struct ExFromHexError(const_hex::FromHexError);

/// Whether `text` opens with the radix marker `0x` or `0X`.
pub open spec fn has_prefix(text: Seq<u8>) -> bool {
    text.len() >= 2 && text[0] == DIGIT_0 && (text[1] == LOWER_X || text[1] == UPPER_X)
}

/// `text` without its radix marker, if it has one.
pub open spec fn without_prefix(text: Seq<u8>) -> Seq<u8> {
    if has_prefix(text) {
        text.skip(2)
    } else {
        text
    }
}

/// The bytes that the digits of `text` spell, two digits to a byte, the high
/// nibble first.
pub open spec fn hex_pairs(text: Seq<u8>) -> Seq<u8> {
    Seq::new(
        (text.len() / 2) as nat,
        |i: int| (16 * hex_value(text[2 * i]) + hex_value(text[2 * i + 1])) as u8,
    )
}

/// Calls `const_hex::decode`.
///
/// Trusted: `const_hex` refuses text of odd length, then drops a leading `0x`
/// or `0X`, and succeeds exactly when all that is left are hexadecimal
/// digits of either case. On success it returns one byte for every two of
/// those digits, in order.
#[verifier::external_body]
fn decode_hex(text: &[u8]) -> (res: Result<Vec<u8>, const_hex::FromHexError>)
    ensures
        res.is_ok() == (text@.len() % 2 == 0 && all_hex_digits(without_prefix(text@))),
        res matches Ok(bytes) ==> bytes@ == hex_pairs(without_prefix(text@)),
{
    const_hex::decode(text)
}

/// Parses `text` as hexadecimal digits, two to a byte.
///
/// Nothing but digits is accepted: text of odd length, and text with a radix
/// marker, gives `None`.
pub fn parse_hex(text: &[u8]) -> (res: Option<Vec<u8>>)
    ensures
        res is Some <==> text@.len() % 2 == 0 && all_hex_digits(text@),
        res matches Some(bytes) ==> bytes@ == hex_pairs(text@),
{
    match decode_hex(text) {
        Ok(bytes) => {
            if bytes.len() == text.len() / 2 {
                Some(bytes)
            } else {
                assert(has_prefix(text@));
                assert(!is_hex_digit(text@[1]));
                None
            }
        },
        Err(_) => {
            proof {
                if text@.len() % 2 == 0 && all_hex_digits(text@) {
                    let rest = without_prefix(text@);
                    assert forall|i: int| 0 <= i < rest.len() implies is_hex_digit(
                        #[trigger] rest[i],
                    ) by {
                        if has_prefix(text@) {
                            assert(rest[i] == text@[i + 2]);
                        }
                    }
                }
            }
            None
        },
    }
}

} // verus!
