//! Decoding: from an obfuscated stream back to the bytes.

use vstd::prelude::*;
use crate::digits::{all_hex_digits, hex_value, is_hex_digit};
use crate::error::DecodeError;
use crate::hex::parse_hex;
use crate::positions::{lemma_slot_in_bounds, lemma_slot_offset};
use crate::stream::{
    all_sampled_hex, decoded, has_key, key_of, payload, sampled, slot_position, slots_of, stride,
};

verus! {

/// Reads the key from its two digits, the high one first.
fn parse_key(high: u8, low: u8) -> (res: Option<u8>)
    ensures
        res is Some <==> is_hex_digit(high) && is_hex_digit(low),
        res matches Some(key) ==> key == 16 * hex_value(high) + hex_value(low),
{
    let mut text: Vec<u8> = Vec::new();
    text.push(high);
    text.push(low);
    assert(text@ =~= seq![high, low]);
    match parse_hex(text.as_slice()) {
        Some(bytes) => {
            assert(is_hex_digit(text@[0]) && is_hex_digit(text@[1]));
            Some(bytes[0])
        },
        None => None,
    }
}

/// Collects the four digits that stand one `step` apart from `start` on.
fn read_quartet(stream: &[u8], start: usize, step: usize) -> (digits: Vec<u8>)
    requires
        start + 3 * step < stream@.len(),
    ensures
        digits@ == seq![
            stream@[start as int],
            stream@[start + step],
            stream@[start + 2 * step],
            stream@[start + 3 * step],
        ],
{
    let mut digits: Vec<u8> = Vec::new();
    digits.push(stream[start]);
    digits.push(stream[start + step]);
    digits.push(stream[start + 2 * step]);
    digits.push(stream[start + 3 * step]);
    assert(digits@ =~= seq![
        stream@[start as int],
        stream@[start + step],
        stream@[start + 2 * step],
        stream@[start + 3 * step],
    ]);
    digits
}

/// Recovers the bytes from an obfuscated stream.
///
/// The key is read from the first and the last position. Between them, every
/// `key + 1`-th position carries data; four of them make a byte. The noise in
/// between is skipped unread.
pub fn decode(stream: &[u8]) -> (res: Result<Vec<u8>, DecodeError>)
    ensures
        match res {
            Ok(bytes) => decoded(stream@) == Ok::<Seq<u8>, DecodeError>(bytes@),
            Err(e) => decoded(stream@) == Err::<Seq<u8>, DecodeError>(e),
        },
        res matches Ok(bytes) ==> bytes@ == payload(stream@),
        res is Ok <==> has_key(stream@) && slots_of(stream@) % 4 == 0 && all_sampled_hex(stream@),
        res matches Err(DecodeError::MalformedKey) <==> !has_key(stream@),
        res matches Err(DecodeError::TruncatedStream) <==> has_key(stream@) && slots_of(stream@)
            % 4 != 0,
        res matches Err(DecodeError::InvalidHexDigit) <==> has_key(stream@) && slots_of(stream@)
            % 4 == 0 && !all_sampled_hex(stream@),
        stream@.len() < 2 ==> res matches Err(DecodeError::MalformedKey),
{
    let len = stream.len();
    if len < 2 {
        return Err(DecodeError::MalformedKey);
    }
    let key = match parse_key(stream[0], stream[len - 1]) {
        Some(key) => key,
        None => {
            return Err(DecodeError::MalformedKey);
        },
    };
    let step: usize = key as usize + 1;
    let slots: usize = (len - 2) / step;
    if slots % 4 != 0 {
        return Err(DecodeError::TruncatedStream);
    }
    let count: usize = slots / 4;
    let mut bytes: Vec<u8> = Vec::new();
    let mut start: usize = 1;
    let mut i: usize = 0;
    while i < count
        invariant
            len == stream@.len(),
            has_key(stream@),
            key == key_of(stream@),
            step == stride(key as int),
            slots == slots_of(stream@),
            slots == 4 * count,
            0 <= i <= count,
            start == slot_position(key as int, 4 * i),
            forall|slot: int| 0 <= slot < 4 * i ==> is_hex_digit(#[trigger] sampled(stream@, slot)),
            bytes@.len() == i,
            forall|k: int| 0 <= k < i ==> #[trigger] bytes@[k] == payload(stream@)[k],
        decreases count - i,
    {
        proof {
            lemma_slot_in_bounds(len as int, key as int, 4 * i + 3);
            lemma_slot_offset(key as int, 4 * i, 1);
            lemma_slot_offset(key as int, 4 * i, 2);
            lemma_slot_offset(key as int, 4 * i, 3);
            lemma_slot_offset(key as int, 4 * i, 4);
        }
        let digits = read_quartet(stream, start, step);
        proof {
            assert(digits@[0] == sampled(stream@, 4 * i));
            assert(digits@[1] == sampled(stream@, 4 * i + 1));
            assert(digits@[2] == sampled(stream@, 4 * i + 2));
            assert(digits@[3] == sampled(stream@, 4 * i + 3));
        }
        match parse_hex(digits.as_slice()) {
            Some(pair) => {
                proof {
                    assert(is_hex_digit(digits@[0]) && is_hex_digit(digits@[1]) && is_hex_digit(
                        digits@[2],
                    ) && is_hex_digit(digits@[3]));
                    assert(pair@[1] == payload(stream@)[i as int]);
                    assert forall|slot: int| 0 <= slot < 4 * (i + 1) implies is_hex_digit(
                        #[trigger] sampled(stream@, slot),
                    ) by {
                        if slot >= 4 * i {
                            assert(slot == 4 * i || slot == 4 * i + 1 || slot == 4 * i + 2 || slot
                                == 4 * i + 3);
                        }
                    }
                }
                bytes.push(pair[1]);
            },
            None => {
                proof {
                    assert(!all_hex_digits(digits@));
                    let bad = choose|j: int| 0 <= j < 4 && !is_hex_digit(digits@[j]);
                    assert(!is_hex_digit(sampled(stream@, 4 * i + bad)));
                    assert(!all_sampled_hex(stream@));
                }
                return Err(DecodeError::InvalidHexDigit);
            },
        }
        start = start + 4 * step;
        i = i + 1;
    }
    proof {
        assert(all_sampled_hex(stream@));
        assert(bytes@ =~= payload(stream@));
    }
    Ok(bytes)
}

} // verus!
