//! The layout of an obfuscated stream, as a mathematical model.
//!
//! A stream for `bytes` under `key` is
//!
//! ```text
//! K1 [Q1 N.. Q2 N.. Q3 N.. Q4 N..] .. K2
//! ```
//!
//! `K1` and `K2` are the high and the low digit of the key. Every byte
//! contributes one bracket: the four digits `Q1` to `Q4` of its quartet, each
//! followed by `key` noise digits `N`. A digit that carries data and the noise
//! behind it form a slot of `key + 1` positions, the stride.

use vstd::prelude::*;
use crate::digits::{digit_of, hex_value, is_hex_digit, is_lower_hex_digit, DIGIT_0};
use crate::error::DecodeError;

verus! {

/// The distance between two digits that carry data.
pub open spec fn stride(key: int) -> int {
    key + 1
}

/// The length of a stream for `count` bytes under `key`.
pub open spec fn stream_len(count: int, key: int) -> int {
    2 + count * 4 * (key + 1)
}

/// The number of noise digits in a stream for `count` bytes under `key`.
pub open spec fn noise_len(count: int, key: int) -> int {
    count * 4 * key
}

/// The four digits that stand for one byte: the byte as the low half of a
/// 16-bit value, whose high half is zero.
pub open spec fn quartet(byte: u8) -> Seq<u8> {
    seq![DIGIT_0, DIGIT_0, digit_of(byte as int / 16), digit_of(byte as int % 16)]
}

/// The digit that slot `slot` of a stream for `bytes` carries.
pub open spec fn real_digit(bytes: Seq<u8>, slot: int) -> u8 {
    quartet(bytes[slot / 4])[slot % 4]
}

/// The position of the data digit of slot `slot`.
pub open spec fn slot_position(key: int, slot: int) -> int {
    1 + slot * stride(key)
}

/// The index in the noise of the first noise digit of slot `slot`.
pub open spec fn noise_start(key: int, slot: int) -> int {
    slot * key
}

/// Whether every element of `noise` is a nibble.
pub open spec fn all_nibbles(noise: Seq<u8>) -> bool {
    forall|i: int| 0 <= i < noise.len() ==> #[trigger] noise[i] < 16
}

/// The stream for `bytes` under `key` whose noise digits spell the nibbles of
/// `noise`, in order.
pub open spec fn interleaved(bytes: Seq<u8>, key: u8, noise: Seq<u8>) -> Seq<u8> {
    let len = stream_len(bytes.len() as int, key as int);
    Seq::new(
        len as nat,
        |p: int|
            if p == 0 {
                digit_of(key as int / 16)
            } else if p == len - 1 {
                digit_of(key as int % 16)
            } else if (p - 1) % stride(key as int) == 0 {
                real_digit(bytes, (p - 1) / stride(key as int))
            } else {
                digit_of(
                    noise[noise_start(key as int, (p - 1) / stride(key as int)) + (p - 1) % stride(
                        key as int,
                    ) - 1] as int,
                )
            },
    )
}

/// Whether `stream` is a stream for `bytes` under `key`, with whatever noise.
pub open spec fn is_encoding(stream: Seq<u8>, bytes: Seq<u8>, key: u8) -> bool {
    &&& stream.len() == stream_len(bytes.len() as int, key as int)
    &&& stream[0] == digit_of(key as int / 16)
    &&& stream[stream.len() - 1] == digit_of(key as int % 16)
    &&& forall|slot: int|
        0 <= slot < 4 * bytes.len() ==> #[trigger] stream[slot_position(key as int, slot)]
            == real_digit(bytes, slot)
    &&& forall|p: int| 0 <= p < stream.len() ==> is_lower_hex_digit(#[trigger] stream[p])
}

/// Whether `stream` is long enough to hold a key and holds one.
pub open spec fn has_key(stream: Seq<u8>) -> bool {
    &&& stream.len() >= 2
    &&& is_hex_digit(stream[0])
    &&& is_hex_digit(stream[stream.len() - 1])
}

/// The key that `stream` holds in its first and last position.
pub open spec fn key_of(stream: Seq<u8>) -> int
    recommends
        has_key(stream),
{
    16 * hex_value(stream[0]) + hex_value(stream[stream.len() - 1])
}

/// The number of whole slots between the two key digits of `stream`.
pub open spec fn slots_of(stream: Seq<u8>) -> int
    recommends
        has_key(stream),
{
    (stream.len() - 2) / stride(key_of(stream))
}

/// The data digit of slot `slot` of `stream`.
pub open spec fn sampled(stream: Seq<u8>, slot: int) -> u8
    recommends
        has_key(stream),
        0 <= slot < slots_of(stream),
{
    stream[slot_position(key_of(stream), slot)]
}

/// Whether position `p` of `stream` holds noise: it lies between the two key
/// digits and is not the first of its slot.
pub open spec fn is_noise_position(stream: Seq<u8>, p: int) -> bool {
    &&& has_key(stream)
    &&& 0 < p < stream.len() - 1
    &&& (p - 1) % stride(key_of(stream)) != 0
}

/// Whether the data digit of every slot of `stream` is a hexadecimal digit.
pub open spec fn all_sampled_hex(stream: Seq<u8>) -> bool {
    forall|slot: int| 0 <= slot < slots_of(stream) ==> is_hex_digit(#[trigger] sampled(stream, slot))
}

/// The bytes that the slots of `stream` spell: of every four slots the last
/// two give a byte, the first two are passed over.
pub open spec fn payload(stream: Seq<u8>) -> Seq<u8> {
    Seq::new(
        (slots_of(stream) / 4) as nat,
        |i: int|
            (16 * hex_value(sampled(stream, 4 * i + 2)) + hex_value(sampled(stream, 4 * i + 3))) as u8,
    )
}

/// What decoding `stream` gives.
///
/// A stream without a key is malformed. A stream whose slots do not come in
/// fours is truncated; what is left over behind the last whole slot is not
/// looked at. The data digit of every slot must then be a hexadecimal digit.
/// The noise is never read.
pub open spec fn decoded(stream: Seq<u8>) -> Result<Seq<u8>, DecodeError> {
    if !has_key(stream) {
        Err(DecodeError::MalformedKey)
    } else if slots_of(stream) % 4 != 0 {
        Err(DecodeError::TruncatedStream)
    } else if !all_sampled_hex(stream) {
        Err(DecodeError::InvalidHexDigit)
    } else {
        Ok(payload(stream))
    }
}

} // verus!
