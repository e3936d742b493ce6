//! Encoding: from bytes to an obfuscated stream.

use vstd::prelude::*;
use crate::digits::{digit_of, hex_digit, is_lower_hex_digit, lemma_digit_value, DIGIT_0};
use crate::error::DecodeError;
use crate::laws::lemma_round_trip;
use crate::noise::NoiseSource;
use crate::positions::{lemma_locate, lemma_slot_offset};
use crate::stream::{
    decoded, interleaved, is_encoding, noise_len, noise_start, quartet, real_digit, slot_position,
    stream_len,
};

verus! {

/// Whether `stream` holds the data digit of slot `slot`.
spec fn carries(stream: Seq<u8>, bytes: Seq<u8>, key: int, slot: int) -> bool {
    &&& 0 <= slot_position(key, slot) < stream.len()
    &&& stream[slot_position(key, slot)] == real_digit(bytes, slot)
}

/// Whether `stream` is the start of a stream for `bytes` under `key`, with
/// the data digits of the first `slots` slots in place.
spec fn is_partial(stream: Seq<u8>, bytes: Seq<u8>, key: int, slots: int) -> bool {
    &&& stream.len() >= 1
    &&& stream[0] == digit_of(key / 16)
    &&& forall|slot: int| 0 <= slot < slots ==> #[trigger] carries(stream, bytes, key, slot)
    &&& forall|p: int| 0 <= p < stream.len() ==> is_lower_hex_digit(#[trigger] stream[p])
}

/// Whether `stream` is the start of `full`.
spec fn is_start_of(stream: Seq<u8>, full: Seq<u8>) -> bool {
    forall|p: int| 0 <= p < stream.len() ==> #[trigger] stream[p] == full[p]
}

/// A further digit leaves in place what a partial stream holds.
proof fn lemma_push_digit(stream: Seq<u8>, digit: u8, bytes: Seq<u8>, key: int, slots: int)
    requires
        is_partial(stream, bytes, key, slots),
        is_lower_hex_digit(digit),
    ensures
        is_partial(stream.push(digit), bytes, key, slots),
        stream.len() == slot_position(key, slots) && digit == real_digit(bytes, slots)
            ==> is_partial(stream.push(digit), bytes, key, slots + 1),
{
    let longer = stream.push(digit);
    assert forall|slot: int| 0 <= slot < slots implies #[trigger] carries(
        longer,
        bytes,
        key,
        slot,
    ) by {
        assert(carries(stream, bytes, key, slot));
    }
    if stream.len() == slot_position(key, slots) && digit == real_digit(bytes, slots) {
        assert forall|slot: int| 0 <= slot < slots + 1 implies #[trigger] carries(
            longer,
            bytes,
            key,
            slot,
        ) by {
            if slot < slots {
                assert(carries(stream, bytes, key, slot));
            }
        }
    }
}

/// Writes one byte as its quartet.
fn quartet_of(byte: u8) -> (digits: Vec<u8>)
    ensures
        digits@ == quartet(byte),
        forall|j: int| 0 <= j < 4 ==> is_lower_hex_digit(#[trigger] digits@[j]),
{
    let mut digits: Vec<u8> = Vec::new();
    digits.push(DIGIT_0);
    digits.push(DIGIT_0);
    digits.push(hex_digit(byte / 16));
    digits.push(hex_digit(byte % 16));
    proof {
        lemma_digit_value(byte as int / 16);
        lemma_digit_value(byte as int % 16);
        assert(digits@ =~= quartet(byte));
    }
    digits
}

/// Encodes `bytes` under `key`, with the noise taken from `source`.
///
/// The stream opens with the high digit of the key and closes with the low
/// one. In between, every byte stands as the four digits of its quartet, each
/// followed by `key` noise digits.
#[verifier::loop_isolation(false)]
pub fn encode_from(bytes: &[u8], key: u8, source: &mut NoiseSource) -> (stream: Vec<u8>)
    requires
        old(source).can_draw(noise_len(bytes@.len() as int, key as int)),
    ensures
        stream@.len() == 2 + bytes@.len() * 4 * (key + 1),
        is_encoding(stream@, bytes@, key),
        decoded(stream@) == Ok::<Seq<u8>, DecodeError>(bytes@),
        final(source).is_after(*old(source), noise_len(bytes@.len() as int, key as int)),
        *old(source) is Given ==> stream@ == interleaved(
            bytes@,
            key,
            old(source).upcoming(noise_len(bytes@.len() as int, key as int)),
        ),
{
    let ghost count = bytes@.len() as int;
    let ghost total = noise_len(count, key as int);
    let ghost full = interleaved(bytes@, key, source.upcoming(total));
    let ghost fixed = *source is Given;
    let mut stream: Vec<u8> = Vec::new();
    stream.push(hex_digit(key / 16));
    proof {
        lemma_digit_value(key as int / 16);
        lemma_slot_offset(key as int, 0, 0);
        assert(0 <= total) by (nonlinear_arith)
            requires
                total == count * 4 * key,
                0 <= count,
                0 <= key,
        ;
    }
    let mut i: usize = 0;
    while i < bytes.len()
        invariant
            0 <= i <= count,
            0 <= noise_start(key as int, 4 * i) <= total,
            source.is_after(*old(source), noise_start(key as int, 4 * i)),
            stream@.len() == slot_position(key as int, 4 * i),
            is_partial(stream@, bytes@, key as int, 4 * i),
            fixed ==> is_start_of(stream@, full),
        decreases count - i,
    {
        let digits = quartet_of(bytes[i]);
        let mut j: usize = 0;
        while j < 4
            invariant
                0 <= j <= 4,
                0 <= noise_start(key as int, 4 * i + j) <= total,
                source.is_after(*old(source), noise_start(key as int, 4 * i + j)),
                stream@.len() == slot_position(key as int, 4 * i + j),
                is_partial(stream@, bytes@, key as int, 4 * i + j),
                fixed ==> is_start_of(stream@, full),
            decreases 4 - j,
        {
            let ghost slot = 4 * i + j;
            proof {
                lemma_locate(count, key as int, slot, 0);
                lemma_push_digit(stream@, digits@[j as int], bytes@, key as int, slot);
            }
            stream.push(digits[j]);
            let mut k: u8 = 0;
            while k < key
                invariant
                    0 <= k <= key,
                    source.is_after(*old(source), noise_start(key as int, slot) + k),
                    stream@.len() == slot_position(key as int, slot) + 1 + k,
                    is_partial(stream@, bytes@, key as int, slot + 1),
                    fixed ==> is_start_of(stream@, full),
                decreases key - k,
            {
                proof {
                    lemma_locate(count, key as int, slot, k + 1);
                }
                let nibble = source.draw();
                proof {
                    if let NoiseSource::Given { nibbles, next } = *old(source) {
                        assert(next + total <= nibbles.len());
                    }
                    lemma_digit_value(nibble as int);
                    lemma_push_digit(stream@, digit_of(nibble as int), bytes@, key as int, slot + 1);
                }
                stream.push(hex_digit(nibble));
                k = k + 1;
            }
            proof {
                lemma_slot_offset(key as int, slot, 1);
            }
            j = j + 1;
        }
        i = i + 1;
    }
    let ghost body = stream@;
    stream.push(hex_digit(key % 16));
    proof {
        lemma_digit_value(key as int % 16);
        assert(stream_len(count, key as int) == slot_position(key as int, 4 * count) + 1)
            by (nonlinear_arith);
        assert((4 * count) * key == count * 4 * key) by (nonlinear_arith);
        assert forall|slot: int| 0 <= slot < 4 * count implies #[trigger] stream@[slot_position(
            key as int,
            slot,
        )] == real_digit(bytes@, slot) by {
            assert(carries(body, bytes@, key as int, slot));
        }
        if fixed {
            assert(stream@ =~= full);
        }
        lemma_round_trip(bytes@, key, stream@);
    }
    stream
}

/// Encodes `bytes` under `key`, with fresh random noise.
pub fn encode(bytes: &[u8], key: u8) -> (stream: Vec<u8>)
    ensures
        stream@.len() == 2 + bytes@.len() * 4 * (key + 1),
        is_encoding(stream@, bytes@, key),
        decoded(stream@) == Ok::<Seq<u8>, DecodeError>(bytes@),
{
    let mut source = NoiseSource::random();
    encode_from(bytes, key, &mut source)
}

} // verus!
