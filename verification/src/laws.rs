//! What holds of the codec as a whole.

use vstd::prelude::*;
use vstd::arithmetic::div_mod::{
    lemma_div_by_multiple, lemma_fundamental_div_mod, lemma_fundamental_div_mod_converse,
    lemma_mod_bound, lemma_mod_multiples_basic,
};
use crate::digits::{
    hex_value, is_hex_digit, is_lower_hex_digit, lemma_digit_value, lemma_value_digit,
    lemma_value_range,
};
use crate::error::DecodeError;
use crate::positions::{lemma_locate, lemma_slot_in_bounds, lemma_slot_of_position};
use crate::stream::{
    all_nibbles, all_sampled_hex, decoded, has_key, interleaved, is_encoding, is_noise_position,
    key_of, noise_len, noise_start, payload, real_digit, sampled, slot_position, slots_of, stride,
};

verus! {

/// Every digit of a quartet is a lower-case hexadecimal digit.
pub proof fn lemma_real_digit_is_hex(bytes: Seq<u8>, slot: int)
    requires
        0 <= slot < 4 * bytes.len(),
    ensures
        is_lower_hex_digit(real_digit(bytes, slot)),
{
    let byte = bytes[slot / 4];
    lemma_digit_value(0);
    lemma_digit_value(byte as int / 16);
    lemma_digit_value(byte as int % 16);
}

/// Whatever the noise, interleaving gives a stream for the bytes and the key.
pub proof fn lemma_interleaved_is_encoding(bytes: Seq<u8>, key: u8, noise: Seq<u8>)
    requires
        noise.len() == noise_len(bytes.len() as int, key as int),
        all_nibbles(noise),
    ensures
        is_encoding(interleaved(bytes, key, noise), bytes, key),
{
    let stream = interleaved(bytes, key, noise);
    let count = bytes.len() as int;
    let k = key as int;
    assert(0 <= count * 4 * (k + 1)) by (nonlinear_arith)
        requires
            0 <= count,
            0 <= k,
    ;
    lemma_digit_value(k / 16);
    lemma_digit_value(k % 16);
    assert forall|slot: int| 0 <= slot < 4 * count implies #[trigger] stream[slot_position(
        k,
        slot,
    )] == real_digit(bytes, slot) by {
        lemma_locate(count, k, slot, 0);
    }
    assert forall|p: int| 0 <= p < stream.len() implies is_lower_hex_digit(
        #[trigger] stream[p],
    ) by {
        if 0 < p < stream.len() - 1 {
            let slot = (p - 1) / stride(k);
            let within = (p - 1) % stride(k);
            lemma_slot_of_position(count, k, p);
            lemma_locate(count, k, slot, within);
            if within == 0 {
                lemma_real_digit_is_hex(bytes, slot);
            } else {
                lemma_digit_value(noise[noise_start(k, slot) + within - 1] as int);
            }
        }
    }
}

/// The nibbles that the noise digits of a stream for `count` bytes under
/// `key` spell, in order.
pub open spec fn noise_of(stream: Seq<u8>, count: int, key: int) -> Seq<u8> {
    Seq::new(
        noise_len(count, key) as nat,
        |i: int| hex_value(stream[slot_position(key, i / key) + 1 + i % key]) as u8,
    )
}

/// Every stream for the bytes and the key is an interleaving: that of the
/// bytes with the noise that the stream holds.
pub proof fn lemma_encoding_is_interleaved(bytes: Seq<u8>, key: u8, stream: Seq<u8>)
    requires
        is_encoding(stream, bytes, key),
    ensures
        noise_of(stream, bytes.len() as int, key as int).len() == noise_len(
            bytes.len() as int,
            key as int,
        ),
        all_nibbles(noise_of(stream, bytes.len() as int, key as int)),
        stream == interleaved(bytes, key, noise_of(stream, bytes.len() as int, key as int)),
{
    let count = bytes.len() as int;
    let k = key as int;
    let noise = noise_of(stream, count, k);
    assert(0 <= count * 4 * k && 0 <= count * 4 * (k + 1)) by (nonlinear_arith)
        requires
            0 <= count,
            0 <= k,
    ;
    assert forall|i: int| 0 <= i < noise.len() implies #[trigger] noise[i] < 16 by {
        lemma_fundamental_div_mod(i, k);
        lemma_mod_bound(i, k);
        assert(0 <= i / k < 4 * count) by (nonlinear_arith)
            requires
                0 <= i < count * 4 * k,
                i == k * (i / k) + i % k,
                0 <= i % k < k,
        ;
        lemma_locate(count, k, i / k, i % k + 1);
        lemma_value_digit(stream[slot_position(k, i / k) + 1 + i % k]);
    }
    let full = interleaved(bytes, key, noise);
    assert forall|p: int| 0 <= p < stream.len() implies stream[p] == full[p] by {
        if 0 < p < stream.len() - 1 {
            let slot = (p - 1) / stride(k);
            let within = (p - 1) % stride(k);
            lemma_slot_of_position(count, k, p);
            lemma_locate(count, k, slot, within);
            if within > 0 {
                let i = noise_start(k, slot) + within - 1;
                lemma_fundamental_div_mod_converse(i, k, slot, within - 1);
                lemma_value_digit(stream[p]);
            }
        }
    }
    assert(stream =~= full);
}

/// The key and the number of slots of a stream are those it was made with.
pub proof fn lemma_encoding_shape(bytes: Seq<u8>, key: u8, stream: Seq<u8>)
    requires
        is_encoding(stream, bytes, key),
    ensures
        has_key(stream),
        key_of(stream) == key,
        slots_of(stream) == 4 * bytes.len(),
{
    let count = bytes.len() as int;
    let k = key as int;
    assert(count * 4 * (k + 1) == (4 * count) * (k + 1) && 0 <= (4 * count) * (k + 1))
        by (nonlinear_arith)
        requires
            0 <= count,
            0 <= k,
    ;
    lemma_digit_value(k / 16);
    lemma_digit_value(k % 16);
    lemma_div_by_multiple(4 * count, k + 1);
}

/// Round trip: a stream for `bytes`, under any key and with any noise,
/// decodes to `bytes`.
pub proof fn lemma_round_trip(bytes: Seq<u8>, key: u8, stream: Seq<u8>)
    requires
        is_encoding(stream, bytes, key),
    ensures
        decoded(stream) == Ok::<Seq<u8>, DecodeError>(bytes),
{
    let count = bytes.len() as int;
    let k = key as int;
    lemma_encoding_shape(bytes, key, stream);
    assert forall|slot: int| 0 <= slot < slots_of(stream) implies is_hex_digit(
        #[trigger] sampled(stream, slot),
    ) by {
        lemma_locate(count, k, slot, 0);
    }
    assert(all_sampled_hex(stream));
    let got = payload(stream);
    assert forall|i: int| 0 <= i < count implies #[trigger] got[i] == bytes[i] by {
        let byte = bytes[i];
        assert(sampled(stream, 4 * i + 2) == real_digit(bytes, 4 * i + 2));
        assert(sampled(stream, 4 * i + 3) == real_digit(bytes, 4 * i + 3));
        lemma_digit_value(byte as int / 16);
        lemma_digit_value(byte as int % 16);
    }
    assert(got =~= bytes);
}

/// Noise carries no information: two streams of one length that differ only
/// where the first holds noise decode alike.
pub proof fn lemma_noise_is_irrelevant(stream: Seq<u8>, other: Seq<u8>)
    requires
        stream.len() == other.len(),
        forall|p: int|
            0 <= p < stream.len() && !is_noise_position(stream, p) ==> #[trigger] stream[p]
                == other[p],
    ensures
        decoded(stream) == decoded(other),
{
    if stream.len() >= 2 {
        assert(stream[0] == other[0]);
        assert(stream[stream.len() - 1] == other[other.len() - 1]);
        if has_key(stream) {
            let k = key_of(stream);
            lemma_value_range(stream[0]);
            lemma_value_range(stream[stream.len() - 1]);
            assert forall|slot: int| 0 <= slot < slots_of(stream) implies #[trigger] sampled(
                stream,
                slot,
            ) == sampled(other, slot) by {
                let p = slot_position(k, slot);
                lemma_slot_in_bounds(stream.len() as int, k, slot);
                lemma_mod_multiples_basic(slot, stride(k));
                assert(!is_noise_position(stream, p));
                assert(stream[p] == other[p]);
            }
            if all_sampled_hex(stream) {
                assert forall|slot: int| 0 <= slot < slots_of(other) implies is_hex_digit(
                    #[trigger] sampled(other, slot),
                ) by {
                    assert(sampled(stream, slot) == sampled(other, slot));
                }
            }
            if all_sampled_hex(other) {
                assert forall|slot: int| 0 <= slot < slots_of(stream) implies is_hex_digit(
                    #[trigger] sampled(stream, slot),
                ) by {
                    assert(sampled(stream, slot) == sampled(other, slot));
                }
            }
            if slots_of(stream) % 4 == 0 {
                assert(payload(stream) =~= payload(other));
            }
        }
    }
}

/// Under the key 0 a stream holds no noise: it is the two key digits around
/// the quartets of the bytes, and nothing else.
pub proof fn lemma_key_zero_has_no_noise(bytes: Seq<u8>, stream: Seq<u8>)
    requires
        is_encoding(stream, bytes, 0),
    ensures
        stream.len() == 2 + 4 * bytes.len(),
        forall|p: int| 0 <= p < stream.len() ==> !is_noise_position(stream, p),
        forall|slot: int| 0 <= slot < 4 * bytes.len() ==> stream[1 + slot] == real_digit(bytes, slot),
        stream == interleaved(bytes, 0, Seq::empty()),
{
    lemma_encoding_shape(bytes, 0, stream);
    assert forall|slot: int| 0 <= slot < 4 * bytes.len() implies stream[1 + slot] == real_digit(
        bytes,
        slot,
    ) by {
        assert(slot_position(0, slot) == 1 + slot);
    }
    let plain = interleaved(bytes, 0, Seq::empty());
    lemma_digit_value(0);
    assert forall|p: int| 0 <= p < stream.len() implies stream[p] == plain[p] by {
        if 0 < p < stream.len() - 1 {
            assert(slot_position(0, p - 1) == p);
        }
    }
    assert(stream =~= plain);
}

} // verus!
