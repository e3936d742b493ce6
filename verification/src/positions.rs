//! Where the digits of a stream stand: the arithmetic of slots and strides.

use vstd::prelude::*;
use vstd::arithmetic::div_mod::{
    lemma_fundamental_div_mod, lemma_fundamental_div_mod_converse, lemma_mod_bound,
};
use crate::stream::{noise_len, noise_start, slot_position, stream_len, stride};

verus! {

/// Where position `slot_position(key, slot) + within` of a stream falls: in
/// slot `slot`, `within` places behind its data digit. It lies between the two
/// key digits, and if it holds noise, that noise has an index.
pub proof fn lemma_locate(count: int, key: int, slot: int, within: int)
    requires
        0 <= key,
        0 <= slot < 4 * count,
        0 <= within <= key,
    ensures
        ({
            let p = slot_position(key, slot) + within;
            &&& 0 < p < stream_len(count, key) - 1
            &&& (p - 1) / stride(key) == slot
            &&& (p - 1) % stride(key) == within
            &&& 0 <= noise_start(key, slot)
            &&& noise_start(key, slot) + key <= noise_len(count, key)
            &&& noise_start(key, slot + 1) == noise_start(key, slot) + key
        }),
{
    let d = key + 1;
    let x = slot * d + within;
    lemma_fundamental_div_mod_converse(x, d, slot, within);
    assert(0 <= slot * d && (slot + 1) * d <= 4 * count * d && (slot + 1) * d == slot * d + d
        && count * 4 * d == 4 * count * d) by (nonlinear_arith)
        requires
            0 < d,
            0 <= slot,
            slot + 1 <= 4 * count,
    ;
    assert(0 <= slot * key && (slot + 1) * key <= 4 * count * key && (slot + 1) * key == slot
        * key + key && count * 4 * key == 4 * count * key) by (nonlinear_arith)
        requires
            0 <= key,
            0 <= slot,
            slot + 1 <= 4 * count,
    ;
}

/// Slots lie one stride apart: the data digit of slot `slot + ahead` stands
/// `ahead` strides behind that of slot `slot`.
pub proof fn lemma_slot_offset(key: int, slot: int, ahead: int)
    ensures
        slot_position(key, slot + ahead) == slot_position(key, slot) + ahead * stride(key),
{
    assert((slot + ahead) * (key + 1) == slot * (key + 1) + ahead * (key + 1))
        by (nonlinear_arith);
}

/// The data digit of every whole slot lies between the two key digits, and so
/// does the noise behind it.
pub proof fn lemma_slot_in_bounds(len: int, key: int, slot: int)
    requires
        2 <= len,
        0 <= key,
        0 <= slot < (len - 2) / stride(key),
    ensures
        1 <= slot_position(key, slot),
        slot_position(key, slot) + stride(key) <= len - 1,
{
    let d = key + 1;
    let q = (len - 2) / d;
    assert(0 <= slot * d && (slot + 1) * d <= q * d && (slot + 1) * d == slot * d + d)
        by (nonlinear_arith)
        requires
            0 < d,
            0 <= slot,
            slot + 1 <= q,
    ;
    assert(q * d <= len - 2) by (nonlinear_arith)
        requires
            0 < d,
            0 <= len - 2,
            q == (len - 2) / d,
    ;
}

/// Every position between the two key digits falls in one slot: it is the
/// data digit of that slot or stands up to `key` places behind it.
pub proof fn lemma_slot_of_position(count: int, key: int, p: int)
    requires
        0 <= key,
        0 < p < stream_len(count, key) - 1,
    ensures
        ({
            let slot = (p - 1) / stride(key);
            let within = (p - 1) % stride(key);
            &&& 0 <= slot < 4 * count
            &&& 0 <= within <= key
            &&& slot_position(key, slot) + within == p
        }),
{
    let d = key + 1;
    let slot = (p - 1) / d;
    let within = (p - 1) % d;
    lemma_fundamental_div_mod(p - 1, d);
    lemma_mod_bound(p - 1, d);
    assert(0 <= slot < 4 * count && slot * d == d * slot) by (nonlinear_arith)
        requires
            0 <= p - 1 < count * 4 * d,
            p - 1 == d * slot + within,
            0 <= within < d,
    ;
}

} // verus!
