//! The 32-bit hash of a byte string.
//!
//! A multiply-and-fold hash: the input is consumed in little-endian words of
//! four bytes, and what is left over is folded in at the end. Every sum and
//! product is reduced modulo 2^32.

use crate::codec::{get_u32_little_end, word_at};
use vstd::arithmetic::div_mod::{lemma_add_mod_noop_right, lemma_mul_mod_noop_left};
use vstd::prelude::*;
use vstd::wrapping::u32_specs;

verus! {

/// The multiplier of the mixing step.
pub const MULTIPLIER: u32 = 0xc6a4a793;

/// The distance of the last fold, where one byte is left over.
pub const TAIL_SHIFT: u32 = 24;

/// The distance of the fold after each whole word.
pub const WORD_SHIFT: u32 = 16;

/// The seed under which keys are hashed.
pub const KEY_SEED: u32 = 0xbc9f1d34;

/// `x` reduced modulo 2^32.
pub open spec fn wrap32(x: int) -> u32 {
    (x % 0x1_0000_0000) as u32
}

/// The state a hash starts from: the seed xor-ed with the product of the
/// input's length and the multiplier.
pub open spec fn initial_state(len: nat, seed: u32) -> u32 {
    seed ^ wrap32(len * MULTIPLIER)
}

/// One mixing step: add `value`, multiply, then fold the upper bits down by
/// `shift`.
pub open spec fn mix(h: u32, value: int, shift: u32) -> u32 {
    let t = wrap32(wrap32(h + value) * MULTIPLIER);
    t ^ (t >> shift)
}

/// The state after the first `words` four-byte words of `bytes` have been
/// mixed into `h`, in order.
pub open spec fn mix_words(bytes: Seq<u8>, h: u32, words: nat) -> u32
    decreases words,
{
    if words == 0 {
        h
    } else {
        mix(mix_words(bytes, h, (words - 1) as nat), word_at(bytes, 4 * (words - 1)), WORD_SHIFT)
    }
}

/// Folds in what the whole words left over. Three or two bytes left: the
/// input's length, shifted left by 16 or by 8, is added and nothing else is
/// done, so the bytes themselves are not read. One byte left: that byte goes
/// through a mixing step with a fold by `TAIL_SHIFT`. Nothing left: `h` is
/// the result.
pub open spec fn mix_tail(bytes: Seq<u8>, h: u32) -> u32 {
    let len = bytes.len();
    if len % 4 == 3 {
        wrap32(h + len * 0x1_0000)
    } else if len % 4 == 2 {
        wrap32(h + len * 0x100)
    } else if len % 4 == 1 {
        mix(h, bytes[len - 1] as int, TAIL_SHIFT)
    } else {
        h
    }
}

/// The hash of `bytes` under `seed`.
pub open spec fn hash_of(bytes: Seq<u8>, seed: u32) -> u32 {
    mix_tail(bytes, mix_words(bytes, initial_state(bytes.len(), seed), bytes.len() / 4))
}

/// The hash of a key: `hash_of` under the one seed that keys are hashed with.
pub open spec fn key_hash(key: Seq<u8>) -> u32 {
    hash_of(key, KEY_SEED)
}

/// A length cut to 32 bits is the length modulo 2^32.
proof fn lemma_low_bits(len: usize)
    ensures
        (len as u32) as int == (len as int) % 0x1_0000_0000,
{
    let low: u32 = len as u32;
    assert(low == (len as u64) % 0x1_0000_0000) by (bit_vector)
        requires
            low == len as u32,
    ;
}

/// The wrapping product of a length cut to 32 bits and the multiplier is the
/// product of the length itself, modulo 2^32.
proof fn lemma_length_product(len: usize)
    ensures
        u32_specs::wrapping_mul(len as u32, MULTIPLIER) == wrap32(len * MULTIPLIER),
{
    lemma_low_bits(len);
    lemma_mul_mod_noop_left(len as int, MULTIPLIER as int, 0x1_0000_0000);
}

/// Adding a length that was cut to 32 bits and shifted left by 16 or by 8,
/// with wrapping, adds the length times 2^16 or 2^8, modulo 2^32.
proof fn lemma_length_shifted(len: usize, h: u32)
    ensures
        u32_specs::wrapping_add(h, (len as u32) << 16u32) == wrap32(h + len * 0x1_0000),
        u32_specs::wrapping_add(h, (len as u32) << 8u32) == wrap32(h + len * 0x100),
{
    let low: u32 = len as u32;
    let m: int = 0x1_0000_0000;
    lemma_low_bits(len);
    assert(low << 16u32 == (low * 0x1_0000) % 0x1_0000_0000) by (bit_vector);
    assert(low << 8u32 == (low * 0x100) % 0x1_0000_0000) by (bit_vector);
    lemma_mul_mod_noop_left(len as int, 0x1_0000, m);
    lemma_mul_mod_noop_left(len as int, 0x100, m);
    lemma_add_mod_noop_right(h as int, len * 0x1_0000, m);
    lemma_add_mod_noop_right(h as int, len * 0x100, m);
}

/// One mixing step on machine words.
fn mix_in(h: u32, value: u32, shift: u32) -> (mixed: u32)
    requires
        shift < 32,
    ensures
        mixed == mix(h, value as int, shift),
{
    let t: u32 = h.wrapping_add(value).wrapping_mul(MULTIPLIER);
    t ^ (t >> shift)
}

/// Computes the 32-bit hash of `data` under `seed`. The result depends on
/// nothing but the bytes and the seed, and every byte string, the empty one
/// included, has a hash.
pub fn hash(data: &[u8], seed: u32) -> (h: u32)
    ensures
        h == hash_of(data@, seed),
{
    let len: usize = data.len();
    proof {
        lemma_length_product(len);
    }
    let len32: u32 = #[verifier::truncate] (len as u32);
    let start: u32 = seed ^ len32.wrapping_mul(MULTIPLIER);
    let mut h: u32 = start;
    let n: usize = len - len % 4;
    let mut i: usize = 0;
    while i < n
        invariant
            len == data@.len(),
            n == len - len % 4,
            i <= n,
            i % 4 == 0,
            h == mix_words(data@, start, (i / 4) as nat),
        decreases n - i,
    {
        let word: u32 = get_u32_little_end(&data[i..len]);
        h = mix_in(h, word, WORD_SHIFT);
        i += 4;
    }
    let left: usize = len - i;
    proof {
        lemma_length_shifted(len, h);
    }
    if left == 3 {
        h = h.wrapping_add(len32 << 16u32);
    } else if left == 2 {
        h = h.wrapping_add(len32 << 8u32);
    } else if left == 1 {
        h = mix_in(h, data[i] as u32, TAIL_SHIFT);
    }
    h
}

/// Computes the hash under which a key enters a filter.
pub fn bloom_hash(data: &[u8]) -> (h: u32)
    ensures
        h == key_hash(data@),
{
    hash(data, KEY_SEED)
}

} // verus!
