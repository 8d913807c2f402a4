//! Fixed-width integer decoding.

use vstd::prelude::*;

verus! {

/// The unsigned 32-bit value of four bytes in little-endian order: `b0` is
/// the least significant byte.
pub open spec fn le_word(b0: u8, b1: u8, b2: u8, b3: u8) -> int {
    b0 + b1 * 0x100 + b2 * 0x1_0000 + b3 * 0x100_0000
}

/// The little-endian word held by the four bytes of `bytes` that start at
/// index `at`.
pub open spec fn word_at(bytes: Seq<u8>, at: int) -> int
    recommends
        0 <= at,
        at + 4 <= bytes.len(),
{
    le_word(bytes[at], bytes[at + 1], bytes[at + 2], bytes[at + 3])
}

/// Decodes the first four bytes of `arr` as a little-endian `u32`. Bytes
/// after the fourth are ignored.
pub fn get_u32_little_end(arr: &[u8]) -> (word: u32)
    requires
        arr@.len() >= 4,
    ensures
        word == word_at(arr@, 0),
{
    let b0: u32 = arr[0] as u32;
    let b1: u32 = arr[1] as u32;
    let b2: u32 = arr[2] as u32;
    let b3: u32 = arr[3] as u32;
    assert(b0 << 0u32 == b0) by (bit_vector);
    assert(b1 << 8u32 == b1 * 0x100) by (bit_vector)
        requires
            b1 < 0x100,
    ;
    assert(b2 << 16u32 == b2 * 0x1_0000) by (bit_vector)
        requires
            b2 < 0x100,
    ;
    assert(b3 << 24u32 == b3 * 0x100_0000) by (bit_vector)
        requires
            b3 < 0x100,
    ;
    (b0 << 0u32) + (b1 << 8u32) + (b2 << 16u32) + (b3 << 24u32)
}

} // verus!
