//! The byte image of a filter and how it is probed.
//!
//! An image is a bit array of `n_bytes` bytes followed by one trailer byte
//! that holds the number of probes. Bit `i` of the array is bit `i % 8`
//! (counted from the least significant) of byte `i / 8`. A key hash selects
//! its bits by double hashing: the first probe is the hash itself, and each
//! further probe adds a fixed step that is derived from the hash.

use crate::hash::{key_hash, wrap32};
use vstd::arithmetic::div_mod::{lemma_add_mod_noop, lemma_mod_bound};
use vstd::arithmetic::mul::lemma_mul_is_distributive_add_other_way;
use vstd::prelude::*;
use vstd::wrapping::u32_specs;

verus! {

/// The largest number of probes that an image can ask for. A trailer above
/// this marks an image that matches every key.
pub const MAX_PROBES: u8 = 30;

/// The least number of bits in the bit array of an image.
pub const MIN_BITS: usize = 64;

/// The number of probes per key for a filter tuned to `bits_per_key`: the
/// integer nearest to 0.69 times `bits_per_key`, kept within 1 and
/// `MAX_PROBES`.
pub open spec fn probe_count(bits_per_key: nat) -> nat {
    let nearest = (69 * bits_per_key + 50) / 100;
    if nearest < 1 {
        1
    } else if nearest > MAX_PROBES {
        MAX_PROBES as nat
    } else {
        nearest
    }
}

/// The number of bytes in the bit array of an image for `keys` keys:
/// `bits_per_key` bits for each key and at least `MIN_BITS` in all, rounded
/// up to whole bytes.
pub open spec fn data_len(keys: nat, bits_per_key: nat) -> nat {
    let wanted = keys * bits_per_key;
    let bits = if wanted < MIN_BITS {
        MIN_BITS as nat
    } else {
        wanted
    };
    (bits + 7) / 8
}

/// The step between two probes of one key hash: the hash with its upper 15
/// bits moved below its lower 17.
pub open spec fn probe_step(kh: u32) -> u32 {
    (kh >> 17u32) | (kh << 15u32)
}

/// The hash value behind probe number `p` of the key hash `kh`.
pub open spec fn probe_hash(kh: u32, p: nat) -> u32 {
    wrap32(kh + p * probe_step(kh))
}

/// The bit that probe number `p` of the key hash `kh` selects in an array of
/// `n_bits` bits.
pub open spec fn probe_bit(kh: u32, p: nat, n_bits: nat) -> int {
    probe_hash(kh, p) as int % n_bits as int
}

/// Whether bit number `bit` of `image` is 1.
pub open spec fn bit_is_set(image: Seq<u8>, bit: int) -> bool {
    image[bit / 8] & (1u8 << ((bit % 8) as u8)) != 0
}

/// Whether one of the first `probes` probes of `kh` selects `bit`.
pub open spec fn probed_by(kh: u32, probes: nat, n_bits: nat, bit: int) -> bool {
    exists|p: nat| p < probes && #[trigger] probe_bit(kh, p, n_bits) == bit
}

/// Whether a probe of one of `hashes` selects `bit`.
pub open spec fn probed(hashes: Seq<u32>, probes: nat, n_bits: nat, bit: int) -> bool {
    exists|i: int| 0 <= i < hashes.len() && #[trigger] probed_by(hashes[i], probes, n_bits, bit)
}

/// Whether `image` is the image of a filter that was tuned to `bits_per_key`
/// and holds the key hashes `hashes`: it has the length that the number of
/// keys asks for, its trailer is the probe count, and a bit of its array is 1
/// exactly if a probe of one of the hashes selects it.
pub open spec fn is_image_of(image: Seq<u8>, hashes: Seq<u32>, bits_per_key: nat) -> bool {
    let n_bytes = data_len(hashes.len(), bits_per_key);
    &&& image.len() == n_bytes + 1
    &&& image[n_bytes as int] == probe_count(bits_per_key)
    &&& forall|bit: int|
        0 <= bit < 8 * n_bytes ==> (#[trigger] bit_is_set(image, bit) <==> probed(
            hashes,
            probe_count(bits_per_key),
            8 * n_bytes,
            bit,
        ))
}

/// What an image answers for the key hash `kh`. An image of fewer than two
/// bytes matches nothing. One whose trailer exceeds `MAX_PROBES` matches
/// everything. Any other matches if every bit that the trailer's number of
/// probes selects, among the bits before the trailer, is 1.
pub open spec fn may_contain(image: Seq<u8>, kh: u32) -> bool {
    if image.len() < 2 {
        false
    } else if image.last() > MAX_PROBES {
        true
    } else {
        let n_bits = (8 * (image.len() - 1)) as nat;
        forall|p: nat| p < image.last() ==> bit_is_set(image, #[trigger] probe_bit(kh, p, n_bits))
    }
}

/// The first probe of a key hash is the hash itself, and each further probe
/// is the one before it plus the step, modulo 2^32.
pub(crate) proof fn lemma_next_probe(kh: u32, p: nat)
    ensures
        probe_hash(kh, 0) == kh,
        probe_hash(kh, p + 1) == u32_specs::wrapping_add(probe_hash(kh, p), probe_step(kh)),
{
    let d = probe_step(kh) as int;
    let m: int = 0x1_0000_0000;
    assert((p + 1) * d == p * d + d) by {
        lemma_mul_is_distributive_add_other_way(d, p as int, 1);
    }
    lemma_add_mod_noop(kh + p * d, d, m);
}

/// One more probe selects one more bit.
pub(crate) proof fn lemma_probed_by_next(kh: u32, p: nat, n_bits: nat, bit: int)
    ensures
        probed_by(kh, p + 1, n_bits, bit) <==> probed_by(kh, p, n_bits, bit) || probe_bit(
            kh,
            p,
            n_bits,
        ) == bit,
{
    if probed_by(kh, p + 1, n_bits, bit) {
        let q = choose|q: nat| q < p + 1 && #[trigger] probe_bit(kh, q, n_bits) == bit;
        if q < p {
            assert(probed_by(kh, p, n_bits, bit));
        }
    }
    if probed_by(kh, p, n_bits, bit) {
        let q = choose|q: nat| q < p && #[trigger] probe_bit(kh, q, n_bits) == bit;
        assert(q < p + 1 && probe_bit(kh, q, n_bits) == bit);
    }
    if probe_bit(kh, p, n_bits) == bit {
        assert(p < p + 1 && probe_bit(kh, p, n_bits) == bit);
    }
}

/// Or-ing the mask of bit `pos` into its byte sets that bit and leaves every
/// other bit of the image as it was.
pub(crate) proof fn lemma_bit_after_set(image: Seq<u8>, pos: int, bit: int)
    requires
        0 <= pos,
        pos / 8 < image.len(),
        0 <= bit,
        bit / 8 < image.len(),
    ensures
        bit_is_set(
            image.update(pos / 8, image[pos / 8] | (1u8 << ((pos % 8) as u8))),
            bit,
        ) <==> bit_is_set(image, bit) || bit == pos,
{
    let x: u8 = image[pos / 8];
    let b: u8 = (pos % 8) as u8;
    let c: u8 = (bit % 8) as u8;
    if bit / 8 == pos / 8 {
        assert(((x | (1u8 << b)) & (1u8 << c) != 0) <==> ((x & (1u8 << c) != 0) || b == c))
            by (bit_vector)
            requires
                b < 8,
                c < 8,
        ;
    }
}

/// One more key hash adds the bits that its probes select.
pub(crate) proof fn lemma_probed_next(hashes: Seq<u32>, i: int, probes: nat, n_bits: nat, bit: int)
    requires
        0 <= i < hashes.len(),
    ensures
        probed(hashes.take(i + 1), probes, n_bits, bit) <==> probed(
            hashes.take(i),
            probes,
            n_bits,
            bit,
        ) || probed_by(hashes[i], probes, n_bits, bit),
{
    let shorter = hashes.take(i);
    let longer = hashes.take(i + 1);
    if probed(longer, probes, n_bits, bit) {
        let j = choose|j: int|
            0 <= j < longer.len() && #[trigger] probed_by(longer[j], probes, n_bits, bit);
        if j < i {
            assert(probed_by(shorter[j], probes, n_bits, bit));
        }
    }
    if probed(shorter, probes, n_bits, bit) {
        let j = choose|j: int|
            0 <= j < shorter.len() && #[trigger] probed_by(shorter[j], probes, n_bits, bit);
        assert(probed_by(longer[j], probes, n_bits, bit));
    }
    if probed_by(hashes[i], probes, n_bits, bit) {
        assert(probed_by(longer[i], probes, n_bits, bit));
    }
}

/// No bit of a zero byte is 1.
pub(crate) proof fn lemma_zero_byte_has_no_bit(b: u8)
    ensures
        0u8 & (1u8 << b) == 0,
{
    assert(0u8 & (1u8 << b) == 0) by (bit_vector);
}

/// Two bytes that agree on each of their eight bits are equal.
proof fn lemma_bits_fix_byte(x: u8, y: u8)
    requires
        forall|b: u8| b < 8 ==> ((x & #[trigger] (1u8 << b) != 0) <==> (y & (1u8 << b) != 0)),
    ensures
        x == y,
{
    assert(x == y) by (bit_vector)
        requires
            (x & (1u8 << 0u8) != 0) <==> (y & (1u8 << 0u8) != 0),
            (x & (1u8 << 1u8) != 0) <==> (y & (1u8 << 1u8) != 0),
            (x & (1u8 << 2u8) != 0) <==> (y & (1u8 << 2u8) != 0),
            (x & (1u8 << 3u8) != 0) <==> (y & (1u8 << 3u8) != 0),
            (x & (1u8 << 4u8) != 0) <==> (y & (1u8 << 4u8) != 0),
            (x & (1u8 << 5u8) != 0) <==> (y & (1u8 << 5u8) != 0),
            (x & (1u8 << 6u8) != 0) <==> (y & (1u8 << 6u8) != 0),
            (x & (1u8 << 7u8) != 0) <==> (y & (1u8 << 7u8) != 0),
    ;
}

/// The probe count is at least 1 and at most `MAX_PROBES`, whatever the
/// tuning: 1 where the nearest integer would be 0, `MAX_PROBES` where it
/// would be more.
pub proof fn lemma_probe_count_range(bits_per_key: nat)
    ensures
        1 <= probe_count(bits_per_key) <= MAX_PROBES,
        (69 * bits_per_key + 50) / 100 == 0 ==> probe_count(bits_per_key) == 1,
        (69 * bits_per_key + 50) / 100 > MAX_PROBES ==> probe_count(bits_per_key) == MAX_PROBES,
{
}

/// An image is at least 9 bytes long, whatever the tuning and the number of
/// keys, and the bits that a query probes, eight for each byte before the
/// trailer, are the bits that the image was built over.
pub proof fn lemma_image_size(image: Seq<u8>, hashes: Seq<u32>, bits_per_key: nat)
    requires
        is_image_of(image, hashes, bits_per_key),
    ensures
        image.len() >= 9,
        8 * (image.len() - 1) == 8 * data_len(hashes.len(), bits_per_key),
        8 * (image.len() - 1) >= MIN_BITS,
        8 * (image.len() - 1) >= hashes.len() * bits_per_key,
{
}

/// The last byte of an image is the probe count of the tuning that the image
/// was built with.
pub proof fn lemma_trailer(image: Seq<u8>, hashes: Seq<u32>, bits_per_key: nat)
    requires
        is_image_of(image, hashes, bits_per_key),
    ensures
        image.last() == probe_count(bits_per_key),
        1 <= image.last() <= MAX_PROBES,
{
}

/// No false negatives: an image reports every key whose hash it was built
/// over as possibly present.
pub proof fn lemma_no_false_negatives(
    image: Seq<u8>,
    hashes: Seq<u32>,
    bits_per_key: nat,
    key: Seq<u8>,
)
    requires
        is_image_of(image, hashes, bits_per_key),
        hashes.contains(key_hash(key)),
    ensures
        may_contain(image, key_hash(key)),
{
    let kh = key_hash(key);
    let probes = probe_count(bits_per_key);
    let n_bits = (8 * (image.len() - 1)) as nat;
    let i = choose|i: int| 0 <= i < hashes.len() && hashes[i] == kh;
    assert forall|p: nat| p < image.last() implies bit_is_set(
        image,
        #[trigger] probe_bit(kh, p, n_bits),
    ) by {
        let bit = probe_bit(kh, p, n_bits);
        lemma_mod_bound(probe_hash(kh, p) as int, n_bits as int);
        assert(probed_by(hashes[i], probes, n_bits, bit));
        assert(probed(hashes, probes, n_bits, bit));
    }
}

/// An image of fewer than two bytes reports no key as present, and an image
/// whose trailer exceeds `MAX_PROBES` reports every key as present, whatever
/// its other bytes hold.
pub proof fn lemma_malformed_images(image: Seq<u8>, kh: u32)
    ensures
        image.len() < 2 ==> !may_contain(image, kh),
        image.len() >= 2 && image.last() > MAX_PROBES ==> may_contain(image, kh),
{
}

/// The image over no keys: `MIN_BITS / 8` zero bytes and the trailer.
pub open spec fn empty_image(bits_per_key: nat) -> Seq<u8> {
    Seq::new(9, |i: int| if i < 8 { 0u8 } else { probe_count(bits_per_key) as u8 })
}

/// An image built over no keys, as a builder emits when it is asked for two
/// images in a row with no key added in between, is the least image there
/// is: every bit of its array is 0.
pub proof fn lemma_empty_image(image: Seq<u8>, bits_per_key: nat)
    requires
        is_image_of(image, Seq::<u32>::empty(), bits_per_key),
    ensures
        image == empty_image(bits_per_key),
{
    assert forall|j: int| 0 <= j < 8 implies image[j] == 0u8 by {
        assert forall|b: u8| b < 8 implies ((image[j] & #[trigger] (1u8 << b) != 0) <==> (0u8 & (1u8
            << b) != 0)) by {
            let bit = 8 * j + b;
            assert(bit / 8 == j && bit % 8 == b);
            assert(!bit_is_set(image, bit));
            lemma_zero_byte_has_no_bit(b);
        }
        lemma_bits_fix_byte(image[j], 0u8);
    }
    assert(image =~= empty_image(bits_per_key));
}

/// There is one image for given key hashes and tuning.
pub proof fn lemma_image_unique(a: Seq<u8>, b: Seq<u8>, hashes: Seq<u32>, bits_per_key: nat)
    requires
        is_image_of(a, hashes, bits_per_key),
        is_image_of(b, hashes, bits_per_key),
    ensures
        a == b,
{
    let n_bytes = data_len(hashes.len(), bits_per_key);
    assert forall|j: int| 0 <= j < n_bytes implies a[j] == b[j] by {
        assert forall|c: u8| c < 8 implies ((a[j] & #[trigger] (1u8 << c) != 0) <==> (b[j] & (1u8
            << c) != 0)) by {
            let bit = 8 * j + c;
            assert(bit / 8 == j && bit % 8 == c);
            assert(bit_is_set(a, bit) <==> bit_is_set(b, bit));
        }
        lemma_bits_fix_byte(a[j], b[j]);
    }
    assert(a =~= b);
}

} // verus!
