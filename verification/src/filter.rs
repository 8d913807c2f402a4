//! The filter builder and the query.
//!
//! A [`BloomFilter`] gathers the hashes of the keys it is given and, on
//! demand, lays them out as an image: see [`crate::image`] for the layout.
//! The builder keeps nothing of an image that it has emitted, and an image
//! can be queried without the builder that made it.

use crate::buffer::{buffer_slice_mut, bytes_contents, bytes_slice};
use crate::hash::{bloom_hash, key_hash};
use crate::image::{
    bit_is_set, data_len, empty_image, is_image_of, lemma_bit_after_set, lemma_empty_image,
    lemma_next_probe, lemma_probed_by_next, lemma_probed_next, lemma_zero_byte_has_no_bit,
    may_contain, probe_bit, probe_count, probe_hash, probe_step, probed, probed_by, MAX_PROBES,
    MIN_BITS,
};
use bytes::{Bytes, BytesMut};
use vstd::arithmetic::div_mod::lemma_small_mod;
use vstd::prelude::*;

verus! {

/// What a builder stands for: its tuning and the hashes of the keys added
/// since the last image was generated, oldest first.
pub struct BuilderState {
    pub bits_per_key: nat,
    pub pending: Seq<u32>,
}

/// The tuning of a builder, fixed when the builder is made: the bits spent
/// on each key and the number of probes that follows from them.
struct Tuning {
    bits_per_key: usize,
    k: u8,
}

impl Tuning {
    #[verifier::type_invariant]
    spec fn well_formed(&self) -> bool {
        self.k == probe_count(self.bits_per_key as nat)
    }
}

/// Collects keys and emits the image of a Bloom filter over them.
pub struct BloomFilter {
    tuning: Tuning,
    key_hashes: Vec<u32>,
}

impl View for BloomFilter {
    type V = BuilderState;

    closed spec fn view(&self) -> BuilderState {
        BuilderState { bits_per_key: self.tuning.bits_per_key as nat, pending: self.key_hashes@ }
    }
}

/// The bit that a probe with hash value `kh` selects in an array of
/// `n_bytes` bytes.
fn bit_position(kh: u32, n_bytes: usize) -> (pos: usize)
    requires
        n_bytes >= 1,
    ensures
        pos == kh as int % (8 * n_bytes) as int,
        pos < 8 * n_bytes,
        pos / 8 < n_bytes,
{
    if n_bytes > 0x1fff_ffff {
        proof {
            lemma_small_mod(kh as nat, (8 * n_bytes) as nat);
        }
        kh as usize
    } else {
        (kh % ((n_bytes as u32) * 8)) as usize
    }
}

/// The mask that selects bit `pos % 8` of a byte.
fn bit_mask(pos: usize) -> (mask: u8)
    ensures
        mask == 1u8 << ((pos as int % 8) as u8),
{
    1u8 << ((pos % 8) as u8)
}

/// Sets the bits that the first `probes` probes of `kh` select in the first
/// `n_bytes` bytes of `bits`.
fn mark_key(bits: &mut [u8], n_bytes: usize, kh: u32, probes: u8)
    requires
        n_bytes >= 1,
        old(bits)@.len() == n_bytes + 1,
    ensures
        final(bits)@.len() == n_bytes + 1,
        final(bits)@[n_bytes as int] == old(bits)@[n_bytes as int],
        forall|bit: int|
            0 <= bit < 8 * n_bytes ==> (#[trigger] bit_is_set(final(bits)@, bit) <==> bit_is_set(
                old(bits)@,
                bit,
            ) || probed_by(kh, probes as nat, (8 * n_bytes) as nat, bit)),
{
    let ghost before = bits@;
    let ghost n_bits = (8 * n_bytes) as nat;
    let step: u32 = (kh >> 17u32) | (kh << 15u32);
    let mut cur: u32 = kh;
    let mut p: u8 = 0;
    proof {
        lemma_next_probe(kh, 0);
    }
    while p < probes
        invariant
            n_bytes >= 1,
            n_bits == 8 * n_bytes,
            p <= probes,
            step == probe_step(kh),
            cur == probe_hash(kh, p as nat),
            bits@.len() == n_bytes + 1,
            bits@[n_bytes as int] == before[n_bytes as int],
            forall|bit: int|
                0 <= bit < 8 * n_bytes ==> (#[trigger] bit_is_set(bits@, bit) <==> bit_is_set(
                    before,
                    bit,
                ) || probed_by(kh, p as nat, n_bits, bit)),
        decreases probes - p,
    {
        let pos: usize = bit_position(cur, n_bytes);
        let mask: u8 = bit_mask(pos);
        let ghost prev = bits@;
        bits[pos / 8] = bits[pos / 8] | mask;
        proof {
            lemma_next_probe(kh, p as nat);
            assert(probe_bit(kh, p as nat, n_bits) == pos);
            assert forall|bit: int| 0 <= bit < 8 * n_bytes implies (#[trigger] bit_is_set(
                bits@,
                bit,
            ) <==> bit_is_set(before, bit) || probed_by(kh, (p + 1) as nat, n_bits, bit)) by {
                lemma_bit_after_set(prev, pos as int, bit);
                lemma_probed_by_next(kh, p as nat, n_bits, bit);
            }
        }
        cur = cur.wrapping_add(step);
        p += 1;
    }
}

impl BloomFilter {
    /// Creates a builder whose images spend `bits_per_key` bits on each key
    /// and probe `probe_count(bits_per_key)` bits for each key. No key is
    /// pending.
    pub fn new(bits_per_key: usize) -> (builder: Self)
        ensures
            builder@.bits_per_key == bits_per_key,
            builder@.pending == Seq::<u32>::empty(),
    {
        // From 45 bits per key on, 0.69 times as many is nearer to 31 or more
        // than to 30.
        let k: u8 = if bits_per_key >= 45 {
            MAX_PROBES
        } else {
            let nearest: usize = (69 * bits_per_key + 50) / 100;
            if nearest < 1 {
                1
            } else {
                nearest as u8
            }
        };
        BloomFilter { tuning: Tuning { bits_per_key, k }, key_hashes: Vec::new() }
    }

    /// The length in bytes of the image that `generate` would emit now, or
    /// `None` if that length exceeds `isize::MAX`, the most that can be
    /// allocated.
    pub fn image_len(&self) -> (len: Option<usize>)
        ensures
            match len {
                Some(n) => n == data_len(self@.pending.len(), self@.bits_per_key) + 1 && n
                    <= isize::MAX,
                None => data_len(self@.pending.len(), self@.bits_per_key) + 1 > isize::MAX,
            },
    {
        let keys: u128 = self.key_hashes.len() as u128;
        let per_key: u128 = self.tuning.bits_per_key as u128;
        assert(keys * per_key <= 0xffff_ffff_ffff_ffff * 0xffff_ffff_ffff_ffff) by (nonlinear_arith)
            requires
                keys <= 0xffff_ffff_ffff_ffff,
                per_key <= 0xffff_ffff_ffff_ffff,
        ;
        let wanted: u128 = keys * per_key;
        let bits: u128 = if wanted < MIN_BITS as u128 {
            MIN_BITS as u128
        } else {
            wanted
        };
        let n_bytes: u128 = (bits + 7) / 8;
        if n_bytes < isize::MAX as u128 {
            Some(n_bytes as usize + 1)
        } else {
            None
        }
    }

    /// Adds `key` to the keys of the next image. The key's bytes are read and
    /// not kept: only their hash is.
    pub fn add(&mut self, key: &Bytes)
        ensures
            final(self)@.bits_per_key == old(self)@.bits_per_key,
            final(self)@.pending == old(self)@.pending.push(key_hash(bytes_contents(*key))),
    {
        self.key_hashes.push(bloom_hash(bytes_slice(key)));
    }

    /// Emits the image of a filter over the pending keys and forgets them, so
    /// that the builder starts on a new set of keys. The image has to be one
    /// that can be allocated, which `image_len` tells beforehand.
    pub fn generate(&mut self) -> (image: Bytes)
        requires
            data_len(old(self)@.pending.len(), old(self)@.bits_per_key) + 1 <= isize::MAX,
        ensures
            is_image_of(bytes_contents(image), old(self)@.pending, old(self)@.bits_per_key),
            bytes_contents(image).len() >= 9,
            old(self)@.pending.len() == 0 ==> bytes_contents(image) == empty_image(
                old(self)@.bits_per_key,
            ),
            final(self)@.bits_per_key == old(self)@.bits_per_key,
            final(self)@.pending == Seq::<u32>::empty(),
    {
        proof {
            use_type_invariant(&self.tuning);
        }
        let len: usize = self.image_len().unwrap();
        let n_bytes: usize = len - 1;
        let k: u8 = self.tuning.k;
        let ghost hashes = self.key_hashes@;
        let ghost n_bits = (8 * n_bytes) as nat;
        let mut dest = BytesMut::zeroed(len);
        let bits = buffer_slice_mut(&mut dest);
        bits[n_bytes] = k;
        proof {
            assert forall|bit: int| 0 <= bit < 8 * n_bytes implies !#[trigger] bit_is_set(
                bits@,
                bit,
            ) by {
                lemma_zero_byte_has_no_bit((bit % 8) as u8);
            }
        }
        let mut i: usize = 0;
        while i < self.key_hashes.len()
            invariant
                n_bytes >= 1,
                n_bits == 8 * n_bytes,
                hashes == self.key_hashes@,
                i <= hashes.len(),
                bits@.len() == n_bytes + 1,
                bits@[n_bytes as int] == k,
                forall|bit: int|
                    0 <= bit < 8 * n_bytes ==> (#[trigger] bit_is_set(bits@, bit) <==> probed(
                        hashes.take(i as int),
                        k as nat,
                        n_bits,
                        bit,
                    )),
            decreases hashes.len() - i,
        {
            mark_key(bits, n_bytes, self.key_hashes[i], k);
            proof {
                assert forall|bit: int| 0 <= bit < 8 * n_bytes implies (#[trigger] bit_is_set(
                    bits@,
                    bit,
                ) <==> probed(hashes.take(i + 1), k as nat, n_bits, bit)) by {
                    lemma_probed_next(hashes, i as int, k as nat, n_bits, bit);
                }
            }
            i += 1;
        }
        proof {
            assert(hashes.take(hashes.len() as int) =~= hashes);
            if hashes.len() == 0 {
                assert(hashes =~= Seq::<u32>::empty());
                lemma_empty_image(bits@, self@.bits_per_key);
            }
        }
        self.key_hashes.clear();
        dest.freeze()
    }

    /// Asks the image `filter` whether it may hold `key`. `false` means that
    /// the key was not among the keys of the image; `true` means that it may
    /// have been. An image too short to hold a bit array and a trailer holds
    /// nothing, and one whose trailer exceeds `MAX_PROBES` holds everything.
    pub fn contains(&self, filter: &Bytes, key: &Bytes) -> (found: bool)
        ensures
            found == may_contain(bytes_contents(*filter), key_hash(bytes_contents(*key))),
    {
        if filter.len() < 2 {
            return false;
        }
        let n_bytes: usize = filter.len() - 1;
        let image: &[u8] = bytes_slice(filter);
        let probes: u8 = image[n_bytes];
        if probes > MAX_PROBES {
            return true;
        }
        let kh: u32 = bloom_hash(bytes_slice(key));
        let ghost n_bits = (8 * n_bytes) as nat;
        let step: u32 = (kh >> 17u32) | (kh << 15u32);
        let mut cur: u32 = kh;
        let mut p: u8 = 0;
        proof {
            lemma_next_probe(kh, 0);
        }
        while p < probes
            invariant
                n_bytes >= 1,
                n_bits == 8 * n_bytes,
                image@.len() == n_bytes + 1,
                image@ == bytes_contents(*filter),
                probes == image@[n_bytes as int],
                probes <= MAX_PROBES,
                kh == key_hash(bytes_contents(*key)),
                p <= probes,
                step == probe_step(kh),
                cur == probe_hash(kh, p as nat),
                forall|q: nat| q < p ==> bit_is_set(image@, #[trigger] probe_bit(kh, q, n_bits)),
                n_bits == (8 * (image@.len() - 1)) as nat,
            decreases probes - p,
        {
            let pos: usize = bit_position(cur, n_bytes);
            if image[pos / 8] & bit_mask(pos) == 0 {
                assert(!bit_is_set(image@, probe_bit(kh, p as nat, n_bits)));
                return false;
            }
            proof {
                lemma_next_probe(kh, p as nat);
            }
            cur = cur.wrapping_add(step);
            p += 1;
        }
        true
    }
}

} // verus!
