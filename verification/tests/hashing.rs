use bloom_filter::codec::get_u32_little_end;
use bloom_filter::hash::{bloom_hash, hash, KEY_SEED, MULTIPLIER};

#[test]
fn little_endian_words() {
    assert_eq!(get_u32_little_end(&[0, 0, 0, 0]), 0);
    assert_eq!(get_u32_little_end(&[1, 0, 0, 0]), 1);
    assert_eq!(get_u32_little_end(&[0, 1, 0, 0]), 0x100);
    assert_eq!(get_u32_little_end(&[0, 0, 1, 0]), 0x1_0000);
    assert_eq!(get_u32_little_end(&[0, 0, 0, 1]), 0x100_0000);
    assert_eq!(get_u32_little_end(&[0x78, 0x56, 0x34, 0x12]), 0x1234_5678);
    assert_eq!(get_u32_little_end(&[0xff, 0xff, 0xff, 0xff]), u32::MAX);
}

#[test]
fn a_word_is_read_from_the_first_four_bytes() {
    assert_eq!(get_u32_little_end(&[0x78, 0x56, 0x34, 0x12, 0xaa, 0xbb]), 0x1234_5678);
}

#[test]
fn the_constants() {
    assert_eq!(MULTIPLIER, 0xc6a4a793);
    assert_eq!(KEY_SEED, 0xbc9f1d34);
}

#[test]
fn the_hash_of_nothing_is_the_seed() {
    assert_eq!(hash(b"", 0), 0);
    assert_eq!(hash(b"", 1), 1);
    assert_eq!(hash(b"", KEY_SEED), KEY_SEED);
}

#[test]
fn hash_with_one_byte_left_over() {
    assert_eq!(hash(b"a", 0), 0xca6c9dd6);
    assert_eq!(hash(b"a", 1), 0x03c7f58a);
    assert_eq!(hash(b"abcde", 0), 0x8fa76260);
    assert_eq!(hash(b"hello", 0), 0xc0eb4c52);
}

#[test]
fn hash_with_two_bytes_left_over() {
    assert_eq!(hash(b"ab", 0), 0x8d495126);
    assert_eq!(hash(b"ab", 1), 0x8d495127);
}

#[test]
fn hash_with_three_bytes_left_over() {
    assert_eq!(hash(b"abc", 0), 0x53f0f6b9);
    assert_eq!(hash(b"abc", 1), 0x53f0f6b8);
    assert_eq!(hash(b"hello world", 0), 0xd1a4a44a);
}

#[test]
fn hash_of_whole_words() {
    assert_eq!(hash(b"abcd", 0), 0x9e87a0d0);
    assert_eq!(hash(b"abcd", 1), 0x652b80c1);
    let sixteen: Vec<u8> = (0u8..16).collect();
    assert_eq!(hash(&sixteen, 0), 0xc0c1058d);
    assert_eq!(hash(&sixteen, 1), 0xc43d3281);
}

#[test]
fn two_or_three_bytes_left_over_count_by_their_number_only() {
    assert_eq!(hash(b"ab", 5), hash(b"xy", 5));
    assert_eq!(hash(b"abc", 5), hash(b"xyz", 5));
    assert_eq!(hash(b"1234ab", 5), hash(b"1234xy", 5));
    assert_eq!(hash(b"1234abc", 5), hash(b"1234xyz", 5));
    // One byte left over is read.
    assert_ne!(hash(b"a", 5), hash(b"x", 5));
    assert_ne!(hash(b"1234a", 5), hash(b"1234x", 5));
}

#[test]
fn hash_is_a_function_of_bytes_and_seed() {
    let inputs: [&[u8]; 5] = [b"", b"a", b"hello", b"hello world", b"\x00\x01\x02\x03"];
    for data in inputs {
        for seed in [0u32, 1, KEY_SEED, u32::MAX] {
            let copy: Vec<u8> = data.to_vec();
            assert_eq!(hash(data, seed), hash(&copy, seed));
            assert_eq!(hash(data, seed), hash(data, seed));
        }
    }
}

#[test]
fn keys_are_hashed_under_the_key_seed() {
    assert_eq!(bloom_hash(b""), 0xbc9f1d34);
    assert_eq!(bloom_hash(b"a"), 0x286e9db0);
    assert_eq!(bloom_hash(b"ab"), 0x31d65412);
    assert_eq!(bloom_hash(b"abc"), 0xef75eb8d);
    assert_eq!(bloom_hash(b"abcd"), 0xb9c83353);
    assert_eq!(bloom_hash(b"hello"), 0xf795964e);
    assert_eq!(bloom_hash(b"hello world"), 0xaad1c127);
    assert_eq!(bloom_hash(b"hello"), hash(b"hello", KEY_SEED));
}
