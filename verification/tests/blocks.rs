use streamlet::block::{Block, INIT_EPOCH};
use streamlet::utils::{
    digest_to_string, hash_eq, push_be_bytes, push_hash, push_le_bytes, sha512_digest,
    sum_hash_bytes, BlockHash,
};

fn hex(text: &str) -> Vec<u8> {
    let digits: Vec<u8> = text
        .bytes()
        .map(|c| match c {
            b'0'..=b'9' => c - b'0',
            b'a'..=b'f' => c - b'a' + 10,
            _ => panic!("not a hex digit"),
        })
        .collect();
    digits.chunks(2).map(|pair| pair[0] * 16 + pair[1]).collect()
}

fn reference_hash(data: &[u8]) -> BlockHash {
    let digest = ring::digest::digest(&ring::digest::SHA512, data);
    let mut hash = [0u8; 64];
    hash.copy_from_slice(digest.as_ref());
    hash
}

#[test]
fn sha512_of_abc_is_the_published_vector() {
    let expected = hex(
        "ddaf35a193617abacc417349ae20413112e6fa4e89a97ea20a9eeee64b55d39a\
         2192992a274fc1a836ba3c23a3feebbd454d4423643ce80e2a9ac94fa54ca49f",
    );
    assert_eq!(sha512_digest(b"abc").to_vec(), expected);
}

#[test]
fn sha512_of_nothing_is_the_published_vector() {
    let expected = hex(
        "cf83e1357eefb8bdf1542850d66d8007d620e4050b5715dc83f4a921d36ce9ce\
         47d0d13c5d85f2b0ff8318d2877eec2f63b931bd47417a81a538327af927da3e",
    );
    assert_eq!(sha512_digest(b"").to_vec(), expected);
}

#[test]
fn sha512_differs_from_its_input() {
    let input = [7u8; 64];
    assert_ne!(sha512_digest(&input), input);
}

#[test]
fn big_endian_bytes_start_with_the_most_significant() {
    let mut out = vec![9u8];
    push_be_bytes(&mut out, 0x0102_0304_0506_0708);
    assert_eq!(out, vec![9, 1, 2, 3, 4, 5, 6, 7, 8]);
    let mut all = Vec::new();
    push_be_bytes(&mut all, u64::MAX);
    assert_eq!(all, u64::MAX.to_be_bytes().to_vec());
    let mut none = Vec::new();
    push_be_bytes(&mut none, 0);
    assert_eq!(none, vec![0u8; 8]);
}

#[test]
fn little_endian_bytes_start_with_the_least_significant() {
    let mut out = vec![9u8];
    push_le_bytes(&mut out, 0x0102_0304_0506_0708);
    assert_eq!(out, vec![9, 8, 7, 6, 5, 4, 3, 2, 1]);
    let mut other = Vec::new();
    push_le_bytes(&mut other, 258);
    assert_eq!(other, 258u64.to_le_bytes().to_vec());
}

#[test]
fn push_hash_appends_all_bytes_in_order() {
    let mut hash = [0u8; 64];
    for (i, byte) in hash.iter_mut().enumerate() {
        *byte = i as u8;
    }
    let mut out = vec![200u8];
    push_hash(&mut out, &hash);
    assert_eq!(out.len(), 65);
    assert_eq!(out[0], 200);
    assert_eq!(&out[1..], &hash[..]);
}

#[test]
fn hash_eq_compares_every_byte() {
    let a = [3u8; 64];
    let mut b = [3u8; 64];
    assert!(hash_eq(&a, &b));
    b[63] = 4;
    assert!(!hash_eq(&a, &b));
    b[63] = 3;
    b[0] = 0;
    assert!(!hash_eq(&a, &b));
}

#[test]
fn sum_hash_bytes_adds_up() {
    assert_eq!(sum_hash_bytes(&[0u8; 64]), 0);
    assert_eq!(sum_hash_bytes(&[255u8; 64]), 16320);
    let mut hash = [0u8; 64];
    hash[0] = 1;
    hash[63] = 2;
    assert_eq!(sum_hash_bytes(&hash), 3);
}

#[test]
fn new_block_carries_the_payload_of_its_epoch() {
    let parent = [5u8; 64];
    let block = Block::new(7, parent);
    assert_eq!(block.parent_digest, parent);
    assert_eq!(block.transaction, reference_hash(&7u64.to_be_bytes()));
    assert_eq!(block.creation_epoch, 7);
    assert!(!block.is_notarized);
}

#[test]
fn genesis_block_is_notarized_at_the_initial_epoch() {
    let genesis = Block::genesis_block();
    let seed = reference_hash(&INIT_EPOCH.to_be_bytes());
    assert_eq!(INIT_EPOCH, 0);
    assert_eq!(genesis.creation_epoch, 0);
    assert!(genesis.is_notarized);
    assert_eq!(genesis.parent_digest, seed);
    assert_eq!(genesis.transaction, seed);
}

#[test]
fn digest_hashes_parent_payload_and_big_endian_epoch() {
    let block = Block::new(0x0102_0304, [9u8; 64]);
    let mut bytes = Vec::new();
    bytes.extend_from_slice(&block.parent_digest);
    bytes.extend_from_slice(&block.transaction);
    bytes.extend_from_slice(&0x0102_0304u64.to_be_bytes());
    assert_eq!(bytes.len(), 136);
    assert_eq!(block.digest(), reference_hash(&bytes));
}

#[test]
fn digest_is_stable() {
    let block = Block::new(3, [1u8; 64]);
    let copy = block;
    assert_eq!(block.digest(), block.digest());
    assert_eq!(block.digest(), copy.digest());
    assert_eq!(Block::new(3, [1u8; 64]).digest(), block.digest());
}

#[test]
fn digest_changes_with_each_field() {
    let block = Block::new(3, [1u8; 64]);
    let mut other_parent = block;
    other_parent.parent_digest[17] ^= 1;
    assert_ne!(other_parent.digest(), block.digest());
    let mut other_payload = block;
    other_payload.transaction[0] ^= 0x80;
    assert_ne!(other_payload.digest(), block.digest());
    let mut other_epoch = block;
    other_epoch.creation_epoch = 4;
    assert_ne!(other_epoch.digest(), block.digest());
    let mut high_epoch = block;
    high_epoch.creation_epoch = 3 + (1u64 << 56);
    assert_ne!(high_epoch.digest(), block.digest());
}

#[test]
fn notarize_sets_the_flag_and_keeps_the_digest() {
    let mut block = Block::new(2, [8u8; 64]);
    let digest = block.digest();
    block.notarize();
    assert!(block.is_notarized);
    assert_eq!(block.digest(), digest);
    block.notarize();
    assert!(block.is_notarized);
    assert_eq!(block.parent_digest, [8u8; 64]);
    assert_eq!(block.creation_epoch, 2);
}

#[test]
fn digest_to_string_keeps_the_first_sixty_four_bytes() {
    let bytes: Vec<u8> = (0u8..=255).collect();
    let exact = digest_to_string(&bytes[..64]);
    assert_eq!(exact.to_vec(), bytes[..64].to_vec());
    let longer = digest_to_string(&bytes[100..200]);
    assert_eq!(longer.to_vec(), bytes[100..164].to_vec());
    let high = digest_to_string(&bytes[192..]);
    assert_eq!(high[0], 192);
    assert_eq!(high[63], 255);
}
