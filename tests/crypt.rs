use crypto::buffer::{ReadBuffer, RefReadBuffer, RefWriteBuffer, WriteBuffer};
use crypto::digest::Digest;
use itg2_patch::crypt::{
    chain_transform, decrypt_container, key_from_digest, decrypt_file, derive_aes_key, tag_matches,
    unchain_blocks, verify_crypt_metadata, DecryptConfig,
};
use itg2_patch::error::CryptError;
use itg2_patch::patch_file::{extract_metadata, CryptFileMetadata};

const FILE_MAGIC: [u8; 2] = [b':', b'|'];
const TAG: [u8; 2] = [b':', b'D'];
const SALT: &[u8] = b"sample salt for tests";

fn aes192_encrypt(key: &[u8; 24], block: &[u8; 16]) -> [u8; 16] {
    let mut enc = crypto::aes::ecb_encryptor(
        crypto::aes::KeySize::KeySize192,
        key,
        crypto::blockmodes::NoPadding,
    );
    let mut out = [0u8; 16];
    {
        let mut input = RefReadBuffer::new(block);
        let mut output = RefWriteBuffer::new(&mut out);
        enc.encrypt(&mut input, &mut output, true).unwrap();
        assert_eq!(output.take_read_buffer().remaining(), 16);
    }
    out
}

fn aes192_decrypt(key: &[u8; 24], block: &[u8; 16]) -> [u8; 16] {
    let mut dec = crypto::aes::ecb_decryptor(
        crypto::aes::KeySize::KeySize192,
        key,
        crypto::blockmodes::NoPadding,
    );
    let mut out = [0u8; 16];
    {
        let mut input = RefReadBuffer::new(block);
        let mut output = RefWriteBuffer::new(&mut out);
        dec.decrypt(&mut input, &mut output, true).unwrap();
    }
    out
}

fn reference_key(subkey: &[u8], salt: &[u8]) -> [u8; 24] {
    let mut h = crypto::sha2::Sha512::new();
    h.input(subkey);
    h.input(salt);
    let mut d = [0u8; 64];
    h.result(&mut d);
    let mut k = [0u8; 24];
    k.copy_from_slice(&d[..24]);
    k
}

/// Inverse of the chaining, block by block, over a zero-padded plaintext.
fn reference_chain_encrypt(plain: &[u8]) -> Vec<[u8; 16]> {
    let mut blocks: Vec<[u8; 16]> = Vec::new();
    let mut prev = [0u8; 16];
    for (k, chunk) in plain.chunks(16).enumerate() {
        let mut p = [0u8; 16];
        p[..chunk.len()].copy_from_slice(chunk);
        if k == 0 || (k + 1) % 255 == 0 {
            prev = [0u8; 16];
        }
        let mut d = [0u8; 16];
        for i in 0..16 {
            d[i] = p[i] ^ prev[i].wrapping_sub(i as u8);
        }
        blocks.push(d);
        prev = p;
    }
    blocks
}

fn reference_payload(key: &[u8; 24], plain: &[u8]) -> Vec<u8> {
    let mut out = Vec::new();
    for d in reference_chain_encrypt(plain) {
        out.extend_from_slice(&aes192_encrypt(key, &d));
    }
    out
}

fn build_container(subkey: &[u8], salt: &[u8], declared: u32, plain: &[u8]) -> Vec<u8> {
    let key = reference_key(subkey, salt);
    let mut tag_block = [0u8; 16];
    tag_block[..2].copy_from_slice(&TAG);
    let mut data = FILE_MAGIC.to_vec();
    data.extend_from_slice(&declared.to_le_bytes());
    data.extend_from_slice(&(subkey.len() as u32).to_le_bytes());
    data.extend_from_slice(subkey);
    data.extend_from_slice(&aes192_encrypt(&key, &tag_block));
    data.extend_from_slice(&reference_payload(&key, plain));
    data
}

fn config(salt: &[u8]) -> DecryptConfig {
    DecryptConfig { file_magic: FILE_MAGIC, decrypt_magic: TAG, salt: salt.to_vec() }
}

fn sample_plain(len: usize) -> Vec<u8> {
    (0..len).map(|i| (i * 7 + i / 13) as u8).collect()
}

fn metadata_with_size(file_size: u32) -> CryptFileMetadata {
    let mut m = CryptFileMetadata::new();
    m.file_size = file_size;
    m
}

#[test]
fn derive_key_matches_sha512_prefix() {
    let mut m = CryptFileMetadata::new();
    m.subkey = b"abc".to_vec();
    m.subkey_size = 3;
    let mut key = [0u8; 24];
    derive_aes_key(&m, &[], &mut key);
    let expected: [u8; 24] = [
        0xdd, 0xaf, 0x35, 0xa1, 0x93, 0x61, 0x7a, 0xba, 0xcc, 0x41, 0x73, 0x49, 0xae, 0x20,
        0x41, 0x31, 0x12, 0xe6, 0xfa, 0x4e, 0x89, 0xa9, 0x7e, 0xa2,
    ];
    assert_eq!(key, expected);
}

#[test]
fn key_from_digest_takes_first_24_bytes() {
    let mut digest = [0u8; 64];
    for (i, b) in digest.iter_mut().enumerate() {
        *b = (i as u8) ^ 0x5a;
    }
    let mut key = [0u8; 24];
    key_from_digest(&digest, &mut key);
    assert_eq!(key[..], digest[..24]);
    assert_eq!(key[23], 23 ^ 0x5a);
}

#[test]
fn derive_key_appends_salt() {
    let mut m = CryptFileMetadata::new();
    m.subkey = b"ab".to_vec();
    m.subkey_size = 2;
    let mut key = [0u8; 24];
    derive_aes_key(&m, b"c", &mut key);
    assert_eq!(key, reference_key(b"abc", b""));
}

#[test]
fn derive_key_is_deterministic() {
    let mut m = CryptFileMetadata::new();
    m.subkey = vec![1, 2, 3, 4];
    m.subkey_size = 4;
    let mut k1 = [0u8; 24];
    let mut k2 = [9u8; 24];
    derive_aes_key(&m, SALT, &mut k1);
    derive_aes_key(&m, SALT, &mut k2);
    assert_eq!(k1, k2);
}

#[test]
fn derive_key_distinct_subkeys_give_distinct_keys() {
    let mut m1 = CryptFileMetadata::new();
    m1.subkey = vec![1, 2, 3, 4];
    m1.subkey_size = 4;
    let mut m2 = CryptFileMetadata::new();
    m2.subkey = vec![1, 2, 3, 5];
    m2.subkey_size = 4;
    let mut k1 = [0u8; 24];
    let mut k2 = [0u8; 24];
    derive_aes_key(&m1, SALT, &mut k1);
    derive_aes_key(&m2, SALT, &mut k2);
    assert_ne!(k1, k2);
}

#[test]
fn verify_block_known_vector() {
    // AES-192 test vector: key 00..17, plaintext 00112233..ff.
    let mut key = [0u8; 24];
    for (i, b) in key.iter_mut().enumerate() {
        *b = i as u8;
    }
    let mut m = CryptFileMetadata::new();
    m.verify_block = [
        0xdd, 0xa9, 0x7c, 0xa4, 0x86, 0x4c, 0xdf, 0xe0, 0x6e, 0xaf, 0x70, 0xa0, 0xec, 0x0d,
        0x71, 0x91,
    ];
    assert_eq!(verify_crypt_metadata(&m, &key, &[0x00, 0x11]), Ok(true));
    assert_eq!(verify_crypt_metadata(&m, &key, &[0x00, 0x12]), Ok(false));
}

#[test]
fn verify_right_and_wrong_key() {
    let data = build_container(b"subkey", SALT, 0, &[]);
    let m = extract_metadata(&data).unwrap();
    let mut right = [0u8; 24];
    derive_aes_key(&m, SALT, &mut right);
    assert_eq!(verify_crypt_metadata(&m, &right, &TAG), Ok(true));
    let mut wrong = right;
    wrong[0] ^= 1;
    assert_eq!(verify_crypt_metadata(&m, &wrong, &TAG), Ok(false));
}

#[test]
fn tag_matches_first_two_bytes_only() {
    let mut block = [0xaau8; 16];
    block[0] = b':';
    block[1] = b'D';
    assert!(tag_matches(&block, &TAG));
    block[1] = b'E';
    assert!(!tag_matches(&block, &TAG));
    block[1] = b'D';
    block[0] = 0;
    assert!(!tag_matches(&block, &TAG));
}

#[test]
fn chain_transform_from_zero_accumulator() {
    let out = chain_transform(&[0u8; 16], &[0u8; 16]);
    let expected: [u8; 16] =
        [0, 255, 254, 253, 252, 251, 250, 249, 248, 247, 246, 245, 244, 243, 242, 241];
    assert_eq!(out, expected);
}

#[test]
fn chain_transform_subtracts_before_xor() {
    let mut acc = [0u8; 16];
    acc[3] = 10;
    let mut dec = [0u8; 16];
    dec[3] = 0x0f;
    let out = chain_transform(&acc, &dec);
    // (10 - 3) ^ 0x0f = 7 ^ 15 = 8
    assert_eq!(out[3], 8);
    assert_eq!(out[0], 0);
}

#[test]
fn unchain_blocks_chains_and_truncates() {
    let blocks = vec![[0u8; 16], [0u8; 16]];
    let out = unchain_blocks(&blocks, 20);
    let first = chain_transform(&[0u8; 16], &[0u8; 16]);
    let second = chain_transform(&first, &[0u8; 16]);
    assert_eq!(out.len(), 20);
    assert_eq!(&out[..16], &first[..]);
    assert_eq!(&out[16..], &second[..4]);
    assert_eq!(unchain_blocks(&blocks, 0), Vec::<u8>::new());
}

#[test]
fn unchain_blocks_inverts_reference_chaining() {
    for len in [0usize, 15, 16, 17, 4079, 4080, 4081, 8161] {
        let plain = sample_plain(len);
        let blocks = reference_chain_encrypt(&plain);
        assert_eq!(unchain_blocks(&blocks, len), plain, "length {}", len);
    }
}

#[test]
fn round_trip_boundary_sizes() {
    for len in [0usize, 15, 16, 17, 4079, 4080, 4081] {
        let plain = sample_plain(len);
        let data = build_container(b"per-file subkey", SALT, len as u32, &plain);
        let out = decrypt_container(&data, &config(SALT)).unwrap();
        assert_eq!(out, plain, "length {}", len);
    }
}

#[test]
fn decrypt_emits_exactly_declared_size() {
    let plain = sample_plain(100);
    let data = build_container(b"k", SALT, 37, &plain);
    let out = decrypt_container(&data, &config(SALT)).unwrap();
    assert_eq!(out.len(), 37);
    assert_eq!(out, plain[..37].to_vec());
}

#[test]
fn decrypt_stops_at_end_of_ciphertext() {
    let plain = sample_plain(32);
    let data = build_container(b"k", SALT, 1000, &plain);
    let out = decrypt_container(&data, &config(SALT)).unwrap();
    assert_eq!(out, plain);
}

#[test]
fn chain_resets_at_4080() {
    let key = reference_key(b"k", SALT);
    let plain = sample_plain(4096 + 32);
    let payload = reference_payload(&key, &plain);
    // The read of the block at offset 4064 brings the bytes consumed to 4080,
    // so that block starts from a zero accumulator. Change the block before it.
    let mut altered = payload.clone();
    altered[4048] ^= 0x55;
    let m = metadata_with_size(payload.len() as u32);
    let a = decrypt_file(&m, &key, &payload).unwrap();
    let b = decrypt_file(&m, &key, &altered).unwrap();
    assert_ne!(a[4048..4064], b[4048..4064]);
    assert_eq!(a[4064..], b[4064..]);
    assert_eq!(a, plain);
}

#[test]
fn unchain_blocks_zero_accumulator_at_4080_consumed() {
    let blocks = vec![[0u8; 16]; 256];
    let out = unchain_blocks(&blocks, 256 * 16);
    let zero_start = chain_transform(&[0u8; 16], &[0u8; 16]);
    assert_eq!(out[..16], zero_start[..]);
    assert_eq!(out[4064..4080], zero_start[..]);
    assert_eq!(out[4065], 255);
    // The block before it is chained, not reset.
    assert_ne!(out[4048..4064], zero_start[..]);
    // The block after it chains from it.
    let next = chain_transform(&zero_start, &[0u8; 16]);
    assert_eq!(out[4080..4096], next[..]);
}

#[test]
fn chain_carries_between_resets() {
    let key = reference_key(b"k", SALT);
    let plain = sample_plain(64);
    let payload = reference_payload(&key, &plain);
    let mut altered = payload.clone();
    altered[16] ^= 0x01;
    let m = metadata_with_size(64);
    let a = decrypt_file(&m, &key, &payload).unwrap();
    let b = decrypt_file(&m, &key, &altered).unwrap();
    assert_eq!(a[..16], b[..16]);
    assert_ne!(a[32..48], b[32..48]);
}

#[test]
fn decrypt_short_final_block_reuses_previous_bytes() {
    let key = reference_key(b"k", SALT);
    let plain = sample_plain(32);
    let payload = reference_payload(&key, &plain);
    let short = payload[..20].to_vec();
    let m = metadata_with_size(100);
    let out = decrypt_file(&m, &key, &short).unwrap();
    assert_eq!(out.len(), 20);
    assert_eq!(out[..16], plain[..16]);
    // The four new bytes are decrypted over the tail of the block before them.
    let mut buffer = [0u8; 16];
    buffer.copy_from_slice(&payload[..16]);
    buffer[..4].copy_from_slice(&payload[16..20]);
    let mut acc = [0u8; 16];
    acc.copy_from_slice(&plain[..16]);
    let last = chain_transform(&acc, &aes192_decrypt(&key, &buffer));
    assert_eq!(out[16..], last[..4]);
}

#[test]
fn decrypt_empty_payload() {
    let key = [0u8; 24];
    let m = metadata_with_size(10);
    assert_eq!(decrypt_file(&m, &key, &[]).unwrap(), Vec::<u8>::new());
}

#[test]
fn container_truncated_header() {
    let data = [b':', b'|', 0, 0, 0];
    assert_eq!(decrypt_container(&data, &config(SALT)), Err(CryptError::TruncatedHeader));
}

#[test]
fn container_bad_magic() {
    let mut data = build_container(b"k", SALT, 16, &sample_plain(16));
    data[1] = b'X';
    assert_eq!(decrypt_container(&data, &config(SALT)), Err(CryptError::BadMagic));
}

#[test]
fn container_wrong_salt_fails_verification() {
    let data = build_container(b"k", SALT, 16, &sample_plain(16));
    assert_eq!(
        decrypt_container(&data, &config(b"another salt")),
        Err(CryptError::VerificationFailed)
    );
}
