use vstd::prelude::*;

use crypto::buffer::BufferResult;
use crypto::digest::Digest;

use crate::error::CryptError;
use crate::patch_file::{extract_metadata, header_complete, subkey_len_of, CryptFileMetadata};

verus! {

/// Length in bytes of a cipher block.
pub const BLOCK_LEN: usize = 16;

/// Length in bytes of the derived AES-192 key.
pub const KEY_LEN: usize = 24;

/// Number of blocks after which the chain state goes back to zero
/// (4080 bytes of ciphertext).
pub const BLOCKS_PER_RESET: u64 = 255;

/// The SHA-512 digest of a byte sequence.
pub uninterp spec fn sha512_of(data: Seq<u8>) -> Seq<u8>;

/// The AES-192 decryption of one 16-byte block under a 24-byte key.
pub uninterp spec fn aes192_decrypt_of(key: Seq<u8>, block: Seq<u8>) -> Seq<u8>;

/// Relies on crypto::sha2::Sha512 (`input` once, then `result`): the result
/// is the 64-byte SHA-512 digest of `data`, which depends on the bytes alone.
#[verifier::external_body]
fn sha512(data: &Vec<u8>) -> (r: [u8; 64])
    ensures
        r@ == sha512_of(data@),
{
    let mut hasher = crypto::sha2::Sha512::new();
    hasher.input(data);
    let mut digest = [0u8; 64];
    hasher.result(&mut digest);
    digest
}

/// Relies on crypto::aes::ecb_decryptor with KeySize192 and NoPadding: a
/// single call of `decrypt` on one 16-byte block with `eof` set. Where it
/// reports the block consumed (`BufferUnderflow`), the output is the AES-192
/// decryption of the block under `key`; any other outcome gives `None`. With
/// NoPadding, a full 16-byte block and `eof` set, the block engine always
/// consumes the block and reports `BufferUnderflow` (blockmodes.rs,
/// `BlockEngine::process`), so the result is always `Some`.
#[verifier::external_body]
fn aes192_decrypt_block(key: &[u8; 24], block: &[u8; 16]) -> (r: Option<[u8; 16]>)
    ensures
        r is Some,
        r matches Some(out) ==> out@ == aes192_decrypt_of(key@, block@),
{
    let mut decryptor = crypto::aes::ecb_decryptor(
        crypto::aes::KeySize::KeySize192, key, crypto::blockmodes::NoPadding);
    let mut out = [0u8; 16];
    let mut input = crypto::buffer::RefReadBuffer::new(block);
    let mut output = crypto::buffer::RefWriteBuffer::new(&mut out);
    match decryptor.decrypt(&mut input, &mut output, true) {
        Ok(BufferResult::BufferUnderflow) => Some(out),
        _ => None,
    }
}

/// The key derived from a subkey and a salt: the first 24 bytes of the
/// SHA-512 digest of the subkey followed by the salt.
pub open spec fn derived_key(subkey: Seq<u8>, salt: Seq<u8>) -> Seq<u8> {
    sha512_of(subkey + salt).subrange(0, 24)
}

/// Derives the AES-192 key of a container from its subkey and `salt`.
pub fn derive_aes_key(metadata: &CryptFileMetadata, salt: &[u8], output: &mut [u8; 24])
    ensures
        final(output)@ == derived_key(metadata.subkey@, salt@),
{
    let mut message = metadata.subkey.clone();
    let mut i: usize = 0;
    while i < salt.len()
        invariant
            i <= salt@.len(),
            message@ == metadata.subkey@ + salt@.subrange(0, i as int),
        decreases salt@.len() - i,
    {
        message.push(salt[i]);
        i = i + 1;
    }
    assert(salt@.subrange(0, salt@.len() as int) =~= salt@);
    let digest = sha512(&message);
    key_from_digest(&digest, output);
}

/// Takes the cipher key from a digest: its first 24 bytes.
pub fn key_from_digest(digest: &[u8; 64], output: &mut [u8; 24])
    ensures
        final(output)@ == digest@.subrange(0, 24),
{
    let mut j: usize = 0;
    while j < KEY_LEN
        invariant
            j <= 24,
            forall|m: int| 0 <= m < j ==> output@[m] == digest@[m],
        decreases 24 - j,
    {
        output[j] = digest[j];
        j = j + 1;
    }
    assert(output@ =~= digest@.subrange(0, 24));
}

/// Derivation is a function of the subkey and the salt: equal inputs give
/// equal keys.
pub proof fn lemma_derive_key_deterministic(s1: Seq<u8>, s2: Seq<u8>, salt: Seq<u8>)
    requires
        s1 == s2,
    ensures
        derived_key(s1, salt) == derived_key(s2, salt),
{
}

/// Whether a decrypted verify block starts with the expected tag.
pub open spec fn tag_ok(decrypted: Seq<u8>, expected: Seq<u8>) -> bool {
    decrypted.subrange(0, 2) == expected
}

/// Whether the first two bytes of a decrypted verify block are `expected`.
pub fn tag_matches(decrypted: &[u8; 16], expected: &[u8; 2]) -> (r: bool)
    ensures
        r == tag_ok(decrypted@, expected@),
{
    let r = decrypted[0] == expected[0] && decrypted[1] == expected[1];
    if r {
        assert(decrypted@.subrange(0, 2) =~= expected@);
    } else {
        assert(decrypted@.subrange(0, 2)[0] == decrypted@[0]);
        assert(decrypted@.subrange(0, 2)[1] == decrypted@[1]);
    }
    r
}

/// Decrypts the verify block with `aes_key` and tells whether it carries
/// the expected tag; fails with `CipherFault` where the cipher does.
pub fn verify_crypt_metadata(
    metadata: &CryptFileMetadata,
    aes_key: &[u8; 24],
    expected_tag: &[u8; 2],
) -> (r: Result<bool, CryptError>)
    ensures
        r == Ok::<bool, CryptError>(
            tag_ok(aes192_decrypt_of(aes_key@, metadata.verify_block@), expected_tag@),
        ),
{
    match aes192_decrypt_block(aes_key, &metadata.verify_block) {
        Some(decrypted) => Ok(tag_matches(&decrypted, expected_tag)),
        None => Err(CryptError::CipherFault),
    }
}

/// A block of sixteen zero bytes.
pub open spec fn zero_block() -> Seq<u8> {
    Seq::new(16, |i: int| 0u8)
}

/// One step of the chaining: each byte of the decrypted block is XORed with
/// the accumulator's byte at the same index minus that index (mod 256). The
/// result is both the plaintext block and the next accumulator.
pub open spec fn chain_block(acc: Seq<u8>, decrypted: Seq<u8>) -> Seq<u8> {
    Seq::new(16, |i: int| decrypted[i] ^ acc[i].wrapping_sub(i as u8))
}

/// Whether the accumulator goes back to zero before block `k` (besides the
/// zero it starts from at block 0): before the block whose read brings the
/// ciphertext consumed to a multiple of 4080 bytes, i.e. the blocks at
/// offsets 4064, 8144, ...
pub open spec fn resets_before(k: nat) -> bool {
    (k + 1) % 255 == 0
}

/// The accumulator after block `k` of the decrypted blocks `ds`, which is
/// also the plaintext of that block.
pub open spec fn chain_state(ds: Seq<Seq<u8>>, k: nat) -> Seq<u8>
    decreases k,
{
    if k == 0 || resets_before(k) {
        chain_block(zero_block(), ds[k as int])
    } else {
        chain_block(chain_state(ds, (k - 1) as nat), ds[k as int])
    }
}

/// The first `len` plaintext bytes of the chained decrypted blocks `ds`.
pub open spec fn unchain(ds: Seq<Seq<u8>>, len: nat) -> Seq<u8> {
    Seq::new(len, |p: int| chain_state(ds, (p / 16) as nat)[p % 16])
}

/// Applies one chaining step to `decrypted` with the accumulator `acc`.
pub fn chain_transform(acc: &[u8; 16], decrypted: &[u8; 16]) -> (r: [u8; 16])
    ensures
        r@ == chain_block(acc@, decrypted@),
{
    let mut r = [0u8; 16];
    let mut i: usize = 0;
    while i < BLOCK_LEN
        invariant
            i <= 16,
            forall|j: int|
                0 <= j < i ==> r@[j] == decrypted@[j] ^ acc@[j].wrapping_sub(j as u8),
        decreases 16 - i,
    {
        r[i] = decrypted[i] ^ acc[i].wrapping_sub(i as u8);
        i = i + 1;
    }
    assert(r@ =~= chain_block(acc@, decrypted@));
    r
}

/// The byte sequences of a list of blocks.
pub open spec fn block_views(blocks: Seq<[u8; 16]>) -> Seq<Seq<u8>> {
    blocks.map_values(|b: [u8; 16]| b@)
}

/// Runs the chaining over already decrypted blocks and keeps the first
/// `len` bytes of plaintext.
pub fn unchain_blocks(blocks: &Vec<[u8; 16]>, len: usize) -> (r: Vec<u8>)
    requires
        len <= 16 * blocks@.len(),
    ensures
        r@ == unchain(block_views(blocks@), len as nat),
{
    let ghost ds = block_views(blocks@);
    let mut out: Vec<u8> = Vec::with_capacity(len);
    let mut chain = [0u8; 16];
    let mut k: usize = 0;
    while out.len() < len
        invariant
            len <= 16 * blocks@.len(),
            ds == block_views(blocks@),
            out@.len() <= len,
            out@.len() < len ==> out@.len() == 16 * k,
            k > 0 ==> chain@ == chain_state(ds, (k - 1) as nat),
            forall|p: int| 0 <= p < out@.len() ==> out@[p] == chain_state(ds, (p / 16) as nat)[p % 16],
        decreases len - out@.len(),
    {
        let acc = if k == 0 || (k as u64) % BLOCKS_PER_RESET == BLOCKS_PER_RESET - 1 {
            [0u8; 16]
        } else {
            chain
        };
        assert(k == 0 || resets_before(k as nat) ==> acc@ =~= zero_block());
        chain = chain_transform(&acc, &blocks[k]);
        assert(chain@ == chain_state(ds, k as nat));
        let base = out.len();
        let m: usize = if len - base < BLOCK_LEN { len - base } else { BLOCK_LEN };
        let mut j: usize = 0;
        while j < m
            invariant
                base == 16 * k,
                base + m <= len,
                m <= 16,
                j <= m,
                out@.len() == base + j,
                chain@ == chain_state(ds, k as nat),
                forall|p: int| 0 <= p < out@.len() ==> out@[p] == chain_state(ds, (p / 16) as nat)[p % 16],
            decreases m - j,
        {
            assert((base + j) / 16 == k && (base + j) % 16 == j);
            out.push(chain[j]);
            j = j + 1;
        }
        k = k + 1;
    }
    assert(out@ =~= unchain(ds, len as nat));
    out
}

/// The 16-byte buffer that block `k` of the ciphertext `ct` is decrypted
/// from. A final short block fills only the front of the buffer; the rest
/// still holds the bytes of the block before it (zero for a first block).
pub open spec fn cipher_block(ct: Seq<u8>, k: int) -> Seq<u8> {
    Seq::new(
        16,
        |j: int|
            if 16 * k + j < ct.len() {
                ct[16 * k + j]
            } else if k > 0 {
                ct[16 * (k - 1) + j]
            } else {
                0u8
            },
    )
}

/// The number of blocks, the last one possibly short, that `len` bytes make.
pub open spec fn block_count(len: nat) -> nat {
    ((len + 15) / 16) as nat
}

/// The blocks of the ciphertext `ct`, each decrypted under `key`.
pub open spec fn decrypted_blocks(key: Seq<u8>, ct: Seq<u8>) -> Seq<Seq<u8>> {
    Seq::new(block_count(ct.len()), |k: int| aes192_decrypt_of(key, cipher_block(ct, k)))
}

/// The number of plaintext bytes emitted for a ciphertext of `ct_len` bytes
/// and a declared size of `declared`: the smaller of the two.
pub open spec fn emitted_len(declared: nat, ct_len: nat) -> nat {
    if declared <= ct_len { declared } else { ct_len }
}

/// The plaintext of the payload `ct` under `key`, bounded by the declared size.
pub open spec fn plaintext_of(key: Seq<u8>, ct: Seq<u8>, declared: nat) -> Seq<u8> {
    unchain(decrypted_blocks(key, ct), emitted_len(declared, ct.len()))
}

/// The decryptor emits exactly the declared size for any payload that
/// covers it rounded up to whole blocks.
pub proof fn lemma_emits_declared_size(key: Seq<u8>, ct: Seq<u8>, declared: nat)
    requires
        ct.len() >= 16 * block_count(declared),
    ensures
        plaintext_of(key, ct, declared).len() == declared,
{
}

/// Decrypts the payload that follows the header: each block with the block
/// cipher, then the chaining, keeping at most the declared size.
pub fn decrypt_file(metadata: &CryptFileMetadata, aes_key: &[u8; 24], payload: &[u8]) -> (r:
    Result<Vec<u8>, CryptError>)
    ensures
        r is Ok,
        r matches Ok(out) ==> out@ == plaintext_of(aes_key@, payload@, metadata.file_size as nat),
        r matches Ok(out) ==> (payload@.len() >= 16 * block_count(metadata.file_size as nat)
            ==> out@.len() == metadata.file_size as nat),
{
    let ghost ct = payload@;
    let ghost key = aes_key@;
    let mut blocks: Vec<[u8; 16]> = Vec::new();
    let mut buffer = [0u8; 16];
    let mut pos: usize = 0;
    while pos < payload.len()
        invariant
            ct == payload@,
            key == aes_key@,
            pos <= ct.len(),
            pos < ct.len() ==> pos == 16 * blocks@.len(),
            pos == ct.len() ==> ct.len() <= 16 * blocks@.len(),
            blocks@.len() > 0 ==> 16 * (blocks@.len() - 1) < ct.len(),
            blocks@.len() == 0 ==> buffer@ == zero_block(),
            blocks@.len() > 0 ==> buffer@ == cipher_block(ct, blocks@.len() - 1),
            forall|i: int|
                0 <= i < blocks@.len() ==> blocks@[i]@ == aes192_decrypt_of(
                    key,
                    cipher_block(ct, i),
                ),
        decreases ct.len() - pos,
    {
        let ghost k = blocks@.len() as int;
        let ghost prev = buffer@;
        let n: usize = if payload.len() - pos < BLOCK_LEN { payload.len() - pos } else { BLOCK_LEN };
        let mut j: usize = 0;
        while j < n
            invariant
                ct == payload@,
                pos == 16 * k,
                pos + n <= ct.len(),
                n <= 16,
                j <= n,
                forall|m: int| 0 <= m < j ==> buffer@[m] == ct[pos + m],
                prev.len() == 16,
                forall|m: int| j <= m < 16 ==> buffer@[m] == prev[m],
            decreases n - j,
        {
            buffer[j] = payload[pos + j];
            j = j + 1;
        }
        assert(n < 16 ==> pos + n == ct.len());
        assert forall|m: int| 0 <= m < 16 implies buffer@[m] == cipher_block(ct, k)[m] by {
            if m < n {
                assert(buffer@[m] == ct[pos + m]);
                assert(16 * k + m < ct.len());
            } else {
                assert(buffer@[m] == prev[m]);
                assert(16 * k + m >= ct.len());
                if k > 0 {
                    assert(prev == cipher_block(ct, k - 1));
                    assert(16 * (k - 1) + m < ct.len());
                } else {
                    assert(prev == zero_block());
                }
            }
        }
        assert(buffer@ =~= cipher_block(ct, k));
        match aes192_decrypt_block(aes_key, &buffer) {
            Some(decrypted) => blocks.push(decrypted),
            None => return Err(CryptError::CipherFault),
        }
        pos = pos + n;
    }
    assert(blocks@.len() == block_count(ct.len()));
    assert(block_views(blocks@) =~= decrypted_blocks(key, ct));
    let declared = metadata.file_size as usize;
    let len = if declared <= payload.len() { declared } else { payload.len() };
    Ok(unchain_blocks(&blocks, len))
}

/// The constants a container format is decrypted with.
pub struct DecryptConfig {
    /// The magic a container starts with.
    pub file_magic: [u8; 2],
    /// The tag the verify block decrypts to under the right key.
    pub decrypt_magic: [u8; 2],
    /// The salt appended to the subkey before hashing.
    pub salt: Vec<u8>,
}

/// The subkey of the complete header at the start of `data`.
pub open spec fn container_subkey(data: Seq<u8>) -> Seq<u8> {
    data.subrange(10, 10 + subkey_len_of(data))
}

/// The verify block of the complete header at the start of `data`.
pub open spec fn container_verify_block(data: Seq<u8>) -> Seq<u8> {
    data.subrange(10 + subkey_len_of(data), 26 + subkey_len_of(data))
}

/// The ciphertext payload that follows the complete header in `data`.
pub open spec fn container_payload(data: Seq<u8>) -> Seq<u8> {
    data.subrange(26 + subkey_len_of(data), data.len() as int)
}

/// The declared plaintext size of the header at the start of `data`.
pub open spec fn container_declared_size(data: Seq<u8>) -> nat {
    crate::patch_file::u32_le_at(data, 2) as nat
}

/// The key of the container `data` under `salt`.
pub open spec fn container_key(data: Seq<u8>, salt: Seq<u8>) -> Seq<u8> {
    derived_key(container_subkey(data), salt)
}

/// Whether the verify block of `data` decrypts to the expected tag.
pub open spec fn container_verified(data: Seq<u8>, config: &DecryptConfig) -> bool {
    tag_ok(
        aes192_decrypt_of(container_key(data, config.salt@), container_verify_block(data)),
        config.decrypt_magic@,
    )
}

/// Decrypts a whole container: parses the header, checks its magic, derives
/// the key, checks it against the verify block and only then decrypts the
/// payload.
pub fn decrypt_container(data: &[u8], config: &DecryptConfig) -> (r: Result<Vec<u8>, CryptError>)
    ensures
        r == Err::<Vec<u8>, CryptError>(CryptError::TruncatedHeader) <==> !header_complete(data@),
        r == Err::<Vec<u8>, CryptError>(CryptError::BadMagic) <==> header_complete(data@)
            && data@.subrange(0, 2) != config.file_magic@,
        r matches Err(e) ==> e == CryptError::TruncatedHeader || e == CryptError::BadMagic || e
            == CryptError::VerificationFailed,
        r == Err::<Vec<u8>, CryptError>(CryptError::VerificationFailed) <==> header_complete(data@)
            && data@.subrange(0, 2) == config.file_magic@ && !container_verified(data@, config),
        header_complete(data@) && data@.subrange(0, 2) == config.file_magic@ && container_verified(
            data@,
            config,
        ) ==> r is Ok,
        r matches Ok(out) ==> {
            &&& header_complete(data@)
            &&& data@.subrange(0, 2) == config.file_magic@
            &&& container_verified(data@, config)
            &&& out@ == plaintext_of(
                container_key(data@, config.salt@),
                container_payload(data@),
                container_declared_size(data@),
            )
        },
{
    let metadata = extract_metadata(data)?;
    if metadata.magic[0] != config.file_magic[0] || metadata.magic[1] != config.file_magic[1] {
        assert(metadata.magic@[0] != config.file_magic@[0] || metadata.magic@[1]
            != config.file_magic@[1]);
        return Err(CryptError::BadMagic);
    }
    assert(metadata.magic@ =~= config.file_magic@);
    let mut aes_key = [0u8; 24];
    derive_aes_key(&metadata, config.salt.as_slice(), &mut aes_key);
    let verified = verify_crypt_metadata(&metadata, &aes_key, &config.decrypt_magic)?;
    if !verified {
        return Err(CryptError::VerificationFailed);
    }
    let total: usize = data.len();
    assert(26 + metadata.subkey@.len() <= total);
    let start: usize = 26 + metadata.subkey.len();
    let payload = vstd::slice::slice_subrange(data, start, data.len());
    decrypt_file(&metadata, &aes_key, payload)
}

/// At a reset point (the first block, and each block whose read brings the
/// ciphertext consumed to 4080, 8160, ... bytes) the plaintext of a block
/// depends on its own decrypted bytes alone: two streams that agree on that
/// block agree on its plaintext, whatever came before it.
pub proof fn lemma_reset_forgets_history(ds1: Seq<Seq<u8>>, ds2: Seq<Seq<u8>>, k: nat)
    requires
        k == 0 || resets_before(k),
        ds1[k as int] == ds2[k as int],
    ensures
        chain_state(ds1, k) == chain_state(ds2, k),
{
}

/// The accumulator that the chaining uses for block `k` of the plaintext
/// blocks `ps`: zero at a reset point, else the plaintext block before.
pub open spec fn prev_plain(ps: Seq<Seq<u8>>, k: int) -> Seq<u8> {
    if k == 0 || resets_before(k as nat) {
        zero_block()
    } else {
        ps[k - 1]
    }
}

/// The inverse of the chaining over plaintext blocks `ps`: what the block
/// cipher must decrypt to for the chaining to give back `ps`.
pub open spec fn chain_encrypt(ps: Seq<Seq<u8>>) -> Seq<Seq<u8>> {
    Seq::new(ps.len(), |k: int| chain_block(prev_plain(ps, k), ps[k]))
}

proof fn lemma_xor_twice(p: u8, x: u8)
    ensures
        (p ^ x) ^ x == p,
{
    assert((p ^ x) ^ x == p) by (bit_vector);
}

/// Chaining the inverse of the chaining gives back each plaintext block.
pub proof fn lemma_chain_state_round_trip(ps: Seq<Seq<u8>>, k: nat)
    requires
        k < ps.len(),
        forall|b: int| 0 <= b < ps.len() ==> ps[b].len() == 16,
    ensures
        chain_state(chain_encrypt(ps), k) == ps[k as int],
    decreases k,
{
    let ds = chain_encrypt(ps);
    if k > 0 && !resets_before(k) {
        lemma_chain_state_round_trip(ps, (k - 1) as nat);
    }
    let acc = prev_plain(ps, k as int);
    assert forall|i: int| 0 <= i < 16 implies chain_state(ds, k)[i] == ps[k as int][i] by {
        lemma_xor_twice(ps[k as int][i], acc[i].wrapping_sub(i as u8));
    }
    assert(chain_state(ds, k) =~= ps[k as int]);
}

/// Round trip: decrypting (by the chaining) the chained encryption of whole
/// plaintext blocks gives back the plaintext, byte for byte, for any length
/// that the blocks cover.
pub proof fn lemma_round_trip(ps: Seq<Seq<u8>>, len: nat)
    requires
        len <= 16 * ps.len(),
        forall|b: int| 0 <= b < ps.len() ==> ps[b].len() == 16,
    ensures
        unchain(chain_encrypt(ps), len) == Seq::new(len, |p: int| ps[p / 16][p % 16]),
{
    assert forall|p: int| 0 <= p < len implies unchain(chain_encrypt(ps), len)[p] == ps[p
        / 16][p % 16] by {
        lemma_chain_state_round_trip(ps, (p / 16) as nat);
    }
    assert(unchain(chain_encrypt(ps), len) =~= Seq::new(len, |p: int| ps[p / 16][p % 16]));
}

} // verus!
