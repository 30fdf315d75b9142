//! Hashing (BLAKE2s-256), compression (Zstandard) and authenticated encryption
//! (ChaCha20-Poly1305) of byte contents.

use blake2::{Blake2s256, Digest};
use chacha20poly1305::aead::{Aead, AeadCore, KeyInit, OsRng};
use chacha20poly1305::{ChaCha20Poly1305, Key, Nonce};
use vstd::prelude::*;

use crate::error::EncryptionError;
use crate::filecrypt::FileCrypt;

verus! {

/// Size in bytes of a ChaCha20-Poly1305 key (and of a content hash).
pub const KEY_SIZE: usize = 32;

/// Size in bytes of a ChaCha20-Poly1305 nonce.
pub const NONCE_SIZE: usize = 12;

/// Size in bytes of the Poly1305 authentication tag appended to a ciphertext.
pub const TAG_SIZE: usize = 16;

/// The error of the `aead` traits, re-exported by `chacha20poly1305`.
#[verifier::external_type_specification]
#[verifier::external_body]
pub struct ExAeadError(chacha20poly1305::Error);

// ------------------------------------------------------------------------------------------------
// Names for what the outside functions compute.

/// The BLAKE2s-256 digest of `data`.
pub uninterp spec fn blake2s256_digest(data: Seq<u8>) -> Seq<u8>;

/// The Zstandard frame that `zstd::encode_all` writes for `data` at compression `level`.
pub uninterp spec fn zstd_encoded(data: Seq<u8>, level: i32) -> Seq<u8>;

/// What `zstd::decode_all` recovers from `frame`, or `None` where it reports an error.
pub uninterp spec fn zstd_decoded(frame: Seq<u8>) -> Option<Seq<u8>>;

/// The ChaCha20-Poly1305 ciphertext (the encrypted message followed by its tag)
/// of `plaintext` under `key` and `nonce`, with no associated data.
pub uninterp spec fn chacha20poly1305_sealed(key: Seq<u8>, nonce: Seq<u8>, plaintext: Seq<u8>) -> Seq<u8>;

/// The plaintext that ChaCha20-Poly1305 authenticates and recovers from `ciphertext`
/// under `key` and `nonce`, or `None` where authentication fails.
pub uninterp spec fn chacha20poly1305_opened(key: Seq<u8>, nonce: Seq<u8>, ciphertext: Seq<u8>) -> Option<Seq<u8>>;

/// Messages that ChaCha20-Poly1305 accepts: fewer than `u32::MAX` blocks of 64 bytes,
/// beyond which the block counter of the stream cipher would overflow.
pub open spec fn chacha20poly1305_accepts(len: nat) -> bool {
    len / 64 < 0xffff_ffff
}

// ------------------------------------------------------------------------------------------------
// Trusted calls into the outside crates.

/// Computes `Blake2s256::digest` of `data` (`blake2` crate).
/// Claimed: the result is the BLAKE2s-256 digest of `data`, a function of `data` alone.
#[verifier::external_body]
fn blake2s256(data: &[u8]) -> (digest: [u8; 32])
    ensures
        digest@ == blake2s256_digest(data@),
{
    let mut hasher = Blake2s256::new();
    hasher.update(data);
    hasher.finalize().into()
}

/// Calls `zstd::encode_all(data, level)` (`zstd` crate).
/// Claimed: the call succeeds and returns the frame named by `zstd_encoded`. The
/// crate hands the level to the C library, which clamps it into its supported range,
/// and reading from a slice and writing into a `Vec` cannot fail.
#[verifier::external_body]
pub(crate) fn zstd_encode_all(data: &[u8], level: i32) -> (frame: Vec<u8>)
    ensures
        frame@ == zstd_encoded(data@, level),
{
    zstd::encode_all(data, level).unwrap_or_default()
}

/// Calls `zstd::decode_all(frame)` (`zstd` crate); an error is turned into its message.
/// Claimed: the call succeeds exactly where `zstd_decoded` names a result, and then
/// returns it; compression is lossless, so a frame written by `zstd::encode_all` for
/// some data decodes to that data.
#[verifier::external_body]
pub(crate) fn zstd_decode_all(frame: &[u8]) -> (r: Result<Vec<u8>, String>)
    ensures
        r is Ok <==> zstd_decoded(frame@) is Some,
        r matches Ok(data) ==> zstd_decoded(frame@) == Some(data@),
        forall|data: Seq<u8>, level: i32|
            frame@ == #[trigger] zstd_encoded(data, level) ==> r is Ok,
        r matches Ok(d) ==> forall|data: Seq<u8>, level: i32|
            frame@ == #[trigger] zstd_encoded(data, level) ==> d@ == data,
{
    zstd::decode_all(frame).map_err(|e| e.to_string())
}

/// Calls `ChaCha20Poly1305::generate_key(&mut OsRng)` (`chacha20poly1305`/`aead` crates).
/// Nothing is claimed of the bytes, which come from the operating system's random
/// source; the call panics only where that source fails.
#[verifier::external_body]
fn random_key() -> (key: [u8; KEY_SIZE]) {
    ChaCha20Poly1305::generate_key(&mut OsRng).into()
}

/// Calls `ChaCha20Poly1305::generate_nonce(&mut OsRng)` (`chacha20poly1305`/`aead` crates).
/// Nothing is claimed of the bytes, which come from the operating system's random
/// source; the call panics only where that source fails.
#[verifier::external_body]
fn random_nonce() -> (nonce: [u8; NONCE_SIZE]) {
    ChaCha20Poly1305::generate_nonce(&mut OsRng).into()
}

/// Calls `Aead::encrypt` of `ChaCha20Poly1305` under `key` and `nonce`, without
/// associated data (`chacha20poly1305` crate).
/// Claimed, as the crate's source shows: the call fails exactly for messages of
/// `u32::MAX` or more 64-byte blocks; otherwise it returns the ciphertext named by
/// `chacha20poly1305_sealed`, which is the message's length plus the 16-byte tag.
#[verifier::external_body]
pub(crate) fn chacha20poly1305_encrypt(key: &[u8; KEY_SIZE], nonce: &[u8; NONCE_SIZE], plaintext: &[u8]) -> (r: Result<Vec<u8>, chacha20poly1305::Error>)
    ensures
        r is Ok <==> chacha20poly1305_accepts(plaintext@.len()),
        r matches Ok(c) ==> c@ == chacha20poly1305_sealed(key@, nonce@, plaintext@),
        r matches Ok(c) ==> c@.len() == plaintext@.len() + TAG_SIZE,
{
    ChaCha20Poly1305::new(Key::from_slice(key)).encrypt(Nonce::from_slice(nonce), plaintext)
}

/// Calls `Aead::decrypt` of `ChaCha20Poly1305` under `key` and `nonce`, without
/// associated data (`chacha20poly1305` crate).
/// Claimed: the call succeeds exactly where `chacha20poly1305_opened` names a
/// plaintext and then returns it; it needs at least the 16 bytes of the tag; and, as
/// the source shows (the same key stream is applied and the same tag recomputed), a
/// ciphertext that `Aead::encrypt` produced for a message under the same key and
/// nonce decrypts to that message.
#[verifier::external_body]
pub(crate) fn chacha20poly1305_decrypt(key: &[u8; KEY_SIZE], nonce: &[u8; NONCE_SIZE], ciphertext: &[u8]) -> (r: Result<Vec<u8>, chacha20poly1305::Error>)
    ensures
        r is Ok <==> chacha20poly1305_opened(key@, nonce@, ciphertext@) is Some,
        r matches Ok(p) ==> chacha20poly1305_opened(key@, nonce@, ciphertext@) == Some(p@),
        r matches Ok(p) ==> ciphertext@.len() == p@.len() + TAG_SIZE,
        forall|p: Seq<u8>|
            chacha20poly1305_accepts(p.len()) && ciphertext@ == #[trigger] chacha20poly1305_sealed(key@, nonce@, p)
                ==> r is Ok,
        r matches Ok(q) ==> forall|p: Seq<u8>|
            ciphertext@ == #[trigger] chacha20poly1305_sealed(key@, nonce@, p)
                && chacha20poly1305_accepts(p.len()) ==> q@ == p,
{
    ChaCha20Poly1305::new(Key::from_slice(key)).decrypt(Nonce::from_slice(nonce), ciphertext)
}

// ------------------------------------------------------------------------------------------------
// The library's functions.

/// Computes a 256-bit BLAKE2s hash of `contents`.
pub fn compute_hash(contents: &[u8]) -> (hash: [u8; 32])
    ensures
        hash@ == blake2s256_digest(contents@),
{
    blake2s256(contents)
}

/// Compresses `contents` with Zstandard at `level` (-7, fastest, to 22, smallest;
/// the default level is 3) before encryption.
pub fn compress(contents: &[u8], level: i32) -> (compressed: Vec<u8>)
    ensures
        compressed@ == zstd_encoded(contents@, level),
{
    zstd_encode_all(contents, level)
}

/// Decompresses a Zstandard frame; fails where the frame is not one.
pub fn decompress(contents: &[u8]) -> (r: Result<Vec<u8>, EncryptionError>)
    ensures
        r is Ok <==> zstd_decoded(contents@) is Some,
        r matches Ok(d) ==> zstd_decoded(contents@) == Some(d@),
        r matches Err(e) ==> e is DecompressionError,
        forall|data: Seq<u8>, level: i32|
            contents@ == #[trigger] zstd_encoded(data, level) ==> (r matches Ok(d) && d@ == data),
{
    match zstd_decode_all(contents) {
        Ok(d) => Ok(d),
        Err(message) => Err(EncryptionError::DecompressionError(message)),
    }
}

/// Generates a random key and nonce for ChaCha20-Poly1305.
pub fn generate_seeds() -> (seeds: ([u8; KEY_SIZE], [u8; NONCE_SIZE])) {
    let key = random_key();
    let nonce = random_nonce();
    (key, nonce)
}

/// Decrypts `contents` with the key and nonce of `fc`; fails where the contents do
/// not authenticate under them.
pub fn decrypt(fc: FileCrypt, contents: &Vec<u8>) -> (r: Result<Vec<u8>, EncryptionError>)
    ensures
        r is Ok <==> chacha20poly1305_opened(fc.key@, fc.nonce@, contents@) is Some,
        r matches Ok(p) ==> chacha20poly1305_opened(fc.key@, fc.nonce@, contents@) == Some(p@),
        r matches Err(e) ==> e is ChaChaError,
        forall|p: Seq<u8>|
            chacha20poly1305_accepts(p.len()) && contents@ == #[trigger] chacha20poly1305_sealed(fc.key@, fc.nonce@, p)
                ==> (r matches Ok(q) && q@ == p),
{
    match chacha20poly1305_decrypt(&fc.key, &fc.nonce, contents.as_slice()) {
        Ok(p) => Ok(p),
        Err(e) => Err(EncryptionError::ChaChaError(e)),
    }
}

/// Encrypts `contents` with the key and nonce of `fc`; fails only for messages too
/// long for the cipher.
pub fn encrypt(fc: &FileCrypt, contents: &[u8]) -> (r: Result<Vec<u8>, EncryptionError>)
    ensures
        r is Ok <==> chacha20poly1305_accepts(contents@.len()),
        r matches Ok(c) ==> c@ == chacha20poly1305_sealed(fc.key@, fc.nonce@, contents@),
        r matches Ok(c) ==> c@.len() == contents@.len() + TAG_SIZE,
        r matches Err(e) ==> e is ChaChaError,
{
    match chacha20poly1305_encrypt(&fc.key, &fc.nonce, contents) {
        Ok(c) => Ok(c),
        Err(e) => Err(EncryptionError::ChaChaError(e)),
    }
}

} // verus!
