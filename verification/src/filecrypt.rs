//! The record kept for each encrypted file, and the `.crypt` framing: an encrypted
//! file is the 36-byte text of a UUID followed by the ChaCha20-Poly1305 ciphertext
//! of the Zstandard-compressed contents.

use chacha20poly1305::aead::rand_core::RngCore;
use chacha20poly1305::aead::OsRng;
use vstd::prelude::*;
use vstd::string::StringSliceAdditionalSpecFns;
use vstd::utf8::{decode_utf8, encode_utf8, valid_utf8};

use crate::encryption::{
    blake2s256_digest, chacha20poly1305_accepts, chacha20poly1305_opened, chacha20poly1305_sealed,
    compress, compute_hash, decompress, decrypt, encrypt, generate_seeds, zstd_decoded, zstd_encoded,
    KEY_SIZE, NONCE_SIZE,
};
use crate::error::{CoreError, EncryptionError, FcError};
use crate::util::text::{decimal, decimal_text};

verus! {

broadcast use vstd::utf8::group_utf8_lib;

/// Length in bytes of the UUID text that prefixes an encrypted file.
pub const UUID_LEN: usize = 36;

/// Cryptographic information associated with an encrypted file.
pub struct FileCrypt {
    /// The UUID that prefixes the encrypted file.
    pub uuid: String,
    /// The file name, without its extension.
    pub filename: String,
    /// The extension, with its leading dot.
    pub ext: String,
    /// The drive ID of the cloud copy, empty where there is none.
    pub drive_id: String,
    /// The full path of the original file.
    pub full_path: String,
    /// The encryption key.
    pub key: [u8; KEY_SIZE],
    /// The nonce.
    pub nonce: [u8; NONCE_SIZE],
    /// The hash of the original contents.
    pub hash: [u8; KEY_SIZE],
}

// ------------------------------------------------------------------------------------------------
// Specification of the framing and of the encryption of a file's contents.

/// Text that can prefix an encrypted file: 36 ASCII characters, as the hyphenated
/// form of a UUID is.
pub open spec fn is_uuid_text(s: Seq<char>) -> bool {
    s.len() == UUID_LEN && vstd::utf8::is_ascii_chars(s)
}

/// A lowercase hexadecimal digit.
pub open spec fn is_lower_hex(c: char) -> bool {
    ('0' <= c <= '9') || ('a' <= c <= 'f')
}

/// The value of a lowercase hexadecimal digit.
pub open spec fn hex_digit_value(c: char) -> nat {
    if '0' <= c <= '9' {
        (c as nat - '0' as nat) as nat
    } else {
        (c as nat - 'a' as nat + 10) as nat
    }
}

/// The value of a text of hexadecimal digits, the most significant first.
pub open spec fn hex_value(s: Seq<char>) -> nat
    decreases s.len(),
{
    if s.len() == 0 {
        0
    } else {
        hex_value(s.drop_last()) * 16 + hex_digit_value(s.last())
    }
}

/// The hyphenated lowercase text of a version 7 UUID made at `millis`: 36 characters,
/// hyphens at 8, 13, 18 and 23 and lowercase hexadecimal digits elsewhere, the version
/// digit `7` at 14, a variant digit `8`, `9`, `a` or `b` at 19, and the low 48 bits of
/// `millis` in the first twelve digits.
pub open spec fn is_uuid_v7_text(s: Seq<char>, millis: u64) -> bool {
    &&& s.len() == UUID_LEN
    &&& forall|i: int| 0 <= i < UUID_LEN ==> (if i == 8 || i == 13 || i == 18 || i == 23 {
        s[i] == '-'
    } else {
        is_lower_hex(#[trigger] s[i])
    })
    &&& s[14] == '7'
    &&& (s[19] == '8' || s[19] == '9' || s[19] == 'a' || s[19] == 'b')
    &&& hex_value(s.subrange(0, 8) + s.subrange(9, 13)) == millis as nat % 0x1_0000_0000_0000
}

/// The text of a version 7 UUID is a UUID text: 36 ASCII characters.
pub proof fn lemma_uuid_v7_text_is_uuid_text(s: Seq<char>, millis: u64)
    requires
        is_uuid_v7_text(s, millis),
    ensures
        is_uuid_text(s),
{
    assert forall|i: int| 0 <= i < s.len() implies '\0' <= #[trigger] s[i] <= '\u{7f}' by {
        if !(i == 8 || i == 13 || i == 18 || i == 23) {
            assert(is_lower_hex(s[i]));
        }
    }
}

/// An encrypted file: the UTF-8 bytes of `uuid` followed by `ciphertext`.
pub open spec fn crypt_frame(uuid: Seq<char>, ciphertext: Seq<u8>) -> Seq<u8> {
    encode_utf8(uuid) + ciphertext
}

/// The text that `String::from_utf8_lossy` makes of `bytes` (invalid sequences
/// replaced by U+FFFD).
pub uninterp spec fn utf8_lossy(bytes: Seq<u8>) -> Seq<char>;

/// The text of a byte sequence: its decoding where it is valid UTF-8, and its lossy
/// decoding otherwise.
pub open spec fn bytes_text(bytes: Seq<u8>) -> Seq<char> {
    if valid_utf8(bytes) {
        decode_utf8(bytes)
    } else {
        utf8_lossy(bytes)
    }
}

/// The UUID text that prefixes an encrypted file.
pub open spec fn uuid_of(contents: Seq<u8>) -> Seq<char> {
    bytes_text(contents.take(UUID_LEN as int))
}

/// What follows the UUID in an encrypted file.
pub open spec fn after_uuid(contents: Seq<u8>) -> Seq<u8> {
    contents.skip(UUID_LEN as int)
}

/// The encrypted file that `fc` makes of `contents` at compression `level`: the
/// contents are compressed, encrypted under the key and nonce of `fc`, and framed
/// with the UUID of `fc`.
pub open spec fn sealed_file(fc: FileCrypt, contents: Seq<u8>, level: i32) -> Seq<u8> {
    crypt_frame(fc.uuid@, chacha20poly1305_sealed(fc.key@, fc.nonce@, zstd_encoded(contents, level)))
}

/// Whether the compressed `contents` are short enough to be encrypted.
pub open spec fn encryptable(contents: Seq<u8>, level: i32) -> bool {
    chacha20poly1305_accepts(zstd_encoded(contents, level).len())
}

/// The contents recovered from an encrypted file by `fc`: the ciphertext after the
/// UUID is authenticated and decrypted, then decompressed, and its hash checked
/// against the one `fc` recorded. `None` where a step fails.
pub open spec fn recovered(fc: FileCrypt, file: Seq<u8>) -> Option<Seq<u8>> {
    if file.len() < UUID_LEN {
        None
    } else {
        match chacha20poly1305_opened(fc.key@, fc.nonce@, after_uuid(file)) {
            None => None,
            Some(compressed) => match zstd_decoded(compressed) {
                None => None,
                Some(contents) => if blake2s256_digest(contents) == fc.hash@ {
                    Some(contents)
                } else {
                    None
                },
            },
        }
    }
}

/// The hyphenated lowercase text of the version 7 UUID that `uuid::Builder` makes of
/// a Unix timestamp in milliseconds and 10 random bytes.
pub uninterp spec fn uuid_v7_text(millis: u64, random: Seq<u8>) -> Seq<char>;

// ------------------------------------------------------------------------------------------------
// Trusted calls.

/// Reads `SystemTime::now()` as milliseconds since the Unix epoch (a fixed fallback
/// where the clock reads before the epoch). Nothing is claimed of the value.
#[verifier::external_body]
fn unix_time_millis() -> (millis: u64) {
    let ts = std::time::SystemTime::now()
        .duration_since(std::time::SystemTime::UNIX_EPOCH)
        .unwrap_or(std::time::Duration::new(63871342634, 0));
    u64::try_from(ts.as_millis()).unwrap_or(u64::MAX)
}

/// Fills 10 bytes with `OsRng::fill_bytes` (`rand_core`, re-exported by
/// `chacha20poly1305::aead`). Nothing is claimed of the bytes; the call panics only
/// where the operating system's random source fails.
#[verifier::external_body]
fn random_uuid_bytes() -> (bytes: [u8; 10]) {
    let mut bytes = [0u8; 10];
    OsRng.fill_bytes(&mut bytes);
    bytes
}

/// Calls `uuid::Builder::from_unix_timestamp_millis(millis, random).into_uuid().to_string()`
/// (`uuid` crate). Claimed: the text is named by `uuid_v7_text`; as the crate's
/// builder and `Display` show, it is the 36-character hyphenated lowercase hexadecimal
/// form, with the version digit 7, an RFC 4122 variant digit, and the low 48 bits of
/// `millis` in front. Which of the variant digits comes, and the other digits, are left
/// to the name.
#[verifier::external_body]
fn uuid_v7_string(millis: u64, random: &[u8; 10]) -> (text: String)
    ensures
        text@ == uuid_v7_text(millis, random@),
        is_uuid_v7_text(text@, millis),
{
    uuid::Builder::from_unix_timestamp_millis(millis, random).into_uuid().to_string()
}

/// Calls `String::from_utf8` (std); the error is dropped.
/// Claimed, as documented: it succeeds exactly on valid UTF-8, with the decoded text.
#[verifier::external_body]
pub(crate) fn string_from_utf8(bytes: Vec<u8>) -> (r: Option<String>)
    ensures
        r is Some <==> valid_utf8(bytes@),
        r matches Some(s) ==> s@ == decode_utf8(bytes@),
{
    String::from_utf8(bytes).ok()
}

/// Calls `String::from_utf8_lossy` (std) and takes the text as a `String`.
/// Claimed: the text is named by `utf8_lossy`, and on valid UTF-8 it is the decoded
/// text, as documented.
#[verifier::external_body]
fn string_from_utf8_lossy(bytes: &[u8]) -> (s: String)
    ensures
        s@ == utf8_lossy(bytes@),
        valid_utf8(bytes@) ==> s@ == decode_utf8(bytes@),
{
    String::from_utf8_lossy(bytes).to_string()
}

// ------------------------------------------------------------------------------------------------

impl FileCrypt {
    /// Creates a `FileCrypt` with a random key and nonce and a new UUID.
    pub fn new(filename: String, ext: String, drive_id: String, full_path: String, hash: [u8; KEY_SIZE]) -> (fc: Self)
        ensures
            fc.filename == filename,
            fc.ext == ext,
            fc.drive_id == drive_id,
            fc.full_path == full_path,
            fc.hash == hash,
            is_uuid_text(fc.uuid@),
            exists|millis: u64, random: Seq<u8>| random.len() == 10 && fc.uuid@ == #[trigger] uuid_v7_text(millis, random)
                && is_uuid_v7_text(fc.uuid@, millis),
    {
        let (key, nonce) = generate_seeds();
        let uuid = generate_uuid();
        FileCrypt { uuid, filename, ext, drive_id, full_path, key, nonce, hash }
    }

    /// Sets the drive ID of the cloud copy.
    pub fn set_drive_id(&mut self, drive_id: String)
        ensures
            *final(self) == (FileCrypt { drive_id, ..*old(self) }),
    {
        self.drive_id = drive_id;
    }
}

/// Generates a version 7 UUID from the current time and random bytes, as text.
pub fn generate_uuid() -> (uuid: String)
    ensures
        is_uuid_text(uuid@),
        exists|millis: u64, random: Seq<u8>| random.len() == 10 && uuid@ == #[trigger] uuid_v7_text(millis, random)
            && is_uuid_v7_text(uuid@, millis),
{
    let millis = unix_time_millis();
    let random = random_uuid_bytes();
    let uuid = uuid_v7_string(millis, &random);
    proof {
        lemma_uuid_v7_text_is_uuid_text(uuid@, millis);
    }
    uuid
}

/// Splits an encrypted file into the UUID text that prefixes it and the rest; fails
/// where the contents are shorter than the 36 bytes of the UUID. Bytes that are not
/// valid UTF-8 are replaced as `String::from_utf8_lossy` does.
pub fn get_uuid(contents: &[u8]) -> (r: Result<(String, Vec<u8>), FcError>)
    ensures
        r is Err <==> contents@.len() < UUID_LEN,
        r matches Err(e) ==> e is UuidError,
        r matches Ok((uuid, rest)) ==> uuid@ == uuid_of(contents@) && rest@ == after_uuid(contents@),
{
    if contents.len() < UUID_LEN {
        return Err(FcError::UuidError);
    }
    let (uuid, rest) = contents.split_at(UUID_LEN);
    let text = match string_from_utf8(vstd::slice::slice_to_vec(uuid)) {
        Some(s) => s,
        None => string_from_utf8_lossy(uuid),
    };
    Ok((text, vstd::slice::slice_to_vec(rest)))
}

/// Prepends the UTF-8 bytes of `uuid` to the encrypted contents, which are left as
/// they are.
pub fn prepend_uuid(uuid: &str, encrypted_contents: &mut [u8]) -> (framed: Vec<u8>)
    ensures
        framed@ == crypt_frame(uuid@, old(encrypted_contents)@),
        final(encrypted_contents)@ == old(encrypted_contents)@,
{
    let mut framed = vstd::slice::slice_to_vec(uuid.as_bytes());
    let mut i: usize = 0;
    while i < encrypted_contents.len()
        invariant
            0 <= i <= encrypted_contents@.len(),
            framed@ == uuid.spec_bytes() + encrypted_contents@.take(i as int),
        decreases encrypted_contents@.len() - i,
    {
        framed.push(encrypted_contents[i]);
        i += 1;
        assert(encrypted_contents@.take(i as int) == encrypted_contents@.take(i - 1) + seq![encrypted_contents@[i - 1]]);
    }
    assert(encrypted_contents@.take(i as int) == encrypted_contents@);
    framed
}

/// A copy of a `FileCrypt`, field by field.
impl Clone for FileCrypt {
    fn clone(&self) -> (copy: Self)
        ensures
            copy == *self,
    {
        FileCrypt {
            uuid: self.uuid.clone(),
            filename: self.filename.clone(),
            ext: self.ext.clone(),
            drive_id: self.drive_id.clone(),
            full_path: self.full_path.clone(),
            key: self.key,
            nonce: self.nonce,
            hash: self.hash,
        }
    }
}

impl Default for FileCrypt {
    /// A record with empty texts and zero key, nonce and hash.
    fn default() -> (fc: Self)
        ensures
            fc.uuid@ == Seq::<char>::empty(),
            fc.filename@ == Seq::<char>::empty(),
            fc.ext@ == Seq::<char>::empty(),
            fc.drive_id@ == Seq::<char>::empty(),
            fc.full_path@ == Seq::<char>::empty(),
            fc.key@ == Seq::new(KEY_SIZE as nat, |i: int| 0u8),
            fc.nonce@ == Seq::new(NONCE_SIZE as nat, |i: int| 0u8),
            fc.hash@ == Seq::new(KEY_SIZE as nat, |i: int| 0u8),
    {
        let fc = FileCrypt {
            uuid: String::new(),
            filename: String::new(),
            ext: String::new(),
            drive_id: String::new(),
            full_path: String::new(),
            key: [0u8; KEY_SIZE],
            nonce: [0u8; NONCE_SIZE],
            hash: [0u8; KEY_SIZE],
        };
        assert(fc.key@ =~= Seq::new(KEY_SIZE as nat, |i: int| 0u8));
        assert(fc.nonce@ =~= Seq::new(NONCE_SIZE as nat, |i: int| 0u8));
        assert(fc.hash@ =~= Seq::new(KEY_SIZE as nat, |i: int| 0u8));
        fc
    }
}

/// Whether two hashes are equal, byte by byte.
fn hashes_equal(a: &[u8; KEY_SIZE], b: &[u8; KEY_SIZE]) -> (equal: bool)
    ensures
        equal == (a@ == b@),
{
    let mut i: usize = 0;
    while i < KEY_SIZE
        invariant
            0 <= i <= KEY_SIZE,
            forall|j: int| 0 <= j < i ==> a@[j] == b@[j],
        decreases KEY_SIZE - i,
    {
        if a[i] != b[i] {
            return false;
        }
        i += 1;
    }
    assert(a@ =~= b@);
    true
}

/// Creates the record of a file from its name, extension and full path, with the hash
/// of its contents, a random key and nonce, a new UUID and no drive ID.
pub fn create_file_crypt(filename: String, extension: String, fp: String, contents: &[u8]) -> (fc: FileCrypt)
    ensures
        fc.filename == filename,
        fc.ext == extension,
        fc.full_path == fp,
        fc.drive_id@ == Seq::<char>::empty(),
        fc.hash@ == blake2s256_digest(contents@),
        is_uuid_text(fc.uuid@),
{
    let hash = compute_hash(contents);
    FileCrypt::new(filename, extension, String::new(), fp, hash)
}

/// Compresses contents before encryption, at the configured Zstandard level.
pub fn compress_contents(contents: &[u8], zstd_level: i32) -> (compressed: Vec<u8>)
    ensures
        compressed@ == zstd_encoded(contents@, zstd_level),
{
    compress(contents, zstd_level)
}

/// Encrypts (compressed) contents with the key and nonce of `fc`.
pub fn encrypt_contents(fc: &FileCrypt, contents: &[u8]) -> (encrypted: Vec<u8>)
    requires
        chacha20poly1305_accepts(contents@.len()),
    ensures
        encrypted@ == chacha20poly1305_sealed(fc.key@, fc.nonce@, contents@),
{
    match encrypt(fc, contents) {
        Ok(c) => c,
        Err(_) => {
            proof {
                assert(false);
            }
            Vec::new()
        },
    }
}

/// Replaces the encrypted contents by the same contents prefixed with `uuid`.
pub fn prepend_uuid_to_contents(uuid: &str, encrypted_contents: &mut Vec<u8>)
    ensures
        final(encrypted_contents)@ == crypt_frame(uuid@, old(encrypted_contents)@),
{
    let framed = prepend_uuid(uuid, encrypted_contents.as_mut_slice());
    *encrypted_contents = framed;
}

/// Encrypts the contents of a file: records the file (name, extension, full path and
/// hash of the contents) with a fresh key, nonce and UUID, compresses the contents at
/// `zstd_level`, encrypts them and prefixes them with the UUID. Returns the record, to
/// be kept, and the encrypted file, to be written to the crypt folder.
pub fn encrypt_file(fp: String, filename: String, extension: String, contents: &[u8], zstd_level: i32) -> (r: (FileCrypt, Vec<u8>))
    requires
        encryptable(contents@, zstd_level),
    ensures
        r.0.filename == filename,
        r.0.ext == extension,
        r.0.full_path == fp,
        r.0.drive_id@ == Seq::<char>::empty(),
        r.0.hash@ == blake2s256_digest(contents@),
        is_uuid_text(r.0.uuid@),
        r.1@ == sealed_file(r.0, contents@, zstd_level),
{
    let fc = create_file_crypt(filename, extension, fp, contents);
    let compressed_contents = compress_contents(contents, zstd_level);
    let mut encrypted_contents = encrypt_contents(&fc, compressed_contents.as_slice());
    prepend_uuid_to_contents(fc.uuid.as_str(), &mut encrypted_contents);
    (fc, encrypted_contents)
}

/// Encrypts the contents of a file as `encrypt_file` does, and fails instead where the
/// compressed contents are too long for the cipher.
pub fn do_file_encryption(fp: String, filename: String, extension: String, contents: &[u8], zstd_level: i32) -> (r: Result<(FileCrypt, Vec<u8>), CoreError>)
    ensures
        r is Ok <==> encryptable(contents@, zstd_level),
        r matches Err(e) ==> e matches CoreError::EncryptionError(EncryptionError::ChaChaError(_)),
        r matches Ok((fc, encrypted)) ==> {
            &&& fc.filename == filename
            &&& fc.ext == extension
            &&& fc.full_path == fp
            &&& fc.drive_id@ == Seq::<char>::empty()
            &&& fc.hash@ == blake2s256_digest(contents@)
            &&& is_uuid_text(fc.uuid@)
            &&& encrypted@ == sealed_file(fc, contents@, zstd_level)
        },
{
    let compressed = compress_contents(contents, zstd_level);
    if compressed.len() / 64 < 0xffff_ffff {
        Ok(encrypt_file(fp, filename, extension, contents, zstd_level))
    } else {
        let fc = create_file_crypt(filename, extension, fp, contents);
        match encrypt(&fc, compressed.as_slice()) {
            Ok(mut encrypted) => {
                prepend_uuid_to_contents(fc.uuid.as_str(), &mut encrypted);
                Ok((fc, encrypted))
            },
            Err(e) => Err(CoreError::EncryptionError(e)),
        }
    }
}

/// Which error a decryption with `fc` ends in, once the ciphertext after the UUID has
/// been opened to `compressed`: a decompression error where it is no Zstandard frame,
/// and a hash failure, with the recorded hash and the computed one, where the hash of
/// what it decompresses to is not the recorded one.
pub open spec fn opened_failure(fc: FileCrypt, compressed: Seq<u8>, r: Result<Vec<u8>, CoreError>) -> bool {
    match zstd_decoded(compressed) {
        None => r matches Err(CoreError::FcError(FcError::DecompressionError(_))),
        Some(d) => blake2s256_digest(d) != fc.hash@ ==> (r matches Err(CoreError::FcError(FcError::HashFail(expected, computed)))
            && expected == fc.hash && computed@ == blake2s256_digest(d)),
    }
}

/// Decrypts an encrypted file with its record `fc`: strips the UUID, decrypts and
/// decompresses the rest, and checks the hash of the result against the recorded one.
/// Returns the original contents, to be written out.
pub fn decrypt_contents(fc: FileCrypt, contents: Vec<u8>) -> (r: Result<Vec<u8>, CoreError>)
    requires
        contents@.len() >= UUID_LEN ==> chacha20poly1305_opened(fc.key@, fc.nonce@, after_uuid(contents@)) is Some,
    ensures
        r is Ok <==> recovered(fc, contents@) is Some,
        r matches Ok(d) ==> recovered(fc, contents@) == Some(d@),
        contents@.len() < UUID_LEN ==> r matches Err(CoreError::FcError(FcError::UuidError)),
        contents@.len() >= UUID_LEN ==> opened_failure(
            fc,
            chacha20poly1305_opened(fc.key@, fc.nonce@, after_uuid(contents@))->Some_0,
            r,
        ),
        r matches Err(e) ==> {
            ||| e matches CoreError::FcError(FcError::UuidError)
            ||| e matches CoreError::FcError(FcError::DecompressionError(_))
            ||| e matches CoreError::FcError(FcError::HashFail(expected, computed)) && expected == fc.hash
        },
        forall|original: Seq<u8>, level: i32|
            contents@ == #[trigger] sealed_file(fc, original, level) && is_uuid_text(fc.uuid@)
                && encryptable(original, level) && fc.hash@ == blake2s256_digest(original)
                ==> (r matches Ok(d) && d@ == original),
{
    let fc_hash: [u8; 32] = fc.hash;
    let (_uuid, stripped_contents) = match get_uuid(contents.as_slice()) {
        Ok(split) => split,
        Err(e) => return Err(CoreError::FcError(e)),
    };
    let ghost fc0 = fc;
    let compressed = match decrypt(fc, &stripped_contents) {
        Ok(c) => c,
        Err(_) => {
            proof {
                assert(false);
            }
            return Err(CoreError::FcError(FcError::UuidError));
        },
    };
    let decrypted_content = match decompress(compressed.as_slice()) {
        Ok(d) => d,
        Err(EncryptionError::DecompressionError(message)) => {
            proof {
                assert forall|original: Seq<u8>, level: i32|
                    contents@ == #[trigger] sealed_file(fc0, original, level) && is_uuid_text(fc0.uuid@)
                        && encryptable(original, level) && fc0.hash@ == blake2s256_digest(original)
                    implies false by {
                    lemma_uuid_text_len(fc0.uuid@);
                    lemma_frame_roundtrip(fc0.uuid@, chacha20poly1305_sealed(fc0.key@, fc0.nonce@, zstd_encoded(original, level)));
                    assert(compressed@ == zstd_encoded(original, level));
                }
            }
            return Err(CoreError::FcError(FcError::DecompressionError(message)));
        },
        Err(EncryptionError::ChaChaError(_)) => {
            proof {
                assert(false);
            }
            return Err(CoreError::FcError(FcError::UuidError));
        },
    };
    let hash = compute_hash(decrypted_content.as_slice());
    if !hashes_equal(&hash, &fc_hash) {
        proof {
            assert forall|original: Seq<u8>, level: i32|
                contents@ == #[trigger] sealed_file(fc0, original, level) && is_uuid_text(fc0.uuid@)
                    && encryptable(original, level) && fc0.hash@ == blake2s256_digest(original)
                implies false by {
                lemma_uuid_text_len(fc0.uuid@);
                lemma_frame_roundtrip(fc0.uuid@, chacha20poly1305_sealed(fc0.key@, fc0.nonce@, zstd_encoded(original, level)));
                assert(compressed@ == zstd_encoded(original, level));
                assert(decrypted_content@ == original);
            }
        }
        return Err(CoreError::FcError(FcError::HashFail(fc_hash, hash)));
    }
    proof {
        assert forall|original: Seq<u8>, level: i32|
            contents@ == #[trigger] sealed_file(fc0, original, level) && is_uuid_text(fc0.uuid@)
                && encryptable(original, level) && fc0.hash@ == blake2s256_digest(original)
            implies decrypted_content@ == original by {
            lemma_uuid_text_len(fc0.uuid@);
            lemma_frame_roundtrip(fc0.uuid@, chacha20poly1305_sealed(fc0.key@, fc0.nonce@, zstd_encoded(original, level)));
        }
    }
    Ok(decrypted_content)
}

/// Decrypts an encrypted file with its record `fc` as `decrypt_contents` does, and
/// fails instead where the ciphertext does not authenticate under the key and nonce.
pub fn decrypt_file(fc: FileCrypt, content: &[u8]) -> (r: Result<Vec<u8>, CoreError>)
    ensures
        r is Ok <==> recovered(fc, content@) is Some,
        r matches Ok(d) ==> recovered(fc, content@) == Some(d@),
        content@.len() < UUID_LEN ==> r matches Err(CoreError::FcError(FcError::UuidError)),
        content@.len() >= UUID_LEN ==> match chacha20poly1305_opened(fc.key@, fc.nonce@, after_uuid(content@)) {
            None => r matches Err(CoreError::EncryptionError(EncryptionError::ChaChaError(_))),
            Some(compressed) => opened_failure(fc, compressed, r),
        },
        r matches Err(e) ==> {
            ||| e matches CoreError::FcError(FcError::UuidError)
            ||| e matches CoreError::EncryptionError(EncryptionError::ChaChaError(_))
            ||| e matches CoreError::FcError(FcError::DecompressionError(_))
            ||| e matches CoreError::FcError(FcError::HashFail(expected, computed)) && expected == fc.hash
        },
        forall|original: Seq<u8>, level: i32|
            content@ == #[trigger] sealed_file(fc, original, level) && is_uuid_text(fc.uuid@)
                && encryptable(original, level) && fc.hash@ == blake2s256_digest(original)
                ==> (r matches Ok(d) && d@ == original),
{
    let (_uuid, contents) = match get_uuid(content) {
        Ok(split) => split,
        Err(e) => return Err(CoreError::FcError(e)),
    };
    match decrypt(fc.clone(), &contents) {
        Ok(_) => decrypt_contents(fc, vstd::slice::slice_to_vec(content)),
        Err(e) => {
            proof {
                assert forall|original: Seq<u8>, level: i32|
                    content@ == #[trigger] sealed_file(fc, original, level) && is_uuid_text(fc.uuid@)
                        && encryptable(original, level) && fc.hash@ == blake2s256_digest(original)
                    implies false by {
                    lemma_uuid_text_len(fc.uuid@);
                    lemma_frame_roundtrip(fc.uuid@, chacha20poly1305_sealed(fc.key@, fc.nonce@, zstd_encoded(original, level)));
                }
            }
            Err(CoreError::EncryptionError(e))
        },
    }
}

/// Splits a file name at its first dot: the part before it, and the extension from
/// the dot on.
pub fn split_file_name(name: &str) -> (parts: (String, String))
    requires
        name@.contains('.'),
    ensures
        parts.0@ + parts.1@ == name@,
        parts.1@.len() > 0 && parts.1@[0] == '.',
        !parts.0@.contains('.'),
{
    let n = name.unicode_len();
    let mut i: usize = 0;
    while i < n && name.get_char(i) != '.'
        invariant
            n == name@.len(),
            0 <= i <= n,
            name@.contains('.'),
            forall|j: int| 0 <= j < i ==> name@[j] != '.',
        decreases n - i,
    {
        i += 1;
    }
    if i == n {
        proof {
            let k = choose|k: int| 0 <= k < name@.len() && name@[k] == '.';
            assert(name@[k] != '.');
        }
    }
    let filename = name.substring_char(0, i).to_owned();
    let extension = name.substring_char(i, n).to_owned();
    proof {
        assert(filename@ + extension@ =~= name@);
        assert forall|j: int| 0 <= j < filename@.len() implies filename@[j] != '.' by {}
    }
    (filename, extension)
}

/// Takes a file's path apart: its full path, the path of its parent, its name up to
/// the first dot, and the rest of its name (the extension, with its dot). The full
/// path, the parent and the name are read from the file system by the caller.
pub fn get_file_info(full_path: String, parent: String, name: &str) -> (info: (String, String, String, String))
    requires
        name@.contains('.'),
    ensures
        info.0 == full_path,
        info.1 == parent,
        info.2@ + info.3@ == name@,
        info.3@.len() > 0 && info.3@[0] == '.',
        !info.2@.contains('.'),
{
    let (filename, extension) = split_file_name(name);
    (full_path, parent, filename, extension)
}

/// The name, within the crypt folder, of the encrypted copy of a file: its name with
/// `.crypt`, below the folder `output` (joined with a slash) where one is given.
pub open spec fn crypt_file_text(filename: Seq<char>, output: Option<Seq<char>>) -> Seq<char> {
    match output {
        Some(o) => o + seq!['/'] + filename + ".crypt"@,
        None => filename + ".crypt"@,
    }
}

/// The name, within the crypt folder, of the encrypted copy of a file.
pub fn crypt_file_name(filename: &str, output: &Option<String>) -> (name: String)
    ensures
        name@ == crypt_file_text(filename@, match output {
            Some(o) => Some(o@),
            None => None,
        }),
{
    match output {
        Some(o) => {
            let mut name = o.clone();
            let separator = "/";
            proof {
                reveal_strlit("/");
                assert(separator@ =~= seq!['/']);
            }
            name.append(separator);
            name.append(filename);
            name.append(".crypt");
            name
        },
        None => {
            let mut name = String::from_str(filename);
            name.append(".crypt");
            name
        },
    }
}

/// The name tried for a decrypted file when its own name is taken, in the parent
/// folder: the file's name with `-decrypted` before its extension at the first try
/// (`counter` 0), and with a counter in brackets after that at the later ones.
pub open spec fn numbered_file_text(parent: Seq<char>, filename: Seq<char>, counter: u64, ext: Seq<char>) -> Seq<char> {
    parent + seq!['/'] + filename + "-decrypted"@ + (if counter == 0 {
        Seq::<char>::empty()
    } else {
        seq!['('] + decimal(counter as nat) + seq![')']
    }) + ext
}

/// The name tried for a decrypted file when its own name is taken.
pub fn numbered_file(parent: &str, filename: &str, counter: u64, ext: &str) -> (name: String)
    ensures
        name@ == numbered_file_text(parent@, filename@, counter, ext@),
{
    proof {
        reveal_strlit("/");
        reveal_strlit("(");
        reveal_strlit(")");
    }
    let mut name = String::from_str(parent);
    name.append("/");
    name.append(filename);
    name.append("-decrypted");
    if counter > 0 {
        name.append("(");
        let number = decimal_text(counter);
        name.append(number.as_str());
        name.append(")");
    }
    name.append(ext);
    proof {
        assert(name@ =~= numbered_file_text(parent@, filename@, counter, ext@));
    }
    name
}

/// The framing law: the UUID and the contents that `prepend_uuid` framed are what
/// `get_uuid` splits the frame back into, for every UUID text of 36 bytes.
pub proof fn lemma_frame_roundtrip(uuid: Seq<char>, ciphertext: Seq<u8>)
    requires
        encode_utf8(uuid).len() == UUID_LEN,
    ensures
        crypt_frame(uuid, ciphertext).len() >= UUID_LEN,
        uuid_of(crypt_frame(uuid, ciphertext)) == uuid,
        after_uuid(crypt_frame(uuid, ciphertext)) == ciphertext,
{
    let frame = crypt_frame(uuid, ciphertext);
    assert(frame.take(UUID_LEN as int) == encode_utf8(uuid));
    assert(frame.skip(UUID_LEN as int) == ciphertext);
}

/// The text of a UUID is 36 bytes long in UTF-8.
pub proof fn lemma_uuid_text_len(uuid: Seq<char>)
    requires
        is_uuid_text(uuid),
    ensures
        encode_utf8(uuid).len() == UUID_LEN,
{
    vstd::utf8::is_ascii_chars_encode_utf8(uuid);
}

} // verus!
