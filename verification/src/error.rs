//! Errors of the library.

use vstd::prelude::*;

verus! {

/// The error type of `std::io`.
#[verifier::external_type_specification]
#[verifier::external_body]
pub struct ExIoError(std::io::Error);

/// Errors of the encryption primitives.
#[derive(Debug)]
pub enum EncryptionError {
    /// ChaCha20-Poly1305 refused the message or the ciphertext.
    ChaChaError(chacha20poly1305::Error),
    /// The contents were not a Zstandard frame; the message says why.
    DecompressionError(String),
}

/// Errors met while encrypting or decrypting a file.
#[derive(Debug)]
pub enum FcError {
    /// The hash of the decrypted contents (second) differs from the recorded one (first).
    HashFail([u8; 32], [u8; 32]),
    /// The provided file path is invalid.
    InvalidFilePath,
    /// The record of the file could not be found.
    CryptQueryError,
    /// The decrypted contents could not be decompressed.
    DecompressionError(String),
    /// The original file could not be deleted.
    FileDeletionError(std::io::Error, String),
    /// The file could not be read.
    FileReadError,
    /// An error occurred while reading or writing the file.
    FileError(String),
    /// The contents could not be decrypted.
    DecryptError(String),
    /// Any other error.
    GeneralError(String),
    /// The contents are too short to hold the UUID that prefixes an encrypted file.
    UuidError,
}

/// Errors of the library's file operations.
#[derive(Debug)]
pub enum CoreError {
    /// An error of the file encryption steps.
    FcError(FcError),
    /// An error of the encryption primitives.
    EncryptionError(EncryptionError),
}

/// Errors of the cloud commands.
#[derive(Debug)]
pub enum CloudError {
    /// The crypt folder of the cloud could not be accessed.
    RemoteCryptDirectoryAccessError,
    /// The runtime could not be started.
    RuntimeError(std::io::Error),
}

} // verus!
