//! Hashing, compression and encryption, which outside crates perform.

use crate::calls;
use aes_gcm::aead::{Aead, KeyInit, OsRng};
use aes_gcm::{AeadCore, Aes256Gcm, Nonce};
use sha2::{Digest, Sha256};
use vstd::prelude::*;

verus! {

/// The length of an AES-256 key in bytes.
pub const KEY_LEN: usize = 32;

/// The length of an AES-GCM nonce in bytes.
pub const NONCE_LEN: usize = 12;

/// The length of an AES-GCM authentication tag in bytes.
pub const TAG_LEN: usize = 16;

/// The length of a SHA-256 digest in bytes.
pub const DIGEST_LEN: usize = 32;

/// The longest plaintext that AES-GCM accepts: 2^36 bytes.
pub const MAX_PLAINTEXT: u64 = 68_719_476_736;

/// The SHA-256 digest of bytes.
pub uninterp spec fn sha256(data: Seq<u8>) -> Seq<u8>;

/// The Zstandard frame that compressing bytes at a level gives.
pub uninterp spec fn zstd_frame(data: Seq<u8>, level: i32) -> Seq<u8>;

/// The AES-256-GCM ciphertext of a plaintext under a key and a nonce, without associated data,
/// followed by its authentication tag.
pub uninterp spec fn aes256_gcm(key: Seq<u8>, nonce: Seq<u8>, plaintext: Seq<u8>) -> Seq<u8>;

/// What a Zstandard frame holds: the bytes whose compression gives it, at whatever level.
pub open spec fn unzstd(frame: Seq<u8>) -> Seq<u8> {
    (choose|data: Seq<u8>, level: i32| #[trigger] zstd_frame(data, level) == frame).0
}

/// What an AES-256-GCM ciphertext holds: the plaintext whose encryption under the key and the
/// nonce gives it.
pub open spec fn aes256_gcm_open(key: Seq<u8>, nonce: Seq<u8>, ciphertext: Seq<u8>) -> Seq<u8> {
    choose|plaintext: Seq<u8>|
        plaintext.len() <= MAX_PLAINTEXT && #[trigger] aes256_gcm(key, nonce, plaintext)
            == ciphertext
}

/// Hashes bytes: `sha2::Sha256`. The digest has 32 bytes and is a function of the data.
#[verifier::external_body]
pub(crate) fn sha256_digest(data: &[u8]) -> (digest: Vec<u8>)
    ensures
        digest@ == sha256(data@),
        digest@.len() == DIGEST_LEN,
{
    let mut hasher = Sha256::new();
    hasher.update(data);
    hasher.finalize().to_vec()
}

/// Compresses bytes: `zstd::encode_all`. What it writes is a function of the data and the
/// level, and loses nothing: no other data has the same frame, at any level. Whether it succeeds
/// rests on the memory that the encoder can get, so success is not promised.
#[verifier::external_body]
fn zstd_encode(data: &[u8], level: i32) -> (frame: Option<Vec<u8>>)
    ensures
        frame matches Some(bytes) ==> bytes@ == zstd_frame(data@, level),
        frame matches Some(bytes) ==> forall|other: Seq<u8>, l: i32| #[trigger]
            zstd_frame(other, l) == bytes@ ==> other == data@,
{
    zstd::encode_all(data, level).ok()
}

/// Tries a key: `aes_gcm::Aes256Gcm::new_from_slice`. It accepts exactly the keys of 32 bytes.
#[verifier::external_body]
pub(crate) fn key_fits(key: &[u8]) -> (r: bool)
    ensures
        r == (key@.len() == KEY_LEN),
{
    Aes256Gcm::new_from_slice(key).is_ok()
}

/// Draws a nonce: `aes_gcm::Aes256Gcm::generate_nonce` with the system's random source. It has
/// 12 bytes. Which ones is left to chance.
#[verifier::external_body]
fn random_nonce() -> (nonce: Vec<u8>)
    ensures
        nonce@.len() == NONCE_LEN,
{
    Aes256Gcm::generate_nonce(&mut OsRng).to_vec()
}

/// Encrypts bytes: `aes_gcm::Aes256Gcm::encrypt`. It succeeds exactly on plaintexts of at most
/// 2^36 bytes. The result is a function of key, nonce and plaintext, and longer than the
/// plaintext by the tag. It loses nothing: no other plaintext that can be encrypted has the same
/// ciphertext under the key and the nonce.
#[verifier::external_body]
pub(crate) fn aes256_gcm_encrypt(key: &[u8], nonce: &[u8], plaintext: &[u8]) -> (r: Option<Vec<u8>>)
    requires
        key@.len() == KEY_LEN,
        nonce@.len() == NONCE_LEN,
    ensures
        r is Some == (plaintext@.len() <= MAX_PLAINTEXT),
        r matches Some(ciphertext) ==> ciphertext@ == aes256_gcm(key@, nonce@, plaintext@),
        r matches Some(ciphertext) ==> ciphertext@.len() == plaintext@.len() + TAG_LEN,
        r matches Some(ciphertext) ==> forall|other: Seq<u8>|
            other.len() <= MAX_PLAINTEXT && #[trigger] aes256_gcm(key@, nonce@, other)
                == ciphertext@ ==> other == plaintext@,
{
    let cipher = Aes256Gcm::new_from_slice(key).ok()?;
    cipher.encrypt(Nonce::from_slice(nonce), plaintext).ok()
}

/// Whether the compressor may fail on bytes at a level.
pub closed spec fn zstd_may_fail(data: Seq<u8>, level: i32) -> bool {
    exists|bytes: &[u8]| bytes@ == data && call_ensures(zstd_encode, (bytes, level), None)
}

/// Compresses bytes.
pub(crate) fn compress(data: &[u8], level: i32) -> (frame: Option<Vec<u8>>)
    ensures
        frame matches Some(bytes) ==> bytes@ == zstd_frame(data@, level),
        frame matches Some(bytes) ==> unzstd(bytes@) == data@,
        frame is None ==> zstd_may_fail(data@, level),
{
    calls::call_on_bytes(&zstd_encode, data, level)
}

/// Whether a nonce is one that the random source gave.
pub closed spec fn is_drawn(nonce: Seq<u8>) -> bool {
    exists|bytes: Vec<u8>| bytes@ == nonce && call_ensures(random_nonce, (), bytes)
}

/// Draws a nonce.
pub(crate) fn draw_nonce() -> (nonce: Vec<u8>)
    ensures
        nonce@.len() == NONCE_LEN,
        is_drawn(nonce@),
{
    calls::call_plain(&random_nonce)
}

} // verus!
