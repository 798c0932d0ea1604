//! Calls into the AEAD cipher, the random sources and UTF-8 decoding.
//! Everything here is trusted: each contract restates what the called
//! function is documented, or shown by its source, to do.
use vstd::prelude::*;
use vstd::utf8::{decode_utf8, valid_utf8};

use aes_gcm::aead::generic_array::GenericArray;
use aes_gcm::aead::Aead;
use aes_gcm::{Aes256Gcm, Key, KeyInit};
use rand::rngs::OsRng;
use rand_core::RngCore;

verus! {

/// Length in bytes of an AES-256 key.
pub const KEY_LEN: usize = 32;

/// Length in bytes of an AES-GCM nonce.
pub const NONCE_LEN: usize = 12;

/// Length in bytes of the authentication tag appended to every ciphertext.
pub const TAG_LEN: usize = 16;

/// Largest plaintext this library hands to the cipher: 64 GiB less one
/// kilobyte, below the limit at which the 32-bit block counter would run out.
pub const MAX_PLAINTEXT_LEN: u64 = 68719475712;

#[verifier::external_type_specification]
#[verifier::external_body]
pub struct ExAeadError(aes_gcm::Error);

/// The ciphertext with its tag appended that AES-256-GCM produces for
/// `plaintext` under `key` and `nonce`, with no associated data.
pub uninterp spec fn sealed(key: Seq<u8>, nonce: Seq<u8>, plaintext: Seq<u8>) -> Seq<u8>;

/// Relies on `Aead::encrypt` of `Aes256Gcm` (aead 0.5, aes-gcm 0.10): the
/// ciphertext is as long as the plaintext, followed by a 16-byte tag, and it
/// fails only on plaintexts longer than 2^36 bytes. `Key::from_slice` and
/// `GenericArray::from_slice` panic unless the lengths are 32 and 12.
#[verifier::external_body]
pub(crate) fn aead_seal(key: &[u8], nonce: &[u8], plaintext: &[u8]) -> (r: Result<
    Vec<u8>,
    aes_gcm::Error,
>)
    requires
        key@.len() == KEY_LEN,
        nonce@.len() == NONCE_LEN,
        plaintext@.len() <= MAX_PLAINTEXT_LEN,
    ensures
        r is Ok,
        r is Ok ==> r->Ok_0@ == sealed(key@, nonce@, plaintext@),
        r is Ok ==> r->Ok_0@.len() == plaintext@.len() + TAG_LEN,
{
    let cipher = Aes256Gcm::new(Key::<Aes256Gcm>::from_slice(key));
    cipher.encrypt(GenericArray::from_slice(nonce), plaintext)
}

/// Relies on `Aead::decrypt` of `Aes256Gcm` (aead 0.5, aes-gcm 0.10): it
/// recomputes the tag over the ciphertext and, only if it matches, returns
/// the plaintext, which is then the one plaintext whose encryption under the
/// same key and nonce is exactly `ciphertext`.
#[verifier::external_body]
pub(crate) fn aead_open(key: &[u8], nonce: &[u8], ciphertext: &[u8]) -> (r: Result<
    Vec<u8>,
    aes_gcm::Error,
>)
    requires
        key@.len() == KEY_LEN,
        nonce@.len() == NONCE_LEN,
        ciphertext@.len() <= MAX_PLAINTEXT_LEN + TAG_LEN,
    ensures
        r is Ok ==> sealed(key@, nonce@, r->Ok_0@) == ciphertext@,
        r is Ok ==> r->Ok_0@.len() + TAG_LEN == ciphertext@.len(),
        forall|p: Seq<u8>|
            p.len() <= MAX_PLAINTEXT_LEN && #[trigger] sealed(key@, nonce@, p) == ciphertext@
                ==> (r is Ok && r->Ok_0@ == p),
{
    let cipher = Aes256Gcm::new(Key::<Aes256Gcm>::from_slice(key));
    cipher.decrypt(GenericArray::from_slice(nonce), ciphertext)
}

/// Relies on `OsRng::try_fill_bytes` (rand_core 0.6): twelve bytes from the
/// operating system's secure random source, or `None` when that source
/// reports an error.
#[verifier::external_body]
pub(crate) fn fresh_nonce() -> (r: Option<Vec<u8>>)
    ensures
        r is Some ==> r->Some_0@.len() == NONCE_LEN,
{
    let mut nonce = [0u8; 12];
    match OsRng.try_fill_bytes(&mut nonce) {
        Ok(()) => Some(nonce.to_vec()),
        Err(_) => None,
    }
}

/// Relies on `OsRng::try_fill_bytes` (rand_core 0.6): thirty-two bytes from
/// the operating system's secure random source, or `None` when that source
/// reports an error.
#[verifier::external_body]
pub(crate) fn fresh_key_bytes() -> (r: Option<Vec<u8>>)
    ensures
        r is Some ==> r->Some_0@.len() == KEY_LEN,
{
    let mut key = [0u8; 32];
    match OsRng.try_fill_bytes(&mut key) {
        Ok(()) => Some(key.to_vec()),
        Err(_) => None,
    }
}

/// Relies on `String::from_utf8`: it succeeds exactly on valid UTF-8 and then
/// holds the characters that the bytes encode.
#[verifier::external_body]
pub(crate) fn utf8_text(bytes: Vec<u8>) -> (r: Option<String>)
    ensures
        r is Some <==> valid_utf8(bytes@),
        r is Some ==> r->Some_0@ == decode_utf8(bytes@),
{
    String::from_utf8(bytes).ok()
}

} // verus!
