//! Authenticated encryption of single secrets. A blob is the 12-byte nonce
//! followed by the ciphertext and its 16-byte tag.
use vstd::prelude::*;
use vstd::slice::slice_to_vec;
use vstd::utf8::{decode_utf8, encode_utf8, valid_utf8};

use crate::key::MasterKey;
use crate::primitives::{
    aead_open, aead_seal, fresh_nonce, sealed, utf8_text, MAX_PLAINTEXT_LEN, NONCE_LEN, TAG_LEN,
};

verus! {

broadcast use {vstd::utf8::encode_utf8_decode_utf8, vstd::utf8::decode_utf8_encode_utf8, vstd::utf8::encode_utf8_valid_utf8};

/// Why a blob could not be decrypted.
#[derive(Debug, Clone, Copy, PartialEq, Eq, Structural)]
pub enum CipherError {
    /// The blob is shorter than a nonce.
    Malformed,
    /// The tag does not match: the blob was altered, truncated or made
    /// under another key.
    Authentication,
    /// The decrypted bytes are not valid UTF-8.
    Encoding,
    /// The operating system's random source failed while drawing a nonce.
    RandomSourceFailed,
}

/// `blob` is `nonce ++ sealed(key, nonce, bytes)` for the nonce it starts
/// with, and `bytes` is short enough to be encrypted.
pub open spec fn is_sealed_blob(key: Seq<u8>, blob: Seq<u8>, bytes: Seq<u8>) -> bool {
    &&& bytes.len() <= MAX_PLAINTEXT_LEN
    &&& blob.len() == NONCE_LEN + bytes.len() + TAG_LEN
    &&& blob.subrange(NONCE_LEN as int, blob.len() as int) == sealed(
        key,
        blob.subrange(0, NONCE_LEN as int),
        bytes,
    )
}

/// `blob` is an encryption of the text `text` under `key`.
pub open spec fn is_blob_for(key: Seq<u8>, blob: Seq<u8>, text: Seq<char>) -> bool {
    is_sealed_blob(key, blob, encode_utf8(text))
}

/// `p` is a plaintext that the cipher accepts and that seals to
/// `ciphertext` under `key` and `nonce`.
pub open spec fn opens_to(key: Seq<u8>, nonce: Seq<u8>, ciphertext: Seq<u8>, p: Seq<u8>) -> bool {
    p.len() <= MAX_PLAINTEXT_LEN && sealed(key, nonce, p) == ciphertext
}

/// What decrypting `blob` under `key` may give: a blob shorter than a nonce
/// is malformed; one too long to hold any accepted plaintext fails
/// authentication; otherwise the text returned is the one whose UTF-8 bytes
/// are the only plaintext sealing to the rest of the blob, decoding fails
/// when that plaintext is not UTF-8, and authentication fails when there is
/// no such plaintext.
pub open spec fn decrypts_to(key: Seq<u8>, blob: Seq<u8>, out: Result<Seq<char>, CipherError>) -> bool {
    if blob.len() < NONCE_LEN {
        out == Err::<Seq<char>, CipherError>(CipherError::Malformed)
    } else if blob.len() > NONCE_LEN + MAX_PLAINTEXT_LEN + TAG_LEN {
        out == Err::<Seq<char>, CipherError>(CipherError::Authentication)
    } else {
        let nonce = blob.subrange(0, NONCE_LEN as int);
        let c = blob.subrange(NONCE_LEN as int, blob.len() as int);
        match out {
            Ok(t) => forall|p: Seq<u8>| #[trigger] opens_to(key, nonce, c, p) <==> p == encode_utf8(t),
            Err(CipherError::Encoding) => exists|q: Seq<u8>|
                !valid_utf8(q) && forall|p: Seq<u8>| #[trigger] opens_to(key, nonce, c, p) <==> p == q,
            Err(CipherError::Authentication) => forall|p: Seq<u8>| !#[trigger] opens_to(key, nonce, c, p),
            Err(CipherError::Malformed) => false,
            Err(CipherError::RandomSourceFailed) => false,
        }
    }
}

/// The text view of a decryption result.
pub open spec fn text_outcome(r: Result<String, CipherError>) -> Result<Seq<char>, CipherError> {
    match r {
        Ok(s) => Ok(s@),
        Err(e) => Err(e),
    }
}

/// Encrypts `plaintext` under `key` with the given nonce and returns the
/// blob: the nonce, then ciphertext and tag. A nonce must never be used
/// twice under one key.
pub fn encrypt_bytes_with_nonce(plaintext: &[u8], nonce: &[u8], key: &MasterKey) -> (r: Vec<u8>)
    requires
        plaintext@.len() <= MAX_PLAINTEXT_LEN,
        nonce@.len() == NONCE_LEN,
    ensures
        r@ == nonce@ + sealed(key@, nonce@, plaintext@),
        is_sealed_blob(key@, r@, plaintext@),
{
    let mut blob = slice_to_vec(nonce);
    let mut body = match aead_seal(key.as_bytes(), nonce, plaintext) {
        Ok(c) => c,
        Err(_) => Vec::new(),
    };
    blob.append(&mut body);
    assert(blob@.subrange(0, NONCE_LEN as int) =~= nonce@);
    assert(blob@.subrange(NONCE_LEN as int, blob@.len() as int) =~= sealed(
        key@,
        nonce@,
        plaintext@,
    ));
    blob
}

/// Encrypts `plaintext` under `key` with a fresh random nonce. Fails only
/// when the random source does.
pub fn encrypt_bytes(plaintext: &[u8], key: &MasterKey) -> (r: Result<Vec<u8>, CipherError>)
    requires
        plaintext@.len() <= MAX_PLAINTEXT_LEN,
    ensures
        r is Ok ==> is_sealed_blob(key@, r->Ok_0@, plaintext@),
        r is Err ==> r == Err::<Vec<u8>, CipherError>(CipherError::RandomSourceFailed),
{
    match fresh_nonce() {
        Some(nonce) => Ok(encrypt_bytes_with_nonce(plaintext, nonce.as_slice(), key)),
        None => Err(CipherError::RandomSourceFailed),
    }
}

/// Encrypts a password under `key` with a fresh random nonce. Fails only
/// when the random source does.
pub fn encrypt_password(password: &str, key: &MasterKey) -> (r: Result<Vec<u8>, CipherError>)
    requires
        password.len() <= MAX_PLAINTEXT_LEN,
    ensures
        r is Ok ==> is_blob_for(key@, r->Ok_0@, password@),
        r is Err ==> r == Err::<Vec<u8>, CipherError>(CipherError::RandomSourceFailed),
{
    let bytes = password.as_bytes();
    // `str::len` counts the same bytes that `as_bytes` hands out.
    assert(bytes.len() as int == password.len());
    encrypt_bytes(bytes, key)
}

/// Decrypts a blob made by `encrypt_password` under `key`.
pub fn decrypt_password(encrypted_data: &[u8], key: &MasterKey) -> (r: Result<String, CipherError>)
    ensures
        decrypts_to(key@, encrypted_data@, text_outcome(r)),
        encrypted_data@.len() < NONCE_LEN <==> r == Err::<String, CipherError>(
            CipherError::Malformed,
        ),
        NONCE_LEN <= encrypted_data@.len() < NONCE_LEN + TAG_LEN ==> r == Err::<
            String,
            CipherError,
        >(CipherError::Authentication),
{
    if encrypted_data.len() < NONCE_LEN {
        return Err(CipherError::Malformed);
    }
    if (encrypted_data.len() - NONCE_LEN) as u64 > MAX_PLAINTEXT_LEN + TAG_LEN as u64 {
        return Err(CipherError::Authentication);
    }
    let (nonce, ciphertext) = encrypted_data.split_at(NONCE_LEN);
    let ghost c = ciphertext@;
    match aead_open(key.as_bytes(), nonce, ciphertext) {
        Err(_) => {
            assert forall|p: Seq<u8>| !#[trigger] opens_to(key@, nonce@, c, p) by {
                if opens_to(key@, nonce@, c, p) {
                    assert(sealed(key@, nonce@, p) == c);
                }
            }
            Err(CipherError::Authentication)
        },
        Ok(bytes) => {
            let ghost q = bytes@;
            assert forall|p: Seq<u8>| #[trigger] opens_to(key@, nonce@, c, p) <==> p == q by {
                if opens_to(key@, nonce@, c, p) {
                    assert(sealed(key@, nonce@, p) == c);
                }
            }
            match utf8_text(bytes) {
                Some(text) => Ok(text),
                None => Err(CipherError::Encoding),
            }
        },
    }
}

/// Decrypting an encryption of `text` under the same key gives `text` back.
pub proof fn lemma_round_trip(
    key: Seq<u8>,
    blob: Seq<u8>,
    text: Seq<char>,
    out: Result<Seq<char>, CipherError>,
)
    requires
        is_blob_for(key, blob, text),
        decrypts_to(key, blob, out),
    ensures
        out == Ok::<Seq<char>, CipherError>(text),
{
    let nonce = blob.subrange(0, NONCE_LEN as int);
    let c = blob.subrange(NONCE_LEN as int, blob.len() as int);
    let b = encode_utf8(text);
    assert(opens_to(key, nonce, c, b));
    match out {
        Ok(t) => {
            assert(b == encode_utf8(t));
            assert(decode_utf8(encode_utf8(t)) == t);
        },
        Err(CipherError::Encoding) => {
            let q = choose|q: Seq<u8>|
                !valid_utf8(q) && forall|p: Seq<u8>| #[trigger] opens_to(key, nonce, c, p) <==> p == q;
            assert(valid_utf8(b));
        },
        Err(_) => {},
    }
}

/// Whatever text decryption returns, the blob is exactly an encryption of
/// that text under that key: an altered blob, or one made under another
/// key, never yields a text it was not made from.
pub proof fn lemma_decrypted_text_is_authentic(key: Seq<u8>, blob: Seq<u8>, text: Seq<char>)
    requires
        decrypts_to(key, blob, Ok(text)),
    ensures
        blob.len() >= NONCE_LEN,
        blob.subrange(NONCE_LEN as int, blob.len() as int) == sealed(
            key,
            blob.subrange(0, NONCE_LEN as int),
            encode_utf8(text),
        ),
{
    let nonce = blob.subrange(0, NONCE_LEN as int);
    let c = blob.subrange(NONCE_LEN as int, blob.len() as int);
    assert(opens_to(key, nonce, c, encode_utf8(text)));
}

} // verus!
