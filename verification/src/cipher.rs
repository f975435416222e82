//! The outside primitives of the token envelope: the AES-256 block cipher,
//! the random initialization vector and the URL-safe base64 framing.
//!
//! Each function here wraps one call into an outside crate; what the
//! verified code knows of them is exactly what their contracts state.

use vstd::prelude::*;

use aes::cipher::{BlockCipherDecrypt, BlockCipherEncrypt, KeyInit};
use rand::Rng;

verus! {

/// What AES-256 returns for one 16-byte block under a 32-byte key.
pub uninterp spec fn aes256_enc_block(key: Seq<u8>, block: Seq<u8>) -> Seq<u8>;

/// What AES-256 decryption returns for one 16-byte block under a 32-byte key.
pub uninterp spec fn aes256_dec_block(key: Seq<u8>, block: Seq<u8>) -> Seq<u8>;

/// Relies on `aes::Aes256` (`cipher::KeyInit::new_from_slice` and
/// `cipher::BlockCipherEncrypt::encrypt_block`): a keyed deterministic
/// permutation of one 16-byte block, whose inverse is block decryption.
#[verifier::external_body]
pub(crate) fn encrypt_block(key: &[u8], block: &[u8]) -> (r: Vec<u8>)
    requires
        key@.len() == 32,
        block@.len() == 16,
    ensures
        r@ == aes256_enc_block(key@, block@),
        r@.len() == 16,
        aes256_dec_block(key@, r@) == block@,
{
    let cipher = <aes::Aes256 as KeyInit>::new_from_slice(key).unwrap();
    let mut b = aes::Block::from_slice(block).clone();
    cipher.encrypt_block(&mut b);
    b.as_slice().to_vec()
}

/// Relies on `aes::Aes256` (`cipher::KeyInit::new_from_slice` and
/// `cipher::BlockCipherDecrypt::decrypt_block`): the inverse permutation of
/// [`encrypt_block`] under the same key.
#[verifier::external_body]
pub(crate) fn decrypt_block(key: &[u8], block: &[u8]) -> (r: Vec<u8>)
    requires
        key@.len() == 32,
        block@.len() == 16,
    ensures
        r@ == aes256_dec_block(key@, block@),
        r@.len() == 16,
{
    let cipher = <aes::Aes256 as KeyInit>::new_from_slice(key).unwrap();
    let mut b = aes::Block::from_slice(block).clone();
    cipher.decrypt_block(&mut b);
    b.as_slice().to_vec()
}

/// Relies on `rand::rng` and `rand::Rng::fill_bytes` for the random
/// initialization vector; nothing is assumed of the bytes drawn beyond
/// their number.
#[verifier::external_body]
pub(crate) fn random_iv() -> (r: Vec<u8>)
    ensures
        r@.len() == 16,
{
    let mut iv = [0u8; 16];
    rand::rng().fill_bytes(&mut iv);
    iv.to_vec()
}

/// What base64's URL-safe padded alphabet encodes a byte string to.
pub uninterp spec fn b64url_encode(b: Seq<u8>) -> Seq<char>;

/// What base64's URL-safe padded alphabet decodes a text to, if anything.
pub uninterp spec fn b64url_decode(s: Seq<char>) -> Option<Seq<u8>>;

/// A character of the URL-safe base64 alphabet of RFC 4648 §5, or its
/// `=` padding.
pub open spec fn is_b64url_char(c: char) -> bool {
    ('A' <= c <= 'Z') || ('a' <= c <= 'z') || ('0' <= c <= '9') || c == '-' || c == '_' || c
        == '='
}

/// Relies on `base64::Engine::encode` with the `URL_SAFE` engine: the
/// encoding is a function of the bytes alone, four characters for every
/// three bytes drawn from the URL-safe alphabet, and `decode` inverts it.
#[verifier::external_body]
pub(crate) fn b64url_encode_exec(b: &[u8]) -> (r: String)
    ensures
        r@ == b64url_encode(b@),
        r@.len() == 4 * ((b@.len() + 2) / 3),
        forall|i: int| 0 <= i < r@.len() ==> is_b64url_char(#[trigger] r@[i]),
        b64url_decode(r@) == Option::Some(b@),
{
    base64::Engine::encode(&base64::engine::general_purpose::URL_SAFE, b)
}

/// Relies on `base64::Engine::decode` with the `URL_SAFE` engine: decoding
/// is a function of the characters alone.
#[verifier::external_body]
pub(crate) fn b64url_decode_exec(s: &str) -> (r: Option<Vec<u8>>)
    ensures
        match r {
            Option::Some(v) => b64url_decode(s@) == Option::Some(v@),
            Option::None => b64url_decode(s@) is None,
        },
{
    base64::Engine::decode(&base64::engine::general_purpose::URL_SAFE, s).ok()
}

/// Relies on `String::from_utf8`: it succeeds exactly on valid UTF-8 and
/// returns the text whose encoding is the input.
#[verifier::external_body]
pub(crate) fn bytes_to_string(v: Vec<u8>) -> (r: Option<String>)
    ensures
        match r {
            Option::Some(t) => vstd::utf8::valid_utf8(v@) && t@ == vstd::utf8::decode_utf8(v@),
            Option::None => !vstd::utf8::valid_utf8(v@),
        },
{
    String::from_utf8(v).ok()
}

} // verus!
