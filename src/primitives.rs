//! The calls this library makes into outside crates: base64 text encodings,
//! the SHA-256 digest and random bytes.

use base64::Engine;
use vstd::prelude::*;

verus! {

/// The padded standard-alphabet base64 text of a byte string.
pub uninterp spec fn standard_b64(b: Seq<u8>) -> Seq<char>;

/// The unpadded URL-safe base64 text of a byte string.
pub uninterp spec fn url_safe_b64(b: Seq<u8>) -> Seq<char>;

/// The SHA-256 digest of a byte string.
pub uninterp spec fn sha256_of(b: Seq<u8>) -> Seq<u8>;

/// A character of the URL-safe base64 alphabet.
pub open spec fn is_url_safe_char(c: char) -> bool {
    ('A' <= c && c <= 'Z') || ('a' <= c && c <= 'z') || ('0' <= c && c <= '9') || c == '-'
        || c == '_'
}

/// Relies on base64's `STANDARD` engine, `Engine::encode`: the padded
/// standard-alphabet text of the bytes.
#[verifier::external_body]
pub(crate) fn encode_standard(b: &[u8]) -> (r: String)
    ensures
        r@ == standard_b64(b@),
{
    base64::engine::general_purpose::STANDARD.encode(b)
}

/// Relies on base64's `STANDARD` engine, `Engine::decode`. Its configuration
/// requires canonical padding and rejects trailing bits, so decoding succeeds
/// exactly on the encodings of byte strings and gives those bytes back.
#[verifier::external_body]
pub(crate) fn decode_standard(s: &str) -> (r: Option<Vec<u8>>)
    ensures
        r is Some ==> standard_b64(r->Some_0@) == s@,
        forall|b: Seq<u8>| #[trigger] standard_b64(b) == s@ ==> r is Some && r->Some_0@ == b,
{
    base64::engine::general_purpose::STANDARD.decode(s).ok()
}

/// Relies on base64's `URL_SAFE_NO_PAD` engine, `Engine::encode`: the
/// unpadded URL-safe text of the bytes, `ceil(4n / 3)` characters of the
/// URL-safe alphabet for `n` bytes.
#[verifier::external_body]
pub(crate) fn encode_url_safe(b: &[u8]) -> (r: String)
    ensures
        r@ == url_safe_b64(b@),
        r@.len() == (4 * b@.len() + 2) / 3,
        forall|i: int| 0 <= i < r@.len() ==> is_url_safe_char(#[trigger] r@[i]),
{
    base64::engine::general_purpose::URL_SAFE_NO_PAD.encode(b)
}

/// Relies on base64's `URL_SAFE_NO_PAD` engine, `Engine::decode`. Its
/// configuration forbids padding and rejects trailing bits, so decoding
/// succeeds exactly on the encodings of byte strings and gives those bytes
/// back.
#[verifier::external_body]
pub(crate) fn decode_url_safe(s: &str) -> (r: Option<Vec<u8>>)
    ensures
        r is Some ==> url_safe_b64(r->Some_0@) == s@,
        forall|b: Seq<u8>| #[trigger] url_safe_b64(b) == s@ ==> r is Some && r->Some_0@ == b,
{
    base64::engine::general_purpose::URL_SAFE_NO_PAD.decode(s).ok()
}

/// Relies on `hashes::sha2::sha256::hash`: the 32-byte SHA-256 digest.
#[verifier::external_body]
pub(crate) fn sha256(b: &[u8]) -> (r: [u8; 32])
    ensures
        r@ == sha256_of(b@),
{
    hashes::sha2::sha256::hash(b).into_bytes()
}

/// `rand::random`: a value drawn from the thread-local generator. Nothing is
/// promised of it.
pub assume_specification<T>[ rand::random::<T> ]() -> T
    where
        rand::distr::StandardUniform: rand::distr::Distribution<T>,
;

} // verus!
