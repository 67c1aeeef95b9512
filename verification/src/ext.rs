//! Trusted boundary to outside crates: URL parsing, hashing and encoding.
//! Each wrapper's contract names what the outside call returns; nothing else
//! in the crate is taken on trust.

use vstd::prelude::*;
use base64::Engine;
use sha2::Digest;

verus! {

/// What `url::Url::parse` recognizes of a string: its scheme, when the
/// string parses as a URL at all.
pub uninterp spec fn url_scheme_of(s: Seq<char>) -> Option<Seq<char>>;

/// Relies on `url::Url::parse` and `Url::scheme`: parsing either fails, or
/// yields a URL whose scheme is a function of the input string alone.
#[verifier::external_body]
pub fn url_scheme(s: &str) -> (r: Option<String>)
    ensures
        r is Some <==> url_scheme_of(s@) is Some,
        r matches Some(v) ==> url_scheme_of(s@) matches Some(g) && v@ == g,
{
    match url::Url::parse(s) {
        Ok(u) => Some(u.scheme().to_string()),
        Err(_) => None,
    }
}

/// The SHA-256 digest of a byte string.
pub uninterp spec fn sha256_of(b: Seq<u8>) -> Seq<u8>;

/// Relies on `sha2::Sha256` (`Digest::update`, `Digest::finalize`): the
/// digest depends on the bytes alone and is 32 bytes long.
#[verifier::external_body]
pub fn sha256_digest(b: &Vec<u8>) -> (r: Vec<u8>)
    ensures
        r@ == sha256_of(b@),
        r@.len() == 32,
{
    let mut hasher = sha2::Sha256::new();
    hasher.update(b.as_slice());
    hasher.finalize().to_vec()
}

/// The standard base64 (with padding) encoding of a byte string.
pub uninterp spec fn b64_of(b: Seq<u8>) -> Seq<char>;

/// Relies on `base64::engine::general_purpose::STANDARD`'s `encode`: the
/// encoding depends on the bytes alone.
#[verifier::external_body]
pub fn base64_std(b: &Vec<u8>) -> (r: String)
    ensures
        r@ == b64_of(b@),
{
    base64::engine::general_purpose::STANDARD.encode(b.as_slice())
}

/// What `String::from_utf8` makes of a byte string: its characters when the
/// bytes are valid UTF-8, nothing otherwise.
pub uninterp spec fn utf8_decode_of(b: Seq<u8>) -> Option<Seq<char>>;

/// Relies on `String::from_utf8`: decoding succeeds exactly on valid UTF-8,
/// and the result depends on the bytes alone.
#[verifier::external_body]
pub fn utf8_decode(b: &Vec<u8>) -> (r: Option<String>)
    ensures
        r is Some <==> utf8_decode_of(b@) is Some,
        r matches Some(v) ==> utf8_decode_of(b@) matches Some(g) && v@ == g,
{
    String::from_utf8(b.clone()).ok()
}

} // verus!
