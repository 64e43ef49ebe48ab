//! The hash, MAC and case mapping that signing relies on, computed by the
//! `sha2` and `hmac` crates and by std.
use vstd::prelude::*;
use hmac::{Hmac, Mac};
use sha2::{Digest, Sha256};

verus! {

/// The SHA-256 digest of a byte sequence.
pub uninterp spec fn sha256(data: Seq<u8>) -> Seq<u8>;

/// HMAC-SHA-256 of `message` under `key`.
pub uninterp spec fn hmac_sha256(key: Seq<u8>, message: Seq<u8>) -> Seq<u8>;

/// Unicode upper-case mapping of a text (`str::to_uppercase`).
pub uninterp spec fn to_uppercase(s: Seq<char>) -> Seq<char>;

/// The SHA-256 digest of `data`.
///
/// Trusted: calls `sha2::Sha256::digest` (trait `Digest`), which hashes the
/// whole input; the contract only names the result as `sha256(data)`.
#[verifier::external_body]
pub(crate) fn sha256_digest(data: &[u8]) -> (d: Vec<u8>)
    ensures
        d@ == sha256(data@),
{
    Sha256::digest(data).to_vec()
}

/// The HMAC-SHA-256 tag of `message` under `key`.
///
/// Trusted: calls `Hmac::<Sha256>::new_from_slice`, `Mac::update` and
/// `Mac::finalize` of the `hmac` crate. `new_from_slice` for `Hmac` accepts
/// keys of every length (longer keys are hashed), so it does not fail. The
/// contract only names the tag as `hmac_sha256(key, message)`.
#[verifier::external_body]
pub(crate) fn hmac_sha256_tag(key: &[u8], message: &[u8]) -> (tag: Vec<u8>)
    ensures
        tag@ == hmac_sha256(key@, message@),
{
    let mut mac = <Hmac<Sha256> as Mac>::new_from_slice(key).expect("HMAC accepts keys of any size");
    mac.update(message);
    mac.finalize().into_bytes().to_vec()
}

/// Whether `tag` is the HMAC-SHA-256 tag of `message` under `key`.
///
/// Trusted: calls `Hmac::<Sha256>::new_from_slice`, `Mac::update` and
/// `Mac::verify_slice` of the `hmac` crate; `verify_slice` succeeds exactly
/// when `tag` has the output length and equals the finalized tag (compared in
/// constant time).
#[verifier::external_body]
pub(crate) fn hmac_sha256_matches(key: &[u8], message: &[u8], tag: &[u8]) -> (ok: bool)
    ensures
        ok == (tag@ == hmac_sha256(key@, message@)),
{
    let mut mac = <Hmac<Sha256> as Mac>::new_from_slice(key).expect("HMAC accepts keys of any size");
    mac.update(message);
    mac.verify_slice(tag).is_ok()
}

/// The upper-case form of `s`.
///
/// Trusted: calls std's `str::to_uppercase`; the contract only names the
/// result as `to_uppercase(s)`.
#[verifier::external_body]
pub(crate) fn uppercase(s: &str) -> (u: String)
    ensures
        u@ == to_uppercase(s@),
{
    s.to_uppercase()
}

} // verus!
