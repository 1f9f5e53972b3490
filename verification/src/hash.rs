//! SHA-256 helpers: lowercase hex digests and `sha256:`-prefixed content hashes.

use vstd::prelude::*;
use crate::canonical::{canonical, canonicalize_value};
use crate::json::JsonValue;
use crate::text::{hex_lower, lemma_hex_lower_len, push_hex};
use sha2::Digest;
use vstd::utf8::encode_utf8;

verus! {

/// The SHA-256 digest of a byte sequence.
pub uninterp spec fn sha256_of(data: Seq<u8>) -> Seq<u8>;

/// Calls `sha2::Sha256::digest`. Trusted: the result is the SHA-256 digest of
/// `data` (named `sha256_of`), which the `Digest` documentation gives as a
/// 32-byte output.
#[verifier::external_body]
fn sha256_digest(data: &[u8]) -> (res: Vec<u8>)
    ensures
        res@ == sha256_of(data@),
        res@.len() == 32,
{
    sha2::Sha256::digest(data).to_vec()
}

/// `sha256:` followed by the lowercase hex digest.
pub open spec fn prefixed_hash(data: Seq<u8>) -> Seq<char> {
    "sha256:"@ + hex_lower(sha256_of(data))
}

/// Lowercase hex SHA-256 of `data`.
pub fn sha256_hex(data: &[u8]) -> (res: String)
    ensures
        res@ == hex_lower(sha256_of(data@)),
        res@.len() == 64,
{
    let digest = sha256_digest(data);
    let mut out = String::new();
    push_hex(&mut out, digest.as_slice());
    proof { lemma_hex_lower_len(digest@); }
    out
}

/// Hash a string: `sha256:` followed by the lowercase hex SHA-256 of its
/// UTF-8 bytes.
pub fn hash_text(s: &str) -> (res: String)
    ensures
        res@ == prefixed_hash(encode_utf8(s@)),
        res@.len() == 71,
{
    let mut out = String::from_str("sha256:");
    let hex = sha256_hex(s.as_bytes());
    out.append(hex.as_str());
    proof { reveal_strlit("sha256:"); }
    out
}

/// Hash a JSON value: `sha256:` followed by the lowercase hex SHA-256 of
/// its canonical text (so the order of object members does not matter).
pub fn hash_obj(v: &JsonValue) -> (res: String)
    ensures
        res@ == prefixed_hash(encode_utf8(canonical(v@))),
        res@.len() == 71,
{
    let text = canonicalize_value(v);
    hash_text(text.as_str())
}

} // verus!
