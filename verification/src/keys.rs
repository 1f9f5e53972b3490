//! Ed25519 keys held as bytes: signing, verification, and their PEM forms.

use vstd::prelude::*;
use ed25519_dalek::pkcs8::{DecodePrivateKey, DecodePublicKey, EncodePrivateKey, EncodePublicKey};
use ed25519_dalek::{Signer, Verifier};

verus! {

/// The Ed25519 public key (compressed point) of a 32-byte secret seed.
pub uninterp spec fn ed25519_public_of(seed: Seq<u8>) -> Seq<u8>;

/// The Ed25519 signature of `msg` under the secret seed.
pub uninterp spec fn ed25519_signature(seed: Seq<u8>, msg: Seq<u8>) -> Seq<u8>;

/// Whether `sig` verifies for `msg` under the public key bytes `public`.
pub uninterp spec fn ed25519_accepts(public: Seq<u8>, msg: Seq<u8>, sig: Seq<u8>) -> bool;

/// The SubjectPublicKeyInfo PEM (LF line endings) of the public key of a seed.
pub uninterp spec fn public_pem_of_seed(seed: Seq<u8>) -> Seq<char>;

/// The Ed25519 public key a SubjectPublicKeyInfo PEM holds, if it holds one.
pub uninterp spec fn public_key_in_pem(pem: Seq<char>) -> Option<Seq<u8>>;

/// The PKCS#8 PEM (LF line endings) of a secret seed.
pub uninterp spec fn private_pem_of_seed(seed: Seq<u8>) -> Seq<char>;

/// The Ed25519 secret seed a PKCS#8 PEM holds, if it holds one.
pub uninterp spec fn seed_in_pem(pem: Seq<char>) -> Option<Seq<u8>>;

/// Calls `SigningKey::generate` with the operating system's generator and
/// returns its seed. Nothing is stated of the result: it is random.
#[verifier::external_body]
pub(crate) fn random_seed() -> [u8; 32] {
    ed25519_dalek::SigningKey::generate(&mut rand_core::OsRng).to_bytes()
}

/// Calls `Signer::sign` of `SigningKey`. Trusted: Ed25519 signing is
/// deterministic, and the result is `ed25519_signature(seed, msg)`.
#[verifier::external_body]
pub(crate) fn sign_bytes(seed: &[u8; 32], msg: &[u8]) -> (res: [u8; 64])
    ensures
        res@ == ed25519_signature(seed@, msg@),
{
    ed25519_dalek::SigningKey::from_bytes(seed).sign(msg).to_bytes()
}

/// Calls `VerifyingKey::from_bytes` and `Verifier::verify`. Trusted: the
/// result is `ed25519_accepts(public, msg, sig)`, and a signature made by a
/// seed verifies under that seed's public key.
#[verifier::external_body]
pub(crate) fn verify_bytes(public: &[u8; 32], msg: &[u8], sig: &[u8]) -> (res: bool)
    requires
        sig@.len() == 64,
    ensures
        res == ed25519_accepts(public@, msg@, sig@),
        forall|seed: Seq<u8>|
            seed.len() == 32 && public@ == ed25519_public_of(seed) && sig@ == ed25519_signature(
                seed,
                msg@,
            ) ==> res,
{
    match ed25519_dalek::VerifyingKey::from_bytes(public) {
        Ok(key) => key.verify(msg, &ed25519_dalek::Signature::from_slice(sig).unwrap()).is_ok(),
        Err(_) => false,
    }
}

/// Calls `EncodePublicKey::to_public_key_pem` (LF). Trusted: it succeeds
/// (the DER of a 32-byte key always encodes), and the text is
/// `public_pem_of_seed(seed)`, which decodes back to the seed's public key.
#[verifier::external_body]
pub(crate) fn public_pem_of(seed: &[u8; 32]) -> (res: Result<String, String>)
    ensures
        res is Ok,
        res matches Ok(pem) ==> pem@ == public_pem_of_seed(seed@) && public_key_in_pem(pem@)
            == Some(ed25519_public_of(seed@)),
{
    ed25519_dalek::SigningKey::from_bytes(seed)
        .verifying_key()
        .to_public_key_pem(pkcs8::LineEnding::LF)
        .map_err(|e| e.to_string())
}

/// Calls `DecodePublicKey::from_public_key_pem` and `VerifyingKey::to_bytes`.
/// Trusted: it succeeds exactly when `public_key_in_pem(pem)` is defined and
/// returns that key. The error text is `spki`'s, of which nothing is stated.
#[verifier::external_body]
pub(crate) fn public_key_from_pem(pem: &str) -> (res: Result<[u8; 32], String>)
    ensures
        res is Ok <==> public_key_in_pem(pem@) is Some,
        res matches Ok(k) ==> public_key_in_pem(pem@) == Some(k@),
{
    ed25519_dalek::VerifyingKey::from_public_key_pem(pem).map(|k| k.to_bytes()).map_err(|e| e.to_string())
}

/// Calls `EncodePrivateKey::to_pkcs8_pem` (LF). Trusted: it succeeds (the
/// key pair of a 32-byte seed always encodes), and the text is
/// `private_pem_of_seed(seed)`, which decodes back to the seed.
#[verifier::external_body]
pub(crate) fn private_pem_of(seed: &[u8; 32]) -> (res: Result<String, String>)
    ensures
        res is Ok,
        res matches Ok(pem) ==> pem@ == private_pem_of_seed(seed@) && seed_in_pem(pem@) == Some(
            seed@,
        ),
{
    match ed25519_dalek::SigningKey::from_bytes(seed).to_pkcs8_pem(pkcs8::LineEnding::LF) {
        Ok(doc) => Ok(doc.to_string()),
        Err(e) => Err(e.to_string()),
    }
}

/// Calls `DecodePrivateKey::from_pkcs8_pem` and `SigningKey::to_bytes`.
/// Trusted: it succeeds exactly when `seed_in_pem(pem)` is defined and
/// returns that seed. The error text is `pkcs8`'s, of which nothing is stated.
#[verifier::external_body]
pub(crate) fn seed_from_pem(pem: &str) -> (res: Result<[u8; 32], String>)
    ensures
        res is Ok <==> seed_in_pem(pem@) is Some,
        res matches Ok(s) ==> seed_in_pem(pem@) == Some(s@),
{
    ed25519_dalek::SigningKey::from_pkcs8_pem(pem).map(|k| k.to_bytes()).map_err(|e| e.to_string())
}

/// Calls `SystemTime::elapsed` on the Unix epoch and returns the whole
/// seconds. Nothing is stated of the result: it is the clock's.
#[verifier::external_body]
pub(crate) fn unix_now() -> Result<i64, String> {
    match std::time::UNIX_EPOCH.elapsed() {
        Ok(d) => Ok(d.as_secs() as i64),
        Err(e) => Err(e.to_string()),
    }
}

} // verus!
