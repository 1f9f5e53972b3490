//! Signed provenance receipts for multi-step AI workflows: canonical JSON,
//! content hashes, Ed25519-signed compact JWS receipts that cite their
//! parents, and a verifier for logs of them (signatures, tampering, parent
//! links and taint monotonicity).

use vstd::prelude::*;

pub mod text;
pub mod b64;
pub mod hash;
pub mod json;
pub mod canonical;
pub mod sort;
pub mod keys;
pub mod identity;
pub mod receipt;
pub mod taint;
pub mod chain;
pub mod findings;
pub mod reorder;

pub use b64::{b64url_decode, b64url_encode};
pub use canonical::{canonicalize, canonicalize_bytes, canonicalize_value};
pub use hash::{hash_obj, hash_text, sha256_hex};
pub use identity::{
    load_public_key, validate_agent_id, AgentIdentity, CapabilityStatement, GenerateOptions, IdentityError,
};
pub use json::{JsonNumber, JsonValue};
pub use receipt::{Operation, Receipt, ReceiptError, ISSUER, RAUCLE_VERSION_TAG, RECEIPT_TYP};
pub use chain::{VerificationReport, Verifier, VerifierError};

verus! {

/// Where the receipt format is specified.
pub const SPEC_URL: &'static str = "https://raucle.com/spec/provenance/v1";

/// The version string of the receipt format.
pub const SPEC_VERSION: &'static str = "raucle-provenance-receipt/v1";

} // verus!
