# raucle_receipt

Signed provenance receipts for multi-step AI workflows, verified with Verus.

Every step of a workflow can emit a receipt: a compact JWS (Ed25519,
`typ = provenance-receipt/v1`, `crit = ["raucle/v1"]`) over the canonical
JSON of its payload. Receipts cite their parents by hash
(`sha256:` + hex of the JWS text), so a log of them forms a DAG that the
verifier checks for bad signatures, tampered records, missing parents and
taint that was dropped without a sanitisation step.

Layout:

- `src/` — the verified library.
  - `canonical.rs`, `json.rs`, `sort.rs`, `text.rs` — the JSON model and its
    canonical text (keys sorted by byte order, no whitespace).
  - `b64.rs`, `hash.rs`, `keys.rs` — base64url, SHA-256 and Ed25519, each
    call into its crate behind a small trusted wrapper.
  - `identity.rs` — agent identities and signed capability statements.
  - `receipt.rs` — receipts, signing and reading a JWS back.
  - `taint.rs`, `findings.rs`, `reorder.rs`, `chain.rs` — what verifying a log finds (in any line order), and
    the verifier that finds it; tracing a receipt back to its roots.
- `app/` — reading logs from files and readers, `serde_json` values, and
  error types with `Display`.
- `tests/` — the tests.
