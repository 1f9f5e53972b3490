use raucle_receipt::{
    canonicalize_value, hash_text, AgentIdentity, GenerateOptions, IdentityError, Operation, Receipt, ReceiptError,
    Verifier, VerifierError,
};

fn identity(name: &str, seed: u8) -> AgentIdentity {
    AgentIdentity::from_key_at(
        [seed; 32],
        GenerateOptions { agent_id: name.to_string(), ..Default::default() },
        1_700_000_000,
    )
    .unwrap()
}

fn receipt(id: &AgentIdentity, op: Operation, parents: &[&Receipt], taint: &[&str], corpus: &str) -> Receipt {
    let mut r = Receipt::new(id.agent_id.clone(), id.key_id().to_string(), op, 1_700_000_100);
    r.parents = parents.iter().map(|p| p.receipt_hash.clone()).collect();
    r.taint = taint.iter().map(|t| t.to_string()).collect();
    r.corpus = corpus.to_string();
    r.sign(id).unwrap();
    r
}

fn line(r: &Receipt) -> String {
    canonicalize_value(&r.to_log_line())
}

fn verifier_for(ids: &[&AgentIdentity]) -> Verifier {
    Verifier::new(ids.iter().map(|i| (i.key_id().to_string(), i.public_key_pem().to_string())).collect()).unwrap()
}

#[test]
fn valid_chain_verifies() {
    let id = identity("agent:a", 1);
    let root = receipt(&id, Operation::UserInput, &[], &["external_user"], "");
    let call = receipt(&id, Operation::ModelCall, &[&root], &["external_user", "pii"], "");
    let clean = receipt(&id, Operation::Sanitisation, &[&call], &["pii"], "removed:external_user");
    let lines = vec![line(&root), "   ".to_string(), line(&call), line(&clean), String::new()];
    let report = verifier_for(&[&id]).verify_chain(&lines);
    assert!(report.valid, "{:?}", report.errors);
    assert_eq!(report.receipt_count, 3);
    assert!(report.errors.is_empty());
    assert_eq!(report.signature_failures, 0);
    assert_eq!(report.parent_link_failures, 0);
    assert_eq!(report.taint_monotonicity_failures, 0);
    assert!(report.tampered_receipts.is_empty());
}

#[test]
fn empty_log_is_valid() {
    let id = identity("agent:a", 1);
    let report = verifier_for(&[&id]).verify_chain(&Vec::new());
    assert!(report.valid);
    assert_eq!(report.receipt_count, 0);
}

#[test]
fn unreadable_lines_are_reported() {
    let id = identity("agent:a", 1);
    let lines = vec![
        "{not json".to_string(),
        "[1,2]".to_string(),
        r#"{"jws": 5}"#.to_string(),
        r#"{"jws": "a.b"}"#.to_string(),
        r#"{"jws": "a.b.c.d"}"#.to_string(),
    ];
    let report = verifier_for(&[&id]).verify_chain(&lines);
    assert!(!report.valid);
    assert_eq!(report.receipt_count, 0);
    assert_eq!(report.errors.len(), 5);
    assert!(report.errors[0].starts_with("line 1: invalid JSON: "));
    assert_eq!(report.errors[1], "line 2: record is not an object");
    assert_eq!(report.errors[2], "line 3: record has no string 'jws' field");
    assert_eq!(
        report.errors[3],
        "line 4: malformed receipt: malformed receipt: expected three dot-separated segments"
    );
    assert_eq!(
        report.errors[4],
        "line 5: malformed receipt: malformed receipt: expected three dot-separated segments"
    );
}

#[test]
fn tampered_hash_is_reported() {
    let id = identity("agent:a", 1);
    let root = receipt(&id, Operation::UserInput, &[], &[], "");
    let record = format!(r#"{{"jws":"{}","receipt_hash":"sha256:forged"}}"#, root.jws);
    let report = verifier_for(&[&id]).verify_chain(&vec![record]);
    assert!(!report.valid);
    assert_eq!(report.tampered_receipts, vec![root.receipt_hash.clone()]);
    assert_eq!(report.errors, vec!["line 1: receipt_hash mismatch \u{2014} record tampered".to_string()]);
    assert_eq!(report.receipt_count, 1);
}

#[test]
fn unknown_key_fails_signature() {
    let id = identity("agent:a", 1);
    let other = identity("agent:b", 2);
    let root = receipt(&id, Operation::UserInput, &[], &[], "");
    let report = verifier_for(&[&other]).verify_chain(&vec![line(&root)]);
    assert!(!report.valid);
    assert_eq!(report.signature_failures, 1);
    assert_eq!(
        report.errors,
        vec![format!("line 1: signature verification failed for agent_key_id={}", id.key_id())]
    );
}

#[test]
fn missing_parent_is_reported() {
    let id = identity("agent:a", 1);
    let root = receipt(&id, Operation::UserInput, &[], &[], "");
    let child = receipt(&id, Operation::ModelCall, &[&root], &[], "");
    let report = verifier_for(&[&id]).verify_chain(&vec![line(&child)]);
    assert!(!report.valid);
    assert_eq!(report.parent_link_failures, 1);
    assert_eq!(
        report.errors,
        vec![format!("receipt {}: parent {} not in chain", child.receipt_hash, root.receipt_hash)]
    );
}

#[test]
fn dropped_taint_is_reported() {
    let id = identity("agent:a", 1);
    let root = receipt(&id, Operation::UserInput, &[], &["external_user", "pii"], "");
    let child = receipt(&id, Operation::ToolCall, &[&root], &["pii"], "");
    let report = verifier_for(&[&id]).verify_chain(&vec![line(&root), line(&child)]);
    assert!(!report.valid);
    assert_eq!(report.taint_monotonicity_failures, 1);
    assert_eq!(
        report.errors,
        vec![format!(
            "receipt {}: taint not monotonic \u{2014} dropped [\"external_user\"] without a sanitisation step",
            child.receipt_hash
        )]
    );
}

#[test]
fn sanitisation_must_match_declared_removals() {
    let id = identity("agent:a", 1);
    let root = receipt(&id, Operation::UserInput, &[], &["a", "b"], "");
    let wrong = receipt(&id, Operation::Sanitisation, &[&root], &[], "removed:a");
    let right = receipt(&id, Operation::Sanitisation, &[&root], &["b"], "removed:a,");
    // Extra tags on a sanitisation step are allowed.
    let extra = receipt(&id, Operation::Sanitisation, &[&root], &["b", "c"], "removed:a");
    let report =
        verifier_for(&[&id]).verify_chain(&vec![line(&root), line(&wrong), line(&right), line(&extra)]);
    assert_eq!(report.taint_monotonicity_failures, 1);
    assert_eq!(report.errors, vec![format!("receipt {}: sanitisation taint mismatch", wrong.receipt_hash)]);
}

#[test]
fn duplicate_lines_count_but_store_once() {
    let id = identity("agent:a", 1);
    let root = receipt(&id, Operation::UserInput, &[], &[], "");
    let child = receipt(&id, Operation::Merge, &[&root, &root], &[], "");
    let report = verifier_for(&[&id]).verify_chain(&vec![line(&root), line(&root), line(&child)]);
    assert!(report.valid);
    assert_eq!(report.receipt_count, 3);
}

#[test]
fn verifier_new_rejects_bad_pem() {
    match Verifier::new(vec![("k".to_string(), "nope".to_string())]) {
        Err(VerifierError::Identity(IdentityError::Pem(_))) => {},
        _ => panic!("expected a PEM error"),
    }
}

#[test]
fn later_key_for_same_id_wins() {
    let id = identity("agent:a", 1);
    let other = identity("agent:b", 2);
    let root = receipt(&id, Operation::UserInput, &[], &[], "");
    let v = Verifier::new(vec![
        (id.key_id().to_string(), other.public_key_pem().to_string()),
        (id.key_id().to_string(), id.public_key_pem().to_string()),
    ])
    .unwrap();
    assert!(v.verify_signature(&root));
    let w = Verifier::new(vec![
        (id.key_id().to_string(), id.public_key_pem().to_string()),
        (id.key_id().to_string(), other.public_key_pem().to_string()),
    ])
    .unwrap();
    assert!(!w.verify_signature(&root));
}

#[test]
fn trace_walks_back_breadth_first() {
    let id = identity("agent:a", 1);
    let a = receipt(&id, Operation::UserInput, &[], &[], "");
    let b = receipt(&id, Operation::Retrieval, &[], &[], "");
    let c = receipt(&id, Operation::ModelCall, &[&a], &[], "");
    let d = receipt(&id, Operation::Merge, &[&c, &b], &[], "");
    let unrelated = receipt(&id, Operation::ToolCall, &[], &[], "x");
    let lines = vec![line(&a), line(&b), line(&c), line(&d), line(&unrelated), "junk".to_string()];
    let v = verifier_for(&[&id]);
    let out = v.trace(&d.receipt_hash, &lines).unwrap();
    let hashes: Vec<String> = out.iter().map(|r| r.receipt_hash.clone()).collect();
    // d's parents are signed sorted, so they are visited in hash order.
    let mut ps = vec![c.receipt_hash.clone(), b.receipt_hash.clone()];
    ps.sort();
    let mut expected = vec![d.receipt_hash.clone()];
    expected.extend(ps.iter().cloned());
    expected.push(a.receipt_hash.clone());
    assert_eq!(hashes, expected);
    assert_eq!(out[0].operation, Operation::Merge);
    let single = v.trace(&a.receipt_hash, &lines).unwrap();
    assert_eq!(single.len(), 1);
}

#[test]
fn trace_of_unknown_hash_fails() {
    let id = identity("agent:a", 1);
    let a = receipt(&id, Operation::UserInput, &[], &[], "");
    match verifier_for(&[&id]).trace("sha256:none", &vec![line(&a)]) {
        Err(VerifierError::Receipt(ReceiptError::Malformed(m))) => {
            assert_eq!(m, "receipt sha256:none not found in chain")
        },
        _ => panic!("expected not found"),
    }
}

#[test]
fn verifier_error_messages() {
    let e = VerifierError::Receipt(ReceiptError::Malformed("x".to_string()));
    assert_eq!(e.message(), "receipt error: malformed receipt: x");
    let e = VerifierError::from(IdentityError::Pem("p".to_string()));
    assert_eq!(e.message(), "identity error: PEM error: p");
    let io = std::io::Error::new(std::io::ErrorKind::Other, "disk");
    let e = VerifierError::from(io);
    assert_eq!(e.message(), "I/O error: disk");
}

#[test]
fn hash_of_log_line_jws() {
    let id = identity("agent:a", 1);
    let a = receipt(&id, Operation::UserInput, &[], &[], "");
    assert_eq!(a.receipt_hash, hash_text(&a.jws));
}

#[test]
fn error_count_matches_counters() {
    let id = identity("agent:a", 1);
    let other = identity("agent:b", 2);
    let root = receipt(&id, Operation::UserInput, &[], &["x"], "");
    let orphan_parent = receipt(&id, Operation::UserInput, &[], &[], "p");
    let child = receipt(&other, Operation::ToolCall, &[&root, &orphan_parent], &[], "");
    let forged = format!(r#"{{"jws":"{}","receipt_hash":"sha256:0"}}"#, root.jws);
    let lines = vec![forged, line(&child), "nope".to_string(), "".to_string()];
    let report = verifier_for(&[&id]).verify_chain(&lines);
    assert_eq!(report.receipt_count, 2);
    assert_eq!(report.signature_failures, 1);
    assert_eq!(report.parent_link_failures, 1);
    assert_eq!(report.taint_monotonicity_failures, 1);
    assert_eq!(report.tampered_receipts.len(), 1);
    // One unreadable line.
    assert_eq!(report.errors.len(), 1 + 1 + 1 + 1 + 1);
}

#[test]
fn line_order_does_not_change_the_findings() {
    let id = identity("agent:a", 1);
    let root = receipt(&id, Operation::UserInput, &[], &["x"], "");
    let child = receipt(&id, Operation::ToolCall, &[&root], &[], "");
    let forged = format!(r#"{{"jws":"{}","receipt_hash":"sha256:0"}}"#, root.jws);
    let a = vec![forged.clone(), line(&child), "junk".to_string()];
    let b = vec!["junk".to_string(), line(&child), forged];
    let v = verifier_for(&[&id]);
    let (r1, r2) = (v.verify_chain(&a), v.verify_chain(&b));
    assert_eq!(r1.valid, r2.valid);
    assert_eq!(r1.receipt_count, r2.receipt_count);
    assert_eq!(r1.signature_failures, r2.signature_failures);
    assert_eq!(r1.parent_link_failures, r2.parent_link_failures);
    assert_eq!(r1.taint_monotonicity_failures, r2.taint_monotonicity_failures);
    assert_eq!(r1.tampered_receipts, r2.tampered_receipts);
    assert_eq!(r1.taint_monotonicity_failures, 1);
}
