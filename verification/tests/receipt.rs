use raucle_receipt::{
    b64url_decode, b64url_encode, canonicalize_value, hash_text, AgentIdentity, GenerateOptions, JsonValue,
    Operation, Receipt, ReceiptError, ISSUER, RAUCLE_VERSION_TAG, RECEIPT_TYP, SPEC_URL, SPEC_VERSION,
};

fn identity(name: &str, seed: u8) -> AgentIdentity {
    AgentIdentity::from_key_at(
        [seed; 32],
        GenerateOptions { agent_id: name.to_string(), ..Default::default() },
        1_700_000_000,
    )
    .unwrap()
}

fn signed(id: &AgentIdentity, op: Operation) -> Receipt {
    let mut r = Receipt::new(id.agent_id.clone(), id.key_id().to_string(), op, 1_700_000_001);
    r.input_hash = hash_text("in");
    r.output_hash = hash_text("out");
    r.parents = vec!["sha256:b".to_string(), "sha256:a".to_string()];
    r.taint = vec!["t2".to_string(), "t1".to_string()];
    r.tenant = Some("acme".to_string());
    r.sign(id).unwrap();
    r
}

#[test]
fn constants() {
    assert_eq!(RECEIPT_TYP, "provenance-receipt/v1");
    assert_eq!(RAUCLE_VERSION_TAG, "raucle/v1");
    assert_eq!(ISSUER, "raucle-detect/provenance");
    assert_eq!(SPEC_URL, "https://raucle.com/spec/provenance/v1");
    assert_eq!(SPEC_VERSION, "raucle-provenance-receipt/v1");
}

#[test]
fn operation_names_round_trip() {
    let all = [
        Operation::UserInput,
        Operation::ModelCall,
        Operation::ToolCall,
        Operation::Retrieval,
        Operation::GuardrailScan,
        Operation::AgentHandoff,
        Operation::Sanitisation,
        Operation::Merge,
    ];
    for op in all.iter() {
        assert_eq!(Operation::parse(op.as_str()), Some(*op));
    }
    assert_eq!(Operation::UserInput.as_str(), "user_input");
    assert_eq!(Operation::GuardrailScan.as_str(), "guardrail_scan");
    assert_eq!(Operation::parse("sanitization"), None);
    assert_eq!(Operation::parse(""), None);
}

#[test]
fn sign_then_read_back() {
    let id = identity("agent:rb", 4);
    let r = signed(&id, Operation::ModelCall);
    let back = Receipt::from_jws(&r.jws).unwrap();
    assert_eq!(back.agent_id, "agent:rb");
    assert_eq!(back.agent_key_id, id.key_id());
    assert_eq!(back.operation, Operation::ModelCall);
    assert_eq!(back.issued_at, 1_700_000_001);
    assert_eq!(back.input_hash, r.input_hash);
    assert_eq!(back.output_hash, r.output_hash);
    // Lists are signed sorted.
    assert_eq!(back.parents, vec!["sha256:a".to_string(), "sha256:b".to_string()]);
    assert_eq!(back.taint, vec!["t1".to_string(), "t2".to_string()]);
    assert_eq!(back.tenant, Some("acme".to_string()));
    assert_eq!(back.jws, r.jws);
    assert_eq!(back.receipt_hash, r.receipt_hash);
    assert_eq!(r.receipt_hash, hash_text(&r.jws));
}

#[test]
fn header_is_canonical_and_critical() {
    let id = identity("agent:h", 5);
    let r = signed(&id, Operation::UserInput);
    let header = r.jws.split('.').next().unwrap();
    let text = String::from_utf8(b64url_decode(header).unwrap()).unwrap();
    assert_eq!(
        text,
        format!(
            r#"{{"alg":"EdDSA","crit":["raucle/v1"],"kid":"{}","raucle/v1":"provenance","typ":"provenance-receipt/v1"}}"#,
            id.key_id()
        )
    );
}

#[test]
fn payload_segment_is_canonical_payload() {
    let id = identity("agent:p", 6);
    let r = signed(&id, Operation::ToolCall);
    let payload = r.jws.split('.').nth(1).unwrap();
    assert_eq!(payload, b64url_encode(canonicalize_value(&r.payload()).as_bytes()));
    let text = canonicalize_value(&r.payload());
    assert!(text.contains(r#""iss":"raucle-detect/provenance""#));
    assert!(text.contains(r#""operation":"tool_call""#));
    assert!(text.contains(r#""tenant":"acme""#));
}

#[test]
fn signing_is_deterministic() {
    let id = identity("agent:d", 8);
    let a = signed(&id, Operation::Merge);
    let b = signed(&id, Operation::Merge);
    assert_eq!(a.jws, b.jws);
    assert_eq!(a.receipt_hash, b.receipt_hash);
}

#[test]
fn log_line_holds_hash_and_jws() {
    let id = identity("agent:l", 9);
    let r = signed(&id, Operation::Retrieval);
    let line = canonicalize_value(&r.to_log_line());
    assert!(line.contains(&format!(r#""jws":"{}""#, r.jws)));
    assert!(line.contains(&format!(r#""receipt_hash":"{}""#, r.receipt_hash)));
    match r.to_log_line() {
        JsonValue::Object(m) => assert!(m.iter().any(|(k, _)| k == "jws")),
        _ => panic!("log line is not an object"),
    }
}

#[test]
fn from_jws_errors() {
    match Receipt::from_jws("a.b") {
        Err(ReceiptError::Malformed(m)) => assert_eq!(m, "expected three dot-separated segments"),
        other => panic!("unexpected {:?}", other),
    }
    match Receipt::from_jws("a.!!!.c") {
        Err(e @ ReceiptError::DecodeBase64(_)) => assert!(e.message().starts_with("base64 decode error: ")),
        other => panic!("unexpected {:?}", other),
    }
    let not_json = b64url_encode(b"{nope");
    match Receipt::from_jws(&format!("a.{}.c", not_json)) {
        Err(e @ ReceiptError::DecodeJson(_)) => assert!(e.message().starts_with("JSON decode error: ")),
        other => panic!("unexpected {:?}", other),
    }
    let array = b64url_encode(b"[1,2]");
    match Receipt::from_jws(&format!("a.{}.c", array)) {
        Err(ReceiptError::Malformed(m)) => assert_eq!(m, "payload is not an object"),
        other => panic!("unexpected {:?}", other),
    }
    let no_op = b64url_encode(br#"{"agent_id":"agent:x"}"#);
    match Receipt::from_jws(&format!("a.{}.c", no_op)) {
        Err(ReceiptError::Malformed(m)) => assert_eq!(m, "missing 'operation'"),
        other => panic!("unexpected {:?}", other),
    }
    let bad_op = b64url_encode(br#"{"operation":"teleport"}"#);
    match Receipt::from_jws(&format!("a.{}.c", bad_op)) {
        Err(e @ ReceiptError::UnknownOperation(_)) => assert_eq!(e.message(), "unknown operation: \"teleport\""),
        other => panic!("unexpected {:?}", other),
    }
}

#[test]
fn from_jws_defaults_missing_fields() {
    let minimal = b64url_encode(br#"{"operation":"merge","iat":"late","parents":["x",1,"y"]}"#);
    let jws = format!("h.{}.s", minimal);
    let r = Receipt::from_jws(&jws).unwrap();
    assert_eq!(r.operation, Operation::Merge);
    assert_eq!(r.agent_id, "");
    assert_eq!(r.issued_at, 0);
    assert_eq!(r.parents, vec!["x".to_string(), "y".to_string()]);
    assert!(r.taint.is_empty());
    assert_eq!(r.tenant, None);
    assert_eq!(r.receipt_hash, hash_text(&jws));
}

#[test]
fn receipt_error_messages() {
    assert_eq!(ReceiptError::Malformed("m".to_string()).message(), "malformed receipt: m");
    assert_eq!(ReceiptError::Sign("s".to_string()).message(), "sign error: s");
    assert_eq!(ReceiptError::DecodeJson("j".to_string()).message(), "JSON decode error: j");
    assert_eq!(ReceiptError::DecodeBase64("b".to_string()).message(), "base64 decode error: b");
}

#[test]
fn b64url_round_trip() {
    let data: Vec<u8> = (0u8..=255).collect();
    let text = b64url_encode(&data);
    assert!(!text.contains('=') && !text.contains('+') && !text.contains('/'));
    assert_eq!(b64url_decode(&text).unwrap(), data);
    assert_eq!(text.len(), (4 * 256 + 2) / 3);
    assert!(b64url_decode("+/8").is_err());
    assert!(b64url_decode("aGk=").is_err());
    assert_eq!(b64url_encode(b"hi?"), "aGk_");
    assert!(b64url_decode("a").is_err());
}

#[test]
fn taint_is_signed_as_a_sorted_set() {
    let id = identity("agent:s", 11);
    let mut r = Receipt::new(id.agent_id.clone(), id.key_id().to_string(), Operation::ModelCall, 1);
    r.taint = vec!["b".to_string(), "a".to_string(), "b".to_string(), "a".to_string()];
    r.parents = vec!["p2".to_string(), "p1".to_string(), "p1".to_string()];
    r.sign(&id).unwrap();
    let text = canonicalize_value(&r.payload());
    assert!(text.contains(r#""taint":["a","b"]"#));
    assert!(text.contains(r#""parents":["p1","p1","p2"]"#));
    let back = Receipt::from_jws(&r.jws).unwrap();
    assert_eq!(back.taint, vec!["a".to_string(), "b".to_string()]);
    assert_eq!(back.parents, vec!["p1".to_string(), "p1".to_string(), "p2".to_string()]);
}
