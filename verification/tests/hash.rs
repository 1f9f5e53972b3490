use raucle_receipt::{hash_obj, hash_text, sha256_hex, JsonNumber, JsonValue};

fn num(i: i64) -> JsonValue {
    JsonValue::Number(JsonNumber::Int(i))
}

fn obj(members: Vec<(&str, JsonValue)>) -> JsonValue {
    JsonValue::Object(members.into_iter().map(|(k, v)| (k.to_string(), v)).collect())
}

#[test]
fn deterministic_and_prefixed() {
    assert_eq!(hash_text("hello"), hash_text("hello"));
    assert_ne!(hash_text("hello"), hash_text("world"));
    assert!(hash_text("x").starts_with("sha256:"));
    assert_eq!(hash_text("x").len(), "sha256:".len() + 64);
}

#[test]
fn obj_order_independent() {
    assert_eq!(
        hash_obj(&obj(vec![("a", num(1)), ("b", num(2))])),
        hash_obj(&obj(vec![("b", num(2)), ("a", num(1))])),
    );
    assert_ne!(hash_obj(&obj(vec![("a", num(1))])), hash_obj(&obj(vec![("a", num(2))])));
}

#[test]
fn sha256_known_values() {
    assert_eq!(
        sha256_hex(b""),
        "e3b0c44298fc1c149afbf4c8996fb92427ae41e4649b934ca495991b7852b855"
    );
    assert_eq!(
        sha256_hex(b"abc"),
        "ba7816bf8f01cfea414140de5dae2223b00361a396177a9cb410ff61f20015ad"
    );
    assert_eq!(
        hash_text("abc"),
        "sha256:ba7816bf8f01cfea414140de5dae2223b00361a396177a9cb410ff61f20015ad"
    );
}

#[test]
fn hash_obj_hashes_canonical_text() {
    let v = obj(vec![("b", num(1)), ("a", num(2))]);
    assert_eq!(hash_obj(&v), hash_text(r#"{"a":2,"b":1}"#));
}

#[test]
fn obj_order_independent_at_depth() {
    let a = obj(vec![("x", obj(vec![("q", num(1)), ("p", JsonValue::Array(vec![obj(vec![("b", num(2)), ("a", num(3))])]))])), ("w", num(0))]);
    let b = obj(vec![("w", num(0)), ("x", obj(vec![("p", JsonValue::Array(vec![obj(vec![("a", num(3)), ("b", num(2))])])), ("q", num(1))]))]);
    assert_eq!(hash_obj(&a), hash_obj(&b));
}
