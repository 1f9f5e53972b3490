use raucle_receipt::{canonicalize, canonicalize_bytes, canonicalize_value, JsonNumber, JsonValue};

fn s(x: &str) -> JsonValue {
    JsonValue::Str(x.to_string())
}

fn num(i: i64) -> JsonValue {
    JsonValue::Number(JsonNumber::Int(i))
}

fn obj(members: Vec<(&str, JsonValue)>) -> JsonValue {
    JsonValue::Object(members.into_iter().map(|(k, v)| (k.to_string(), v)).collect())
}

#[test]
fn sorts_keys_and_omits_whitespace() {
    assert_eq!(
        canonicalize_value(&obj(vec![("b", num(1)), ("a", num(2))])),
        r#"{"a":2,"b":1}"#
    );
}

#[test]
fn nested_keys_sorted() {
    assert_eq!(
        canonicalize_value(&obj(vec![
            ("z", num(1)),
            ("a", obj(vec![("b", num(2)), ("a", num(1))])),
        ])),
        r#"{"a":{"a":1,"b":2},"z":1}"#,
    );
}

#[test]
fn non_ascii_passes_through() {
    assert_eq!(canonicalize_value(&s("café")), "\"café\"");
    assert_eq!(canonicalize_value(&s("→")), "\"→\"");
}

#[test]
fn json_control_chars_escaped() {
    assert_eq!(canonicalize_value(&s("a\nb")), r#""a\nb""#);
    assert_eq!(canonicalize_value(&s("he said \"hi\"")), r#""he said \"hi\"""#);
}

#[test]
fn array_preserves_order() {
    assert_eq!(
        canonicalize_value(&JsonValue::Array(vec![num(3), num(1), num(2)])),
        "[3,1,2]"
    );
}

#[test]
fn null_and_bools() {
    assert_eq!(
        canonicalize_value(&obj(vec![
            ("x", JsonValue::Null),
            ("y", JsonValue::Bool(true)),
            ("z", JsonValue::Bool(false)),
        ])),
        r#"{"x":null,"y":true,"z":false}"#,
    );
}

#[test]
fn member_order_does_not_change_canonical_text() {
    let a = obj(vec![("k", s("v")), ("b", num(-7)), ("a", JsonValue::Array(vec![]))]);
    let b = obj(vec![("a", JsonValue::Array(vec![])), ("k", s("v")), ("b", num(-7))]);
    assert_eq!(canonicalize_value(&a), canonicalize_value(&b));
    assert_eq!(canonicalize_value(&a), r#"{"a":[],"b":-7,"k":"v"}"#);
}

#[test]
fn keys_sort_by_bytes() {
    // Upper case sorts before lower case, and a prefix before its extensions.
    let v = obj(vec![("b", num(1)), ("ab", num(2)), ("a", num(3)), ("B", num(4))]);
    assert_eq!(canonicalize_value(&v), r#"{"B":4,"a":3,"ab":2,"b":1}"#);
}

#[test]
fn other_control_chars_use_unicode_escapes() {
    assert_eq!(canonicalize_value(&s("\u{1}\t\u{1f}")), r#""\u0001\t\u001f""#);
    assert_eq!(canonicalize_value(&s("\u{8}\u{c}\r\\")), r#""\b\f\r\\""#);
}

#[test]
fn integers_minimal_and_other_numbers_kept() {
    assert_eq!(canonicalize_value(&num(0)), "0");
    assert_eq!(canonicalize_value(&num(i64::MIN)), "-9223372036854775808");
    assert_eq!(
        canonicalize_value(&JsonValue::Number(JsonNumber::UInt(u64::MAX))),
        "18446744073709551615"
    );
    assert_eq!(
        canonicalize_value(&JsonValue::Number(JsonNumber::Text("1.5".to_string()))),
        "1.5"
    );
}

#[test]
fn canonicalize_and_bytes_agree() {
    let v = obj(vec![("é", s("ü")), ("a", JsonValue::Null)]);
    let text = canonicalize_value(&v);
    assert_eq!(canonicalize_bytes(&v), text.as_bytes().to_vec());
    assert_eq!(canonicalize(v), text);
}
