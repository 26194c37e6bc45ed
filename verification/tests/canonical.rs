use pcl_ce_extension::json::{canonical_json, JsonNumber, JsonValue};

fn obj(entries: Vec<(&str, JsonValue)>) -> JsonValue {
    JsonValue::Object(entries.into_iter().map(|(k, v)| (k.to_string(), v)).collect())
}

fn num(n: u64) -> JsonValue {
    JsonValue::Number(JsonNumber::PosInt(n))
}

fn text(s: &str) -> JsonValue {
    JsonValue::String(s.to_string())
}

#[test]
fn test_canonical_json_object_sorts_keys() {
    let v = obj(vec![("z", num(1)), ("a", num(2)), ("m", num(3))]);
    assert_eq!(canonical_json(&v), r#"{"a":2,"m":3,"z":1}"#);
}

#[test]
fn test_canonical_json_nested() {
    let v = obj(vec![("b", obj(vec![("y", num(1)), ("x", num(2))])), ("a", num(1))]);
    assert_eq!(canonical_json(&v), r#"{"a":1,"b":{"x":2,"y":1}}"#);
}

#[test]
fn canonical_scalars() {
    assert_eq!(canonical_json(&JsonValue::Null), "null");
    assert_eq!(canonical_json(&JsonValue::Bool(true)), "true");
    assert_eq!(canonical_json(&JsonValue::Bool(false)), "false");
    assert_eq!(canonical_json(&num(0)), "0");
    assert_eq!(canonical_json(&num(18446744073709551615)), "18446744073709551615");
    assert_eq!(canonical_json(&JsonValue::Number(JsonNumber::NegInt(-42))), "-42");
    assert_eq!(
        canonical_json(&JsonValue::Number(JsonNumber::NegInt(i64::MIN))),
        "-9223372036854775808"
    );
    assert_eq!(canonical_json(&JsonValue::Number(JsonNumber::Float("1.5".to_string()))), "1.5");
}

#[test]
fn canonical_strings_escaped() {
    assert_eq!(canonical_json(&text("Song")), "\"Song\"");
    assert_eq!(canonical_json(&text("a\"b\\c\nd")), "\"a\\\"b\\\\c\\nd\"");
    assert_eq!(canonical_json(&text("\u{1}")), "\"\\u0001\"");
    assert_eq!(canonical_json(&text("é")), "\"é\"");
}

#[test]
fn canonical_arrays_keep_order() {
    let v = JsonValue::Array(vec![num(3), text("x"), JsonValue::Array(vec![]), obj(vec![])]);
    assert_eq!(canonical_json(&v), r#"[3,"x",[],{}]"#);
}

#[test]
fn canonical_ignores_entry_order() {
    let a = obj(vec![("title", text("Song")), ("artist", text("Me")), ("n", obj(vec![("q", num(1)), ("p", num(2))]))]);
    let b = obj(vec![("n", obj(vec![("p", num(2)), ("q", num(1))])), ("title", text("Song")), ("artist", text("Me"))]);
    assert_eq!(canonical_json(&a), canonical_json(&b));
    assert_eq!(canonical_json(&a), r#"{"artist":"Me","n":{"p":2,"q":1},"title":"Song"}"#);
}

#[test]
fn canonical_keys_sort_by_code_point() {
    let v = obj(vec![("b", num(1)), ("B", num(2)), ("ab", num(3)), ("a", num(4)), ("é", num(5))]);
    assert_eq!(canonical_json(&v), r#"{"B":2,"a":4,"ab":3,"b":1,"é":5}"#);
}

#[test]
fn canonical_keys_escaped() {
    let v = obj(vec![("k\"", num(1))]);
    assert_eq!(canonical_json(&v), "{\"k\\\"\":1}");
}

#[test]
fn json_field_access() {
    let v = obj(vec![("ms", num(5)), ("tag", text("t"))]);
    assert_eq!(v.get("ms").and_then(|x| x.as_u64()), Some(5));
    assert_eq!(v.get("tag").and_then(|x| x.as_str()), Some("t"));
    assert!(v.get("other").is_none());
    assert!(JsonValue::Null.get("ms").is_none());
    assert_eq!(JsonValue::Number(JsonNumber::NegInt(-1)).as_u64(), None);
}

#[test]
fn canonical_control_escapes() {
    assert_eq!(
        canonical_json(&text("\u{8}\t\u{c}\r\u{1f}/")),
        "\"\\b\\t\\f\\r\\u001f/\""
    );
}

#[test]
fn canonical_text_parses_back() {
    let v = obj(vec![
        ("a", JsonValue::Array(vec![num(1), JsonValue::Number(JsonNumber::NegInt(-7)), JsonValue::Null])),
        ("b", text("q\"\\\n\u{2}x")),
        ("c", obj(vec![("d", JsonValue::Bool(true)), ("e", JsonValue::Number(JsonNumber::Float("2.5".to_string())))])),
    ]);
    let parsed: serde_json::Value = serde_json::from_str(&canonical_json(&v)).unwrap();
    let mut inner = serde_json::Map::new();
    inner.insert("d".to_string(), serde_json::Value::Bool(true));
    inner.insert("e".to_string(), serde_json::Value::from(2.5));
    let mut expected = serde_json::Map::new();
    expected.insert(
        "a".to_string(),
        serde_json::Value::Array(vec![serde_json::Value::from(1u64), serde_json::Value::from(-7i64), serde_json::Value::Null]),
    );
    expected.insert("b".to_string(), serde_json::Value::String("q\"\\\n\u{2}x".to_string()));
    expected.insert("c".to_string(), serde_json::Value::Object(inner));
    assert_eq!(parsed, serde_json::Value::Object(expected));
}
