use json_tree::error::{decimal_text, digit_text};
use json_tree::{JsonError, JsonValue};

fn number(v: &JsonValue) -> f64 {
    match v {
        JsonValue::Number(bits) => f64::from_bits(*bits),
        other => panic!("not a number: {:?}", other),
    }
}

fn items(v: &JsonValue) -> &Vec<JsonValue> {
    match v {
        JsonValue::Array(items) => items,
        other => panic!("not an array: {:?}", other),
    }
}

fn members(v: &JsonValue) -> &Vec<(String, JsonValue)> {
    match v {
        JsonValue::Object(members) => members,
        other => panic!("not an object: {:?}", other),
    }
}

#[test]
fn test_json_value() {
    assert!(JsonValue::from_str(r#"{"key": "value"}"#).is_ok());
    assert!(JsonValue::from_str(r#"[1, "two"]"#).is_ok());
    assert!(JsonValue::from_str("null").is_ok());
    assert!(JsonValue::from_str(r#"{"key": null}"#).is_ok());
    assert!(JsonValue::from_str("{\"key\": \"???\"}").is_err());
    assert!(JsonValue::from_str("{\"key\": \"中文\"}").is_err());
}

#[test]
fn empty_object_array_and_null() {
    assert!(matches!(JsonValue::parse("{}"), Ok(JsonValue::Object(m)) if m.is_empty()));
    assert!(matches!(JsonValue::parse("[]"), Ok(JsonValue::Array(a)) if a.is_empty()));
    assert!(matches!(JsonValue::parse("null"), Ok(JsonValue::Null)));
}

#[test]
fn blanks_inside_empty_brackets() {
    assert!(matches!(JsonValue::parse("[ \t]"), Ok(JsonValue::Array(a)) if a.is_empty()));
    assert!(matches!(JsonValue::parse("{\r\n}"), Ok(JsonValue::Object(m)) if m.is_empty()));
}

#[test]
fn root_of_a_document_is_structural() {
    for text in ["{}", "[]", "null", "[true]", r#"{"a": [1]}"#, "  null\n"] {
        let v = JsonValue::parse(text).unwrap();
        assert!(matches!(v, JsonValue::Null | JsonValue::Array(_) | JsonValue::Object(_)));
    }
}

#[test]
fn non_ascii_is_an_encoding_error() {
    assert_eq!(JsonValue::parse("é").unwrap_err(), JsonError::Encoding);
    assert_eq!(JsonValue::parse("null é").unwrap_err(), JsonError::Encoding);
    assert_eq!(JsonValue::parse("{\"key\": \"中文\"}").unwrap_err(), JsonError::Encoding);
    assert_eq!(JsonValue::parse("[[[ é").unwrap_err(), JsonError::Encoding);
    assert_eq!(
        JsonValue::from_str("nul\u{80}").unwrap_err(),
        "only support ASCII alphanumeric, does not support string contains Unicode"
    );
}

#[test]
fn strings_hold_letters_and_digits_only() {
    assert!(JsonValue::parse(r#"["abc123XYZ"]"#).is_ok());
    assert_eq!(JsonValue::parse(r#"["a b"]"#).unwrap_err(), JsonError::Root { at: 0 });
    assert_eq!(JsonValue::parse(r#"["a-b"]"#).unwrap_err(), JsonError::Root { at: 0 });
    assert_eq!(JsonValue::parse(r#"["a\n"]"#).unwrap_err(), JsonError::Root { at: 0 });
    assert_eq!(JsonValue::parse(r#"[""]"#).unwrap_err(), JsonError::Root { at: 0 });
    assert_eq!(JsonValue::parse(r#"{"a b": null}"#).unwrap_err(), JsonError::Root { at: 0 });
    assert_eq!(JsonValue::parse(r#"{"": null}"#).unwrap_err(), JsonError::Root { at: 0 });
    assert_eq!(JsonValue::parse(r#"["abc]"#).unwrap_err(), JsonError::Root { at: 0 });
}

#[test]
fn duplicate_key_keeps_the_later_value() {
    let v = JsonValue::parse(r#"{"a": true, "a": false}"#).unwrap();
    let m = members(&v);
    assert_eq!(m.len(), 1);
    assert_eq!(m[0].0, "a");
    assert!(matches!(m[0].1, JsonValue::Boolean(false)));
}

#[test]
fn duplicate_key_keeps_its_first_place() {
    let v = JsonValue::parse(r#"{"a": true, "b": null, "a": [2]}"#).unwrap();
    let m = members(&v);
    assert_eq!(m.len(), 2);
    assert_eq!(m[0].0, "a");
    assert_eq!(number(&items(&m[0].1)[0]), 2.0);
    assert_eq!(m[1].0, "b");
    assert!(matches!(m[1].1, JsonValue::Null));
}

#[test]
fn bare_atoms_are_no_documents() {
    assert_eq!(JsonValue::parse("true").unwrap_err(), JsonError::Root { at: 0 });
    assert_eq!(JsonValue::parse("123").unwrap_err(), JsonError::Root { at: 0 });
    assert_eq!(JsonValue::parse("\"ok\"").unwrap_err(), JsonError::Root { at: 0 });
    let v = JsonValue::parse(r#"{"k": true}"#).unwrap();
    assert!(matches!(members(&v)[0].1, JsonValue::Boolean(true)));
    let v = JsonValue::parse(r#"{"k": 123}"#).unwrap();
    assert_eq!(number(&members(&v)[0].1), 123.0);
    let v = JsonValue::parse(r#"{"k": "ok"}"#).unwrap();
    assert!(matches!(&members(&v)[0].1, JsonValue::String(s) if s == "ok"));
}

#[test]
fn nested_values() {
    let v = JsonValue::parse(r#"[1, [2, 3], {"x": null}]"#).unwrap();
    let outer = items(&v);
    assert_eq!(outer.len(), 3);
    assert_eq!(number(&outer[0]), 1.0);
    let inner = items(&outer[1]);
    assert_eq!(inner.len(), 2);
    assert_eq!(number(&inner[0]), 2.0);
    assert_eq!(number(&inner[1]), 3.0);
    let m = members(&outer[2]);
    assert_eq!(m.len(), 1);
    assert_eq!(m[0].0, "x");
    assert!(matches!(m[0].1, JsonValue::Null));
}

#[test]
fn malformed_structure_is_reported() {
    for text in ["{", "[", "[1,]", r#"{"a" true}"#, r#"{"a": true,}"#, "[1 2]", "]", "}", "[1}",
        r#"{"a": }"#, r#"{a: 1}"#, r#"{"a": 1"#, "[[1]", ""]
    {
        assert_eq!(JsonValue::parse(text).unwrap_err(), JsonError::Root { at: 0 }, "{:?}", text);
    }
}

#[test]
fn nothing_may_follow_the_root() {
    assert!(JsonValue::parse(" \t\r\n null \t\r\n ").is_ok());
    assert_eq!(JsonValue::parse("null x").unwrap_err(), JsonError::Trailing { at: 5 });
    assert_eq!(JsonValue::parse("nullify").unwrap_err(), JsonError::Trailing { at: 4 });
    assert_eq!(JsonValue::parse("[] []").unwrap_err(), JsonError::Trailing { at: 3 });
    assert_eq!(JsonValue::parse("{},").unwrap_err(), JsonError::Trailing { at: 2 });
    assert_eq!(JsonValue::parse(" [1]\n\n]").unwrap_err(), JsonError::Trailing { at: 6 });
}

#[test]
fn a_missing_root_is_reported_behind_the_leading_blanks() {
    assert_eq!(JsonValue::parse("").unwrap_err(), JsonError::Root { at: 0 });
    assert_eq!(JsonValue::parse("   ").unwrap_err(), JsonError::Root { at: 3 });
    assert_eq!(JsonValue::parse(" \t[1,]").unwrap_err(), JsonError::Root { at: 2 });
    assert_eq!(JsonValue::parse("\n\ntrue").unwrap_err(), JsonError::Root { at: 2 });
}

#[test]
fn errors_in_words() {
    assert_eq!(
        JsonValue::from_str("[1,]").unwrap_err(),
        "expected an object, an array or null at position 0"
    );
    assert_eq!(
        JsonValue::from_str("            x").unwrap_err(),
        "expected an object, an array or null at position 12"
    );
    assert_eq!(
        JsonValue::from_str("null   x").unwrap_err(),
        "unexpected text after the root value at position 7"
    );
    assert_eq!(
        JsonError::Trailing { at: 1203 }.message(),
        "unexpected text after the root value at position 1203"
    );
    assert_eq!(
        JsonError::Encoding.message(),
        "only support ASCII alphanumeric, does not support string contains Unicode"
    );
}

#[test]
fn numbers_in_decimal_digits() {
    assert_eq!(decimal_text(0), "0");
    assert_eq!(decimal_text(7), "7");
    assert_eq!(decimal_text(10), "10");
    assert_eq!(decimal_text(9876543210), "9876543210");
    assert_eq!(decimal_text(usize::MAX), usize::MAX.to_string());
    for d in 0..10 {
        assert_eq!(digit_text(d), d.to_string());
    }
}

#[test]
fn keywords_are_case_sensitive() {
    assert_eq!(JsonValue::parse("Null").unwrap_err(), JsonError::Root { at: 0 });
    assert_eq!(JsonValue::parse("[True]").unwrap_err(), JsonError::Root { at: 0 });
    assert_eq!(JsonValue::parse("[FALSE]").unwrap_err(), JsonError::Root { at: 0 });
    assert_eq!(JsonValue::parse("[nullx]").unwrap_err(), JsonError::Root { at: 0 });
    assert_eq!(JsonValue::parse("[truefalse]").unwrap_err(), JsonError::Root { at: 0 });
}

#[test]
fn numbers_have_their_exact_value() {
    let v = JsonValue::parse("[1.5, -2e3, 0, 123E-02, +7, .5, 1e400]").unwrap();
    let a = items(&v);
    assert_eq!(a.len(), 7);
    assert!(matches!(a[0], JsonValue::Number(bits) if bits == 1.5f64.to_bits()));
    assert_eq!(number(&a[1]), -2000.0);
    assert_eq!(number(&a[2]), 0.0);
    assert_eq!(number(&a[3]), 1.23);
    assert_eq!(number(&a[4]), 7.0);
    assert_eq!(number(&a[5]), 0.5);
    assert_eq!(number(&a[6]), f64::INFINITY);
}

#[test]
fn an_exponent_needs_digits() {
    assert_eq!(JsonValue::parse("[1e]").unwrap_err(), JsonError::Root { at: 0 });
    assert_eq!(JsonValue::parse("[-]").unwrap_err(), JsonError::Root { at: 0 });
}

#[test]
fn order_of_items_is_kept() {
    let v = JsonValue::parse(r#"["c", "a", "b", true, false, null]"#).unwrap();
    let a = items(&v);
    assert!(matches!(&a[0], JsonValue::String(s) if s == "c"));
    assert!(matches!(&a[1], JsonValue::String(s) if s == "a"));
    assert!(matches!(&a[2], JsonValue::String(s) if s == "b"));
    assert!(matches!(a[3], JsonValue::Boolean(true)));
    assert!(matches!(a[4], JsonValue::Boolean(false)));
    assert!(matches!(a[5], JsonValue::Null));
}

#[test]
fn blanks_are_allowed_between_tokens() {
    let v = JsonValue::parse("{ \"a\" :\ttrue ,\r\n\"b\" : [ 1 , 2 ] }").unwrap();
    let m = members(&v);
    assert_eq!(m.len(), 2);
    assert_eq!(m[1].0, "b");
    assert_eq!(items(&m[1].1).len(), 2);
}

#[test]
fn lookup_by_key() {
    let v = JsonValue::parse(r#"{"a": true, "b": [1], "a": false}"#).unwrap();
    assert!(matches!(v.get(&"a".to_string()), Some(JsonValue::Boolean(false))));
    assert!(matches!(v.get(&"b".to_string()), Some(JsonValue::Array(_))));
    assert!(v.get(&"c".to_string()).is_none());
    assert!(JsonValue::Null.get(&"a".to_string()).is_none());
    assert!(JsonValue::parse("[]").unwrap().get(&"a".to_string()).is_none());
    let twice = JsonValue::Object(vec![
        ("k".to_string(), JsonValue::Null),
        ("k".to_string(), JsonValue::Boolean(true)),
    ]);
    assert!(matches!(twice.get(&"k".to_string()), Some(JsonValue::Boolean(true))));
}
