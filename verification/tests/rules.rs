use json_tree::number::{number_from_reading, parse_number};
use json_tree::parser::{
    parse_boolean, parse_json_array, parse_json_map, parse_json_root, parse_json_str,
    parse_json_value, parse_member, parse_null, parse_string, split, symbol,
};
use json_tree::text::{char_at, text_from, text_len};
use json_tree::value::insert_member;
use json_tree::JsonValue;

#[test]
fn split_takes_the_longest_run_of_blanks() {
    assert_eq!(split(" \t\r\n x y"), ("x y", " \t\r\n "));
    assert_eq!(split("x "), ("x ", ""));
    assert_eq!(split(""), ("", ""));
    assert_eq!(split("  "), ("", "  "));
    assert_eq!(split("\u{b}x"), ("\u{b}x", ""));
}

#[test]
fn symbol_reads_one_character_after_blanks() {
    assert_eq!(symbol("  , 1", ','), Some(" 1"));
    assert_eq!(symbol(",", ','), Some(""));
    assert_eq!(symbol("  ; 1", ','), None);
    assert_eq!(symbol("  ", ','), None);
}

#[test]
fn string_rule() {
    assert_eq!(parse_string("\"abc09Z\" tail"), Some((" tail", "abc09Z")));
    assert_eq!(parse_string("\"a\""), Some(("", "a")));
    assert_eq!(parse_string("\"\""), None);
    assert_eq!(parse_string("\"abc"), None);
    assert_eq!(parse_string("abc\""), None);
    assert_eq!(parse_string("\"a_b\""), None);
    assert_eq!(parse_string(" \"a\""), None);
    assert_eq!(parse_string(""), None);
}

#[test]
fn boolean_and_null_rules() {
    assert_eq!(parse_boolean("true,"), Some((",", true)));
    assert_eq!(parse_boolean("false"), Some(("", false)));
    assert_eq!(parse_boolean("truth"), None);
    assert_eq!(parse_boolean("fals"), None);
    assert_eq!(parse_null("nullable"), Some("able"));
    assert_eq!(parse_null("nul"), None);
    assert_eq!(parse_null("NULL"), None);
}

#[test]
fn number_rule() {
    assert_eq!(parse_number("11e-1"), Some(("", 1.1f64.to_bits())));
    assert_eq!(parse_number("123K-01"), Some(("K-01", 123.0f64.to_bits())));
    assert_eq!(parse_number("-0.25]"), Some(("]", (-0.25f64).to_bits())));
    assert_eq!(parse_number("abc"), None);
    assert_eq!(parse_number(""), None);
}

#[test]
fn a_reading_counts_when_it_consumed_something() {
    assert_eq!(number_from_reading("12,3", Some((2, 7))), Some((",3", 7)));
    assert_eq!(number_from_reading("12,3", Some((0, 7))), Some(("", 7)));
    assert_eq!(number_from_reading("12,3", Some((4, 7))), None);
    assert_eq!(number_from_reading("12,3", Some((9, 7))), None);
    assert_eq!(number_from_reading("12,3", None), None);
}

#[test]
fn value_rule_skips_blanks_and_takes_any_kind() {
    assert!(matches!(parse_json_value("  true]"), Some(("]", JsonValue::Boolean(true)))));
    assert!(matches!(parse_json_value("null,"), Some((",", JsonValue::Null))));
    assert!(matches!(parse_json_value(" \"s\" "), Some((" ", JsonValue::String(s))) if s == "s"));
    assert!(
        matches!(parse_json_value("2.5}"), Some(("}", JsonValue::Number(b))) if f64::from_bits(b) == 2.5)
    );
    assert!(matches!(parse_json_value(" [] x"), Some((" x", JsonValue::Array(a))) if a.is_empty()));
    assert!(matches!(parse_json_value("{}"), Some(("", JsonValue::Object(m))) if m.is_empty()));
    assert!(parse_json_value("  ").is_none());
    assert!(parse_json_value("x").is_none());
}

#[test]
fn root_rule_takes_no_atom_and_no_blanks() {
    assert!(matches!(parse_json_root("null "), Some((" ", JsonValue::Null))));
    assert!(matches!(parse_json_root("[1]"), Some(("", JsonValue::Array(a))) if a.len() == 1));
    assert!(parse_json_root(" null").is_none());
    assert!(parse_json_root("true").is_none());
    assert!(parse_json_root("1").is_none());
    assert!(parse_json_root("\"a\"").is_none());
}

#[test]
fn array_rule() {
    let (rest, items) = parse_json_array("[true , false]rest").unwrap();
    assert_eq!(rest, "rest");
    assert_eq!(items.len(), 2);
    assert!(parse_json_array("[true false]").is_none());
    assert!(parse_json_array("[true,]").is_none());
    assert!(parse_json_array("[,true]").is_none());
    assert!(parse_json_array("[true").is_none());
    assert!(parse_json_array(" []").is_none());
}

#[test]
fn member_and_object_rules() {
    let (rest, key, v) = parse_member("  \"k\"  : null,").unwrap();
    assert_eq!(rest, ",");
    assert_eq!(key, "k");
    assert!(matches!(v, JsonValue::Null));
    assert!(parse_member("\"k\" null").is_none());
    assert!(parse_member("k: null").is_none());
    assert!(parse_member("\"k\":").is_none());
    let (rest, members) = parse_json_map("{\"a\": null, \"b\": true} ").unwrap();
    assert_eq!(rest, " ");
    assert_eq!(members.len(), 2);
    assert!(parse_json_map("{\"a\": null \"b\": true}").is_none());
    assert!(parse_json_map("{\"a\"}").is_none());
    assert!(parse_json_map("[]").is_none());
}

#[test]
fn document_rule_leaves_what_follows_the_trailing_blanks() {
    assert!(matches!(parse_json_str("  null  "), Some(("", JsonValue::Null))));
    assert!(matches!(parse_json_str(" [] x "), Some(("x ", JsonValue::Array(_)))));
    assert!(parse_json_str(" 1 ").is_none());
}

#[test]
fn insert_member_replaces_or_appends() {
    let mut members: Vec<(String, JsonValue)> = Vec::new();
    insert_member(&mut members, "a".to_string(), JsonValue::Null);
    insert_member(&mut members, "b".to_string(), JsonValue::Boolean(true));
    insert_member(&mut members, "a".to_string(), JsonValue::Number(3));
    assert_eq!(members.len(), 2);
    assert_eq!(members[0].0, "a");
    assert!(matches!(members[0].1, JsonValue::Number(3)));
    assert_eq!(members[1].0, "b");
    assert!(matches!(members[1].1, JsonValue::Boolean(true)));
}

#[test]
fn text_access() {
    assert_eq!(text_len("abc"), 3);
    assert_eq!(text_len(""), 0);
    assert_eq!(char_at("abc", 1), 'b');
    assert_eq!(text_from("abc", 1), "bc");
    assert_eq!(text_from("abc", 3), "");
}
