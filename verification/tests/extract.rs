use json_path_extract::batch::json_get_bool;
use json_path_extract::batch::json_get_bool_text;
use json_path_extract::batch::json_get_int;
use json_path_extract::batch::json_get_number_text;
use json_path_extract::batch::json_get_raw;
use json_path_extract::batch::json_get_str;
use json_path_extract::nav::Accessor;
use json_path_extract::nav::navigate;

fn key(name: &str) -> Accessor {
    Accessor::Key(name.as_bytes().to_vec())
}

fn idx(position: u64) -> Accessor {
    Accessor::Index(position)
}

#[test]
fn string_at_nested_key() {
    let json = br#"{"a": {"b": "hello"}}"#;
    let path = vec![key("a"), key("b")];
    assert_eq!(json_get_str(Some(json), &path), Some(b"hello".to_vec()));
}

#[test]
fn integer_at_array_index() {
    let json = br#"{"a": [1,2,3]}"#;
    let path = vec![key("a"), idx(1)];
    assert_eq!(json_get_int(Some(json), &path), Some(2));
}

#[test]
fn keying_into_non_object_is_null() {
    let json = br#"{"a": 1}"#;
    let path = vec![key("a"), key("b")];
    assert_eq!(json_get_str(Some(json), &path), None);
    assert_eq!(json_get_int(Some(json), &path), None);
    assert_eq!(json_get_raw(Some(json), &path), None);
}

#[test]
fn type_mismatch_is_null() {
    let json = br#"{"a": "x"}"#;
    let path = vec![key("a")];
    assert_eq!(json_get_int(Some(json), &path), None);
    assert_eq!(json_get_bool(Some(json), &path), None);
}

#[test]
fn null_input_is_null_for_every_type() {
    let path = vec![key("a")];
    assert_eq!(json_get_str(None, &path), None);
    assert_eq!(json_get_int(None, &path), None);
    assert_eq!(json_get_bool(None, &path), None);
    assert_eq!(json_get_bool_text(None, &path), None);
    assert_eq!(json_get_raw(None, &path), None);
    assert_eq!(json_get_number_text(None, &path), None);
}

#[test]
fn index_out_of_bounds_is_null() {
    let json = br#"{"a":[1,2]}"#;
    let path = vec![key("a"), idx(5)];
    assert_eq!(json_get_int(Some(json), &path), None);
    assert_eq!(json_get_raw(Some(json), &path), None);
}

#[test]
fn missing_key_is_null() {
    let json = br#"{"a": 1}"#;
    let path = vec![key("b")];
    assert_eq!(json_get_int(Some(json), &path), None);
}

#[test]
fn indexing_into_object_is_null() {
    let json = br#"{"a": 1}"#;
    let path = vec![idx(0)];
    assert_eq!(json_get_raw(Some(json), &path), None);
}

#[test]
fn boolean_literals() {
    let json = br#"{"t": true, "f": false}"#;
    assert_eq!(json_get_bool(Some(json), &vec![key("t")]), Some(true));
    assert_eq!(json_get_bool(Some(json), &vec![key("f")]), Some(false));
    assert_eq!(json_get_bool_text(Some(json), &vec![key("t")]), Some(b"true".to_vec()));
    assert_eq!(json_get_bool_text(Some(json), &vec![key("f")]), Some(b"false".to_vec()));
}

#[test]
fn string_escapes_decode() {
    let json = br#"{"a": "h\ti\n\"q\" A"}"#;
    let got = json_get_str(Some(json), &vec![key("a")]).unwrap();
    assert_eq!(got, b"h\ti\n\"q\" A".to_vec());
}

#[test]
fn surrogate_pair_decodes_to_utf8() {
    let json = br#"{"a": "\ud83d\ude00"}"#;
    let got = json_get_str(Some(json), &vec![key("a")]).unwrap();
    assert_eq!(got, vec![0xf0, 0x9f, 0x98, 0x80]);
}

#[test]
fn basic_multilingual_escape_decodes_to_utf8() {
    let json = br#"{"a": "\u00e9\u20acA"}"#;
    let got = json_get_str(Some(json), &vec![key("a")]).unwrap();
    assert_eq!(got, vec![0xc3, 0xa9, 0xe2, 0x82, 0xac, 0x41]);
}

#[test]
fn lone_surrogate_is_null() {
    let json = br#"{"a": "\ud83d"}"#;
    assert_eq!(json_get_str(Some(json), &vec![key("a")]), None);
}

#[test]
fn integer_bounds() {
    let json = br#"{"max": 9223372036854775807, "min": -9223372036854775808, "big": 9223372036854775808}"#;
    assert_eq!(json_get_int(Some(json), &vec![key("max")]), Some(i64::MAX));
    assert_eq!(json_get_int(Some(json), &vec![key("min")]), Some(i64::MIN));
    assert_eq!(json_get_int(Some(json), &vec![key("big")]), None);
}

#[test]
fn fractional_number_is_not_an_integer() {
    let json = br#"{"a": 2.5, "b": 2.0, "c": 2e1}"#;
    assert_eq!(json_get_int(Some(json), &vec![key("a")]), None);
    assert_eq!(json_get_int(Some(json), &vec![key("b")]), None);
    assert_eq!(json_get_int(Some(json), &vec![key("c")]), None);
}

#[test]
fn negative_integer_decodes() {
    let json = br#"{"a": -42}"#;
    assert_eq!(json_get_int(Some(json), &vec![key("a")]), Some(-42));
}

#[test]
fn number_text_keeps_the_literal() {
    let json = br#"{"a": 2.5, "b": -1e-3, "c": 7}"#;
    assert_eq!(json_get_number_text(Some(json), &vec![key("a")]), Some(b"2.5".to_vec()));
    assert_eq!(json_get_number_text(Some(json), &vec![key("b")]), Some(b"-1e-3".to_vec()));
    assert_eq!(json_get_number_text(Some(json), &vec![key("c")]), Some(b"7".to_vec()));
    assert_eq!(json_get_number_text(Some(json), &vec![key("a"), key("x")]), None);
}

#[test]
fn duplicate_keys_resolve_to_first() {
    let json = br#"{"a": 1, "a": 2}"#;
    assert_eq!(json_get_int(Some(json), &vec![key("a")]), Some(1));
}

#[test]
fn empty_path_finds_the_root() {
    let json = br#"  [1, 2]  "#;
    let path: Vec<Accessor> = vec![];
    assert_eq!(json_get_raw(Some(json), &path), Some(b"[1, 2]".to_vec()));
}

#[test]
fn malformed_json_is_null() {
    let path = vec![key("a")];
    assert_eq!(json_get_int(Some(br#"{"a": "#), &path), None);
    assert_eq!(json_get_int(Some(br#"{"b": [1,}, "a": 1}"#), &path), None);
    assert_eq!(json_get_str(Some(br#"{"a" "x"}"#), &path), None);
    assert_eq!(json_get_str(Some(b"garbage"), &path), None);
}

#[test]
fn navigation_is_deterministic() {
    let json = br#"{"a": [1, {"b": "x"}], "c": null}"#;
    let path = vec![key("a"), idx(1), key("b")];
    let first = navigate(json, &path);
    let second = navigate(json, &path);
    assert_eq!(first, second);
    let path2 = vec![key("missing")];
    assert_eq!(navigate(json, &path2), navigate(json, &path2));
}

#[test]
fn null_literal_has_its_own_kind() {
    let json = br#"{"c": null}"#;
    assert_eq!(json_get_raw(Some(json), &vec![key("c")]), Some(b"null".to_vec()));
    assert_eq!(json_get_str(Some(json), &vec![key("c")]), None);
    assert_eq!(json_get_int(Some(json), &vec![key("c")]), None);
}
