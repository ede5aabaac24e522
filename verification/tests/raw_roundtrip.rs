use json_path_extract::batch::json_get_int;
use json_path_extract::batch::json_get_raw;
use json_path_extract::batch::json_get_str;
use json_path_extract::nav::Accessor;
use json_path_extract::nav::navigate;
use json_path_extract::scan::Kind;

fn key(name: &str) -> Accessor {
    Accessor::Key(name.as_bytes().to_vec())
}

fn idx(position: u64) -> Accessor {
    Accessor::Index(position)
}

#[test]
fn raw_object_is_the_exact_source_substring() {
    let json = br#"{"a": {"x": 1,  "y": [true, "z"]} , "b": 2}"#;
    let got = json_get_raw(Some(json), &vec![key("a")]).unwrap();
    assert_eq!(got, br#"{"x": 1,  "y": [true, "z"]}"#.to_vec());
}

#[test]
fn raw_array_is_the_exact_source_substring() {
    let json = br#"{"a": [ 1, {"k": "v"}, null ]}"#;
    let got = json_get_raw(Some(json), &vec![key("a")]).unwrap();
    assert_eq!(got, br#"[ 1, {"k": "v"}, null ]"#.to_vec());
}

#[test]
fn raw_fragment_reparses_to_an_equivalent_document() {
    let json = br#"{"a": {"x": [1, 2], "y": "s"}, "b": 0}"#;
    let fragment = json_get_raw(Some(json), &vec![key("a")]).unwrap();

    // the fragment is a complete document of the kind found in place
    let (_, kind) = navigate(&fragment, &vec![]).unwrap();
    assert_eq!(kind, Kind::Object);
    let (_, kind_in_place) = navigate(json, &vec![key("a")]).unwrap();
    assert_eq!(kind, kind_in_place);

    // navigating inside the fragment matches navigating from where it stood
    assert_eq!(
        json_get_int(Some(fragment.as_slice()), &vec![key("x"), idx(1)]),
        json_get_int(Some(json), &vec![key("a"), key("x"), idx(1)]),
    );
    assert_eq!(
        json_get_str(Some(fragment.as_slice()), &vec![key("y")]),
        json_get_str(Some(json), &vec![key("a"), key("y")]),
    );
    assert_eq!(json_get_int(Some(fragment.as_slice()), &vec![key("x"), idx(1)]), Some(2));
}
