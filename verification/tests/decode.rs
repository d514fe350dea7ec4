use scoop_searchr::manifest::{
    decode_manifest, manifest_from_value, BinEntry, BinField, DecodeError, ManifestRecord,
};
use serde_json::{Number, Value};

fn text(s: &str) -> String {
    s.to_string()
}

fn record(version: &str, bin: Option<BinField>, description: Option<&str>) -> ManifestRecord {
    ManifestRecord {
        version: text(version),
        bundled_executables: bin,
        description: description.map(text),
    }
}

fn object(members: Vec<(&str, Value)>) -> Value {
    let mut map = serde_json::Map::new();
    for (key, value) in members {
        map.insert(text(key), value);
    }
    Value::Object(map)
}

#[test]
fn decodes_version_alone() {
    assert_eq!(decode_manifest(br#"{"version":"1.0"}"#), Ok(record("1.0", None, None)));
}

#[test]
fn decodes_bin_as_a_single_path() {
    assert_eq!(
        decode_manifest(br#"{"version":"1.0","bin":"foo.exe"}"#),
        Ok(record("1.0", Some(BinField::SinglePath(text("foo.exe"))), None))
    );
}

#[test]
fn decodes_bin_as_a_list_of_paths() {
    assert_eq!(
        decode_manifest(br#"{"version":"1.0","bin":["foo.exe","bar.exe"]}"#),
        Ok(record(
            "1.0",
            Some(BinField::List(vec![
                BinEntry::Path(text("foo.exe")),
                BinEntry::Path(text("bar.exe")),
            ])),
            None
        ))
    );
}

#[test]
fn decodes_bin_as_a_list_of_commands_and_paths() {
    assert_eq!(
        decode_manifest(br#"{"version":"2","bin":[["foo.exe","--arg"],"bar.exe",[]]}"#),
        Ok(record(
            "2",
            Some(BinField::List(vec![
                BinEntry::Command(vec![text("foo.exe"), text("--arg")]),
                BinEntry::Path(text("bar.exe")),
                BinEntry::Command(vec![]),
            ])),
            None
        ))
    );
}

#[test]
fn decodes_an_empty_bin_list() {
    assert_eq!(
        decode_manifest(br#"{"version":"1","bin":[]}"#),
        Ok(record("1", Some(BinField::List(vec![])), None))
    );
}

#[test]
fn decodes_description() {
    assert_eq!(
        decode_manifest(br#"{"description":"Distributed VCS","version":"1.0"}"#),
        Ok(record("1.0", None, Some("Distributed VCS")))
    );
}

#[test]
fn null_bin_and_description_are_absent() {
    assert_eq!(
        decode_manifest(br#"{"version":"1.0","bin":null,"description":null}"#),
        Ok(record("1.0", None, None))
    );
}

#[test]
fn members_that_are_not_read_are_passed_over() {
    assert_eq!(
        decode_manifest(
            br#"{"homepage":"https://example.org","version":"3.1","license":{"id":"MIT"},"n":[1,2.5,true,null]}"#
        ),
        Ok(record("3.1", None, None))
    );
}

#[test]
fn escapes_and_white_space_are_read_as_json_reads_them() {
    assert_eq!(
        decode_manifest(b" {\n  \"version\" : \"1\\u002e0\",\n  \"bin\" : \"bin\\\\foo.exe\"\n}\n"),
        Ok(record("1.0", Some(BinField::SinglePath(text("bin\\foo.exe"))), None))
    );
}

#[test]
fn text_that_is_not_json_is_malformed() {
    assert_eq!(decode_manifest(b"{not json"), Err(DecodeError::Malformed));
    assert_eq!(decode_manifest(b""), Err(DecodeError::Malformed));
    assert_eq!(decode_manifest(br#"{"version":"1.0"} trailing"#), Err(DecodeError::Malformed));
    assert_eq!(decode_manifest(br#"{"version":"1.0""#), Err(DecodeError::Malformed));
}

#[test]
fn text_in_a_bad_encoding_is_malformed() {
    assert_eq!(decode_manifest(b"{\"version\":\"\xff\xfe\"}"), Err(DecodeError::Malformed));
}

#[test]
fn a_document_that_is_no_object_is_refused() {
    assert_eq!(decode_manifest(br#"["1.0"]"#), Err(DecodeError::NotAnObject));
    assert_eq!(decode_manifest(br#""1.0""#), Err(DecodeError::NotAnObject));
    assert_eq!(decode_manifest(b"null"), Err(DecodeError::NotAnObject));
    assert_eq!(decode_manifest(b"17"), Err(DecodeError::NotAnObject));
}

#[test]
fn a_missing_version_is_refused() {
    assert_eq!(decode_manifest(b"{}"), Err(DecodeError::MissingVersion));
    assert_eq!(decode_manifest(br#"{"bin":"foo.exe"}"#), Err(DecodeError::MissingVersion));
}

#[test]
fn a_version_that_is_no_string_is_refused() {
    assert_eq!(decode_manifest(br#"{"version":1}"#), Err(DecodeError::InvalidVersion));
    assert_eq!(decode_manifest(br#"{"version":null}"#), Err(DecodeError::InvalidVersion));
    assert_eq!(decode_manifest(br#"{"version":["1"]}"#), Err(DecodeError::InvalidVersion));
}

#[test]
fn a_bin_of_another_shape_is_refused() {
    assert_eq!(decode_manifest(br#"{"version":"1","bin":7}"#), Err(DecodeError::InvalidBin));
    assert_eq!(decode_manifest(br#"{"version":"1","bin":{"a":"b"}}"#), Err(DecodeError::InvalidBin));
    assert_eq!(decode_manifest(br#"{"version":"1","bin":["a",7]}"#), Err(DecodeError::InvalidBin));
    assert_eq!(decode_manifest(br#"{"version":"1","bin":["a",null]}"#), Err(DecodeError::InvalidBin));
    assert_eq!(decode_manifest(br#"{"version":"1","bin":[["a",7]]}"#), Err(DecodeError::InvalidBin));
    assert_eq!(decode_manifest(br#"{"version":"1","bin":[[["a"]]]}"#), Err(DecodeError::InvalidBin));
}

#[test]
fn a_description_that_is_no_string_is_refused() {
    assert_eq!(
        decode_manifest(br#"{"version":"1","description":["a"]}"#),
        Err(DecodeError::InvalidDescription)
    );
    assert_eq!(
        decode_manifest(br#"{"version":"1","description":false}"#),
        Err(DecodeError::InvalidDescription)
    );
}

#[test]
fn the_first_fault_is_the_one_reported() {
    assert_eq!(
        decode_manifest(br#"{"description":1,"bin":2,"version":3}"#),
        Err(DecodeError::InvalidVersion)
    );
    assert_eq!(
        decode_manifest(br#"{"description":1,"bin":2,"version":"3"}"#),
        Err(DecodeError::InvalidBin)
    );
}

#[test]
fn a_value_built_by_hand_is_read_like_a_parsed_one() {
    let value = object(vec![
        ("version", Value::String(text("2.3"))),
        (
            "bin",
            Value::Array(vec![Value::Array(vec![
                Value::String(text("hub")),
                Value::String(text("alias")),
            ])]),
        ),
        ("extra", Value::Number(Number::from(5))),
    ]);
    assert_eq!(
        manifest_from_value(&value),
        Ok(record(
            "2.3",
            Some(BinField::List(vec![BinEntry::Command(vec![text("hub"), text("alias")])])),
            None
        ))
    );
}

#[test]
fn values_of_every_other_kind_are_no_manifest() {
    assert_eq!(manifest_from_value(&Value::Null), Err(DecodeError::NotAnObject));
    assert_eq!(manifest_from_value(&Value::Bool(true)), Err(DecodeError::NotAnObject));
    assert_eq!(manifest_from_value(&Value::String(text("x"))), Err(DecodeError::NotAnObject));
    assert_eq!(manifest_from_value(&Value::Array(vec![])), Err(DecodeError::NotAnObject));
    assert_eq!(manifest_from_value(&object(vec![])), Err(DecodeError::MissingVersion));
    assert_eq!(
        manifest_from_value(&object(vec![("version", Value::Bool(true))])),
        Err(DecodeError::InvalidVersion)
    );
}

#[test]
fn candidate_paths_of_each_shape() {
    assert_eq!(BinField::SinglePath(text("foo.exe")).candidate_paths(), vec![text("foo.exe")]);
    assert_eq!(
        BinField::List(vec![BinEntry::Path(text("foo.exe"))]).candidate_paths(),
        vec![text("foo.exe")]
    );
    assert_eq!(
        BinField::List(vec![BinEntry::Command(vec![text("foo.exe"), text("--arg")])])
            .candidate_paths(),
        vec![text("foo.exe")]
    );
}

#[test]
fn candidate_paths_keep_order_and_drop_empty_commands() {
    let bin = BinField::List(vec![
        BinEntry::Path(text("a.exe")),
        BinEntry::Command(vec![]),
        BinEntry::Command(vec![text("b.exe"), text("-x"), text("-y")]),
        BinEntry::Path(text("c.exe")),
    ]);
    assert_eq!(bin.candidate_paths(), vec![text("a.exe"), text("b.exe"), text("c.exe")]);
    assert_eq!(BinField::List(vec![]).candidate_paths(), Vec::<String>::new());
    assert_eq!(BinField::List(vec![BinEntry::Command(vec![])]).candidate_paths(), Vec::<String>::new());
}

#[test]
fn entry_path_is_the_path_or_the_head_of_the_command() {
    assert_eq!(BinEntry::Path(text("a")).path(), Some(&text("a")));
    assert_eq!(BinEntry::Command(vec![text("b"), text("c")]).path(), Some(&text("b")));
    assert_eq!(BinEntry::Command(vec![]).path(), None);
}

#[test]
fn a_repeated_member_counts_with_its_last_value() {
    assert_eq!(
        decode_manifest(br#"{"version":"1","version":"2"}"#),
        Ok(record("2", None, None))
    );
    assert_eq!(
        decode_manifest(br#"{"version":"1","bin":"a.exe","bin":7}"#),
        Err(DecodeError::InvalidBin)
    );
}

#[test]
fn an_unread_member_that_cannot_be_held_makes_the_text_malformed() {
    assert_eq!(decode_manifest(br#"{"version":"1","x":1e999}"#), Err(DecodeError::Malformed));
    let deep = format!(r#"{{"version":"1","x":{}{}}}"#, "[".repeat(200), "]".repeat(200));
    assert_eq!(decode_manifest(deep.as_bytes()), Err(DecodeError::Malformed));
    let shallow = format!(r#"{{"version":"1","x":{}{}}}"#, "[".repeat(100), "]".repeat(100));
    assert_eq!(decode_manifest(shallow.as_bytes()), Ok(record("1", None, None)));
}
