use project_picker::store::{decode_project_list, encode_project_list};

#[test]
fn test_round_trip() {
    let list = vec!["~/projects/foo".to_string(), "~/projects/bar \"q\"".to_string()];
    let bytes = encode_project_list(&list);
    assert_eq!(decode_project_list(&bytes), list);
}

#[test]
fn test_malformed_returns_empty() {
    assert_eq!(decode_project_list(b"not json"), Vec::<String>::new());
    assert_eq!(decode_project_list(b""), Vec::<String>::new());
    assert_eq!(decode_project_list(b"{\"a\": 1}"), Vec::<String>::new());
}

#[test]
fn test_reads_written_files() {
    assert_eq!(decode_project_list(b"[\"/a\", \"/b\"]"), vec!["/a".to_string(), "/b".to_string()]);
    assert_eq!(decode_project_list(b"[]"), Vec::<String>::new());
}

#[test]
fn test_written_form_is_pretty_json() {
    let bytes = encode_project_list(&vec!["/a".to_string()]);
    assert_eq!(String::from_utf8(bytes).unwrap(), "[\n  \"/a\"\n]");
}

#[test]
fn test_non_string_elements_are_skipped() {
    assert_eq!(decode_project_list(b"[\"a\", 1, null, \"b\", [\"c\"]]"), vec!["a".to_string(), "b".to_string()]);
    assert_eq!(decode_project_list(b"[1, 2]"), Vec::<String>::new());
}
