use project_picker::projects::{fuzzy_match, subsequence_match};

#[test]
fn test_empty_query_matches_everything() {
    assert!(fuzzy_match("", "anything"));
}

#[test]
fn test_exact_match() {
    assert!(fuzzy_match("foo", "foo"));
}

#[test]
fn test_subsequence_match() {
    assert!(fuzzy_match("pck", "project-picker"));
}

#[test]
fn test_case_insensitive() {
    assert!(fuzzy_match("PCK", "project-picker"));
}

#[test]
fn test_no_match() {
    assert!(!fuzzy_match("xyz", "project-picker"));
}

#[test]
fn test_partial_match_fails() {
    assert!(!fuzzy_match("abc", "ab"));
}

#[test]
fn test_text_case_is_ignored_too() {
    assert!(fuzzy_match("pck", "PROJECT-PICKER"));
    assert!(fuzzy_match("ÄB", "äxb"));
}

#[test]
fn test_order_matters() {
    assert!(!fuzzy_match("kp", "pk"));
    assert!(fuzzy_match("pk", "pk"));
}

#[test]
fn test_repeated_characters_need_repeats() {
    assert!(!fuzzy_match("oo", "foxbar"));
    assert!(fuzzy_match("oo", "foxbor"));
}

#[test]
fn test_subsequence_match_is_case_sensitive() {
    assert!(!subsequence_match("PCK", "project-picker"));
    assert!(subsequence_match("pck", "project-picker"));
    assert!(subsequence_match("", ""));
    assert!(!subsequence_match("a", ""));
}

#[test]
fn test_empty_text_only_matches_empty_query() {
    assert!(fuzzy_match("", ""));
    assert!(!fuzzy_match("a", ""));
}

#[test]
fn test_longer_query_never_matches() {
    assert!(!fuzzy_match("projects", "project"));
}

#[test]
fn test_text_around_keeps_match() {
    assert!(subsequence_match("pck", "project-picker"));
    assert!(subsequence_match("pck", "xx project-picker yy"));
}

#[test]
fn test_ascii_case_variants_agree() {
    let q = "PiCk";
    let t = "Project-Picker";
    let base = fuzzy_match(q, t);
    assert!(base);
    assert_eq!(fuzzy_match(&q.to_ascii_uppercase(), t), base);
    assert_eq!(fuzzy_match(q, &t.to_ascii_uppercase()), base);
    assert_eq!(fuzzy_match(&q.to_ascii_lowercase(), &t.to_ascii_lowercase()), base);
}

#[test]
fn test_fuzzy_match_survives_text_around_and_shorter_query() {
    assert!(fuzzy_match("PCK", "project-picker"));
    assert!(fuzzy_match("PCK", "~/code/project-picker/src"));
    assert!(fuzzy_match("PC", "project-picker"));
    assert!(fuzzy_match("", "project-picker"));
}
