use project_picker::paths::{
    collect_suggestions, display_name, expand_tilde, sort_strings, suggestion_pattern, tilde_collapse, MAX_SUGGESTIONS,
};

#[test]
fn test_empty_input_returns_empty() {
    assert_eq!(suggestion_pattern("", "/home/user"), None);
    assert_eq!(collect_suggestions(&vec![], "/home/user"), vec![] as Vec<String>);
}

#[test]
fn test_tilde_collapse() {
    let home = "/home/user".to_string();
    let full = format!("{}/projects", home);
    assert_eq!(tilde_collapse(&full, &home), "~/projects");
}

#[test]
fn test_tilde_collapse_edge_cases() {
    assert_eq!(tilde_collapse("/home/user", "/home/user"), "~");
    assert_eq!(tilde_collapse("/home/user2/x", "/home/user"), "~2/x");
    assert_eq!(tilde_collapse("/tmp/x", "/home/user"), "/tmp/x");
    assert_eq!(tilde_collapse("/tmp/x", ""), "/tmp/x");
}

#[test]
fn test_expand_tilde() {
    assert_eq!(expand_tilde("~/projects", "/home/user"), "/home/user/projects");
    assert_eq!(expand_tilde("~", "/home/user"), "/home/user");
    assert_eq!(expand_tilde("~other", "/home/user"), "~other");
    assert_eq!(expand_tilde("/abs/~/x", "/home/user"), "/abs/~/x");
    assert_eq!(expand_tilde("~/", ""), "/");
}

#[test]
fn test_round_trips() {
    let home = "/home/user";
    assert_eq!(expand_tilde(&tilde_collapse("/home/user/a/b", home), home), "/home/user/a/b");
    assert_eq!(expand_tilde(&tilde_collapse(home, home), home), home);
    assert_eq!(tilde_collapse(&expand_tilde("~/code", home), home), "~/code");
    assert_eq!(tilde_collapse(&expand_tilde("~", home), home), "~");
    // Not a round trip: a sibling directory sharing the home prefix.
    assert_eq!(expand_tilde(&tilde_collapse("/home/user2", home), home), "~2");
}

#[test]
fn test_suggestion_pattern() {
    assert_eq!(suggestion_pattern("~/pro", "/home/user"), Some("/home/user/pro*/".to_string()));
    assert_eq!(suggestion_pattern("~/", "/home/user"), Some("/home/user/*".to_string()));
    assert_eq!(suggestion_pattern("/tmp/", "/home/user"), Some("/tmp/*".to_string()));
    assert_eq!(suggestion_pattern("/tmp", "/home/user"), Some("/tmp*/".to_string()));
}

#[test]
fn test_suggestions_are_sorted_collapsed_and_bounded() {
    let found: Vec<String> = (0..30).rev().map(|i| format!("/home/user/d{:02}", i)).collect();
    let r = collect_suggestions(&found, "/home/user");
    assert_eq!(r.len(), MAX_SUGGESTIONS);
    let expected: Vec<String> = (10..30).map(|i| format!("~/d{:02}", i)).collect();
    assert_eq!(r, expected);
}

#[test]
fn test_suggestions_stay_rooted() {
    let found = vec!["/tmp/b".to_string(), "/home/user/a".to_string(), "/tmp/a".to_string()];
    let r = collect_suggestions(&found, "/home/user");
    assert_eq!(r, vec!["/tmp/a".to_string(), "/tmp/b".to_string(), "~/a".to_string()]);
    for s in &r {
        assert!(s.starts_with('/') || s.starts_with('~'));
    }
}

#[test]
fn test_sort_strings_matches_std_order() {
    let v = vec![
        "b".to_string(),
        "a".to_string(),
        "ab".to_string(),
        "".to_string(),
        "B".to_string(),
        "é".to_string(),
        "a".to_string(),
    ];
    let mut expected = v.clone();
    expected.sort();
    assert_eq!(sort_strings(&v), expected);
}

#[test]
fn test_display_name() {
    assert_eq!(display_name("/home/user/projects/app"), "app");
    assert_eq!(display_name("~/code/app/"), "app");
    assert_eq!(display_name("/a/b/."), "b");
    assert_eq!(display_name("/a/./b//"), "b");
    assert_eq!(display_name("/a/.."), "/a/..");
    assert_eq!(display_name("/"), "/");
    assert_eq!(display_name(""), "");
    assert_eq!(display_name("."), ".");
    assert_eq!(display_name("./x"), "x");
    assert_eq!(display_name("~"), "~");
}

#[test]
fn test_display_name_agrees_with_file_name() {
    let cases = [
        "/home/user/projects/app", "~/code/app/", "/a/b/.", "/a/./b//", "/a/..", "/", "", ".", "./x", "~",
        "a", "a//b", "/..", "..", "./", "x/./", "/a/b/../c", ".hidden", "a/.b",
    ];
    for p in cases {
        let expected = std::path::Path::new(p).file_name().and_then(|n| n.to_str()).unwrap_or(p);
        assert_eq!(display_name(p), expected, "path {:?}", p);
    }
}
