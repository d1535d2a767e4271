use project_picker::icons::{choose_icon_kind, image_candidates, is_python_file, join_path, marker_files, IconKind, Stack};

fn flags(len: usize, set: &[usize]) -> Vec<bool> {
    (0..len).map(|i| set.contains(&i)).collect()
}

#[test]
fn test_detects_rust_project() {
    let kind = choose_icon_kind("/tmp/p", &flags(6, &[]), &flags(10, &[0]), false);
    assert_eq!(kind, IconKind::BundledSvg(Stack::Rust));
}

#[test]
fn test_detects_node_project() {
    let kind = choose_icon_kind("/tmp/p", &flags(6, &[]), &flags(10, &[2]), false);
    assert_eq!(kind, IconKind::BundledSvg(Stack::JavaScript));
}

#[test]
fn test_image_file_takes_priority() {
    let kind = choose_icon_kind("/tmp/p", &flags(6, &[0]), &flags(10, &[0]), false);
    assert_eq!(kind, IconKind::ImageFile("/tmp/p/icon.png".to_string()));
}

#[test]
fn test_fallback_to_folder() {
    let kind = choose_icon_kind("/tmp/p", &flags(6, &[]), &flags(10, &[]), false);
    assert_eq!(kind, IconKind::Folder);
}

#[test]
fn test_python_file_detected_last() {
    assert_eq!(
        choose_icon_kind("/p", &flags(6, &[]), &flags(10, &[]), true),
        IconKind::BundledSvg(Stack::Python)
    );
    assert_eq!(
        choose_icon_kind("/p", &flags(6, &[]), &flags(10, &[9]), true),
        IconKind::BundledSvg(Stack::Cpp)
    );
}

#[test]
fn test_first_candidate_wins() {
    assert_eq!(
        choose_icon_kind("/p/", &flags(6, &[5, 3]), &flags(10, &[]), false),
        IconKind::ImageFile("/p/favicon.ico".to_string())
    );
    assert_eq!(
        choose_icon_kind("/p", &flags(6, &[]), &flags(10, &[1, 2]), false),
        IconKind::BundledSvg(Stack::TypeScript)
    );
    assert_eq!(
        choose_icon_kind("/p", &flags(6, &[]), &flags(10, &[5]), false),
        IconKind::BundledSvg(Stack::Python)
    );
    assert_eq!(
        choose_icon_kind("/p", &flags(6, &[]), &flags(10, &[8]), false),
        IconKind::BundledSvg(Stack::Java)
    );
}

#[test]
fn test_short_flag_lists_count_as_absent() {
    assert_eq!(choose_icon_kind("/p", &[], &[], false), IconKind::Folder);
    assert_eq!(choose_icon_kind("/p", &[false, true], &[], false), IconKind::ImageFile("/p/logo.png".to_string()));
}

#[test]
fn test_candidate_tables() {
    assert_eq!(image_candidates(), vec!["icon.png", "logo.png", "logo.svg", "favicon.ico", ".github/logo.png", ".github/LOGO.png"]);
    assert_eq!(marker_files().len(), 10);
    assert_eq!(marker_files()[0], "Cargo.toml");
}

#[test]
fn test_join_path() {
    assert_eq!(join_path("/a", "b"), "/a/b");
    assert_eq!(join_path("/a/", "b"), "/a/b");
    assert_eq!(join_path("", "b"), "b");
    assert_eq!(join_path("/a", ".github/logo.png"), "/a/.github/logo.png");
}

#[test]
fn test_is_python_file() {
    assert!(is_python_file("main.py"));
    assert!(is_python_file("..py"));
    assert!(!is_python_file(".py"));
    assert!(!is_python_file("py"));
    assert!(!is_python_file("main.pyc"));
    assert!(!is_python_file("main.PY"));
}
