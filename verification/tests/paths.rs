use hume_editor::paths::{file_name, join_dir, FilePath, Separators};

const SLASH: Separators = Separators::Slash;
const BOTH: Separators = Separators::SlashAndBackslash;

#[test]
fn the_last_component_is_the_name() {
    assert_eq!(file_name("/a/b.txt", SLASH).as_deref(), Some("b.txt"));
    assert_eq!(file_name("a/b/./", SLASH).as_deref(), Some("b"));
    assert_eq!(file_name("a\\b", SLASH).as_deref(), Some("a\\b"));
    assert_eq!(file_name("a\\b", BOTH).as_deref(), Some("b"));
    assert_eq!(file_name("a\\b/.\\", BOTH).as_deref(), Some("b"));
    assert_eq!(file_name("C:b", BOTH).as_deref(), Some("b"));
    assert_eq!(file_name("C:b", SLASH).as_deref(), Some("C:b"));
}

#[test]
fn roots_and_parents_have_no_name() {
    for p in ["", "/", "a/..", ".", "//"] {
        assert!(file_name(p, SLASH).is_none());
        assert!(file_name(p, BOTH).is_none());
    }
    assert!(file_name("C:", BOTH).is_none());
    assert!(file_name("C:\\", BOTH).is_none());
    assert!(file_name("a\\..", BOTH).is_none());
}

#[test]
fn names_are_put_into_directories() {
    assert_eq!(join_dir("/a", "b", SLASH), "/a/b");
    assert_eq!(join_dir("/a/", "b", SLASH), "/a/b");
    assert_eq!(join_dir("", "b", SLASH), "b");
    assert_eq!(join_dir("a\\", "b", SLASH), "a\\/b");
    assert_eq!(join_dir("C:\\a", "b", BOTH), "C:\\a\\b");
    assert_eq!(join_dir("C:\\a/", "b", BOTH), "C:\\a/b");
    assert_eq!(join_dir("C:", "b", BOTH), "C:b");
}

#[test]
fn absolute_paths_name_their_root() {
    assert!(SLASH.is_absolute("/a"));
    assert!(!SLASH.is_absolute("a/"));
    assert!(!SLASH.is_absolute(""));
    assert!(!SLASH.is_absolute("C:\\a"));
    assert!(BOTH.is_absolute("C:\\a"));
    assert!(BOTH.is_absolute("c:/"));
    assert!(BOTH.is_absolute("\\\\server\\share"));
    assert!(!BOTH.is_absolute("\\a"));
    assert!(!BOTH.is_absolute("C:a"));
    assert!(!BOTH.is_absolute("1:\\a"));
}

#[test]
fn paths_know_what_separates_them() {
    let p = FilePath::new("C:\\w\\one.txt".to_string(), BOTH);
    assert_eq!(p.file_name().as_deref(), Some("one.txt"));
    let q = p.clone();
    assert_eq!(q.as_str(), "C:\\w\\one.txt");
    assert_eq!(q.separators, BOTH);
}
