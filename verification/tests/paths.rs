use bg_lib::paths::{ends_with_slash, join, split_first_slash, split_last_slash};

#[test]
fn first_slash_split() {
    assert_eq!(
        split_first_slash("web/rest/wiki"),
        ("web".to_string(), "rest/wiki".to_string())
    );
    assert_eq!(split_first_slash("web/"), ("web".to_string(), String::new()));
    assert_eq!(split_first_slash("web"), ("web".to_string(), String::new()));
    assert_eq!(
        split_first_slash("/tail"),
        (String::new(), "tail".to_string())
    );
    assert_eq!(split_first_slash(""), (String::new(), String::new()));
}

#[test]
fn last_slash_split() {
    assert_eq!(
        split_last_slash("a/b/c"),
        Some(("a/b".to_string(), "c".to_string()))
    );
    assert_eq!(
        split_last_slash("a/"),
        Some(("a".to_string(), String::new()))
    );
    assert_eq!(split_last_slash("abc"), None);
}

#[test]
fn join_components() {
    assert_eq!(join("a", "b"), "a/b");
    assert_eq!(join("a/b", "mod.rs"), "a/b/mod.rs");
    assert_eq!(join("", "x"), "/x");
}

#[test]
fn directory_entries_end_in_slash() {
    assert!(ends_with_slash("web/"));
    assert!(ends_with_slash("web/rest/"));
    assert!(!ends_with_slash("web"));
    assert!(!ends_with_slash(""));
}
