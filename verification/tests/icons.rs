use stellaris_hunter_scan::icons::{sanitize_id, sanitize_with_classes};

#[test]
fn sanitize_valid_id() {
    assert_eq!(sanitize_id("achievement_1"), Some("achievement_1".into()));
    assert_eq!(sanitize_id("test-123"), Some("test-123".into()));
    assert_eq!(sanitize_id("ach.3.0"), Some("ach.3.0".into()));
    assert_eq!(sanitize_id("A"), Some("A".into()));
}

#[test]
fn sanitize_rejects_empty() {
    assert_eq!(sanitize_id(""), None);
}

#[test]
fn sanitize_rejects_path_traversal() {
    assert_eq!(sanitize_id("../etc/passwd"), None);
    assert_eq!(sanitize_id("foo/bar"), None);
    assert_eq!(sanitize_id("foo\\bar"), None);
    assert_eq!(sanitize_id(".."), None);
}

#[test]
fn sanitize_rejects_null_byte() {
    assert_eq!(sanitize_id("foo\0bar"), None);
}

#[test]
fn sanitize_rejects_spaces() {
    assert_eq!(sanitize_id("id with spaces"), None);
}

#[test]
fn sanitize_with_given_character_classes() {
    assert_eq!(sanitize_with_classes("ab_1", &[true, true, false, true]), Some("ab_1".to_string()));
    assert_eq!(sanitize_with_classes("ab", &[true, false]), None);
    assert_eq!(sanitize_with_classes("a/b", &[true, false, true]), None);
    assert_eq!(sanitize_with_classes("", &[]), None);
    assert_eq!(sanitize_with_classes("é", &[true]), Some("é".to_string()));
}
