use sunmao::write_scope::{normalize_scope, path_in_scopes, scopes_conflict, scopes_prefix_intersect};

#[test]
fn prefix_containment() {
    assert!(scopes_prefix_intersect("src/api", "src/api/user"));
    assert!(scopes_prefix_intersect("src/api/", "src/api/user.rs"));
    assert!(!scopes_prefix_intersect("src/api", "src/web"));
    assert!(scopes_prefix_intersect("src/api", "src/api"));
}

#[test]
fn path_in_scopes_ok() {
    let scopes = vec!["server/identity/".into()];
    assert!(path_in_scopes("server/identity/login.rs", &scopes));
    assert!(!path_in_scopes("docs/readme.md", &scopes));
}

#[test]
fn sets_conflict() {
    let a = vec!["src/api/".into()];
    let b = vec!["src/api/user/".into()];
    let c = vec!["src/web/".into()];
    assert!(scopes_conflict(&a, &b));
    assert!(!scopes_conflict(&a, &c));
}

#[test]
fn normalization_trims_and_strips_dot_slash() {
    assert_eq!(normalize_scope("  ./src/api/ "), "src/api/");
    assert_eq!(normalize_scope("././a"), "a");
    assert_eq!(normalize_scope("\t\n"), "");
    assert_eq!(normalize_scope("a/./b"), "a/./b");
    assert_eq!(normalize_scope("\u{3000}x\u{a0}"), "x");
}

#[test]
fn empty_scope_overlaps_everything() {
    assert!(scopes_prefix_intersect("", "anything/here"));
    assert!(scopes_prefix_intersect("src", "  "));
    assert!(path_in_scopes("any/file.rs", &vec!["./".to_string()]));
}

#[test]
fn sibling_prefix_is_not_a_directory_prefix() {
    assert!(!scopes_prefix_intersect("src/ap", "src/api"));
    assert!(!path_in_scopes("src/apix.rs", &vec!["src/api".to_string()]));
    assert!(path_in_scopes("src/api", &vec!["src/api//".to_string()]));
    assert!(scopes_prefix_intersect("./lib/", "lib"));
}

#[test]
fn conflict_is_symmetric_and_empty_lists_never_conflict() {
    let a = vec!["pkg/".to_string(), "docs/".to_string()];
    let b = vec!["pkg/mod/".to_string()];
    assert_eq!(scopes_conflict(&a, &b), scopes_conflict(&b, &a));
    assert!(!scopes_conflict(&a, &vec![]));
    assert!(!scopes_conflict(&vec![], &b));
}
