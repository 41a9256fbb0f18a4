use anvaya::config::{RootProbe, WorkspaceRoot};
use anvaya::errors::ResolveError;
use anvaya::path::normalize;
use anvaya::policy::{expand_tilde, home_from_vars, PathPolicy};
use anvaya::protocol::resolve_under;

fn root(path: &str) -> WorkspaceRoot {
    WorkspaceRoot::new(path, "r".to_string(), RootProbe::Canonical(path.to_string())).unwrap()
}

#[test]
fn relative_resolves_against_first_root() {
    let policy = PathPolicy::new(vec![root("/tmp/anvaya-policy-r")]);
    let p = policy.resolve("Desktop/x.txt", None).unwrap();
    assert!(p.starts_with("/tmp/anvaya-policy-r"));
    assert!(p.ends_with("Desktop/x.txt"));
    assert_eq!(p, "/tmp/anvaya-policy-r/Desktop/x.txt");
}

#[test]
fn traversal_rejected() {
    let policy = PathPolicy::new(vec![root("/tmp/anvaya-policy-r")]);
    assert!(matches!(
        policy.resolve("../../etc/passwd", None),
        Err(ResolveError::Escapes(_))
    ));
}

#[test]
fn absolute_required_to_match_a_root() {
    let policy = PathPolicy::new(vec![root("/tmp/anvaya-policy-r")]);
    assert!(policy.resolve("/etc/passwd", None).is_err());
    assert!(policy.resolve("/tmp/anvaya-policy-r/ok.txt", None).is_ok());
}

#[test]
fn empty_rejected() {
    let policy = PathPolicy::new(vec![root("/tmp/anvaya-policy-r")]);
    assert!(matches!(policy.resolve("  ", None), Err(ResolveError::Invalid(_))));
}

#[test]
fn second_root_accepts_absolute_paths() {
    let policy = PathPolicy::new(vec![root("/srv/one"), root("/srv/two")]);
    assert_eq!(policy.resolve("/srv/two/a/../b", None).unwrap(), "/srv/two/b");
    assert_eq!(policy.resolve("./c/./d", None).unwrap(), "/srv/one/c/d");
    assert!(policy.resolve("/srv/three", None).is_err());
}

#[test]
fn sibling_prefix_is_not_inside() {
    let policy = PathPolicy::new(vec![root("/srv/one")]);
    assert!(matches!(
        policy.resolve("/srv/one-more/x", None),
        Err(ResolveError::Escapes(_))
    ));
}

#[test]
fn no_roots_relative_is_invalid() {
    let policy = PathPolicy::new(vec![]);
    assert!(policy.is_empty());
    assert!(matches!(policy.resolve("a.txt", None), Err(ResolveError::Invalid(_))));
    assert!(matches!(policy.resolve("/a.txt", None), Err(ResolveError::Escapes(_))));
}

#[test]
fn tilde_expands_to_home() {
    let policy = PathPolicy::new(vec![root("/home/u")]);
    assert_eq!(policy.resolve("~/notes.md", Some("/home/u")).unwrap(), "/home/u/notes.md");
    assert_eq!(policy.resolve("~", Some("/home/u")).unwrap(), "/home/u");
    assert_eq!(expand_tilde("~/x", Some("/h")), "/h/x");
    assert_eq!(expand_tilde("~", Some("/h")), "/h");
    assert_eq!(expand_tilde("~x", Some("/h")), "~x");
    assert_eq!(expand_tilde("a/~/b", Some("/h")), "a/~/b");
    assert_eq!(expand_tilde("~/x", None), "~/x");
}

#[test]
fn home_prefers_home_variable() {
    assert_eq!(home_from_vars(Some("/h".to_string()), Some("C:/u".to_string())), Some("/h".to_string()));
    assert_eq!(home_from_vars(None, Some("C:/u".to_string())), Some("C:/u".to_string()));
    assert_eq!(home_from_vars(Some(String::new()), Some("C:/u".to_string())), None);
    assert_eq!(home_from_vars(None, None), None);
}

#[test]
fn resolve_pair_reports_first_failure() {
    let policy = PathPolicy::new(vec![root("/w")]);
    let (s, d) = policy.resolve_pair("a", "b/c", None).unwrap();
    assert_eq!(s, "/w/a");
    assert_eq!(d, "/w/b/c");
    match policy.resolve_pair("/etc", "  ", None) {
        Err(ResolveError::Escapes(p)) => assert_eq!(p, "/etc"),
        other => panic!("unexpected: {:?}", other),
    }
    match policy.resolve_pair("ok", "  ", None) {
        Err(ResolveError::Invalid(p)) => assert_eq!(p, "  "),
        other => panic!("unexpected: {:?}", other),
    }
}

#[test]
fn resolve_relative_under_root() {
    let r = resolve_under("/tmp/anvaya", "Desktop/test.txt").unwrap();
    assert_eq!(r, "/tmp/anvaya/Desktop/test.txt");
}

#[test]
fn reject_traversal() {
    assert!(resolve_under("/tmp/anvaya", "../../etc/passwd").is_err());
}

#[test]
fn reject_absolute_outside_root() {
    assert!(resolve_under("/tmp/anvaya", "/etc/passwd").is_err());
}

#[test]
fn allow_absolute_inside_root() {
    let r = resolve_under("/tmp/anvaya", "/tmp/anvaya/Desktop/test.txt").unwrap();
    assert_eq!(r, "/tmp/anvaya/Desktop/test.txt");
}

#[test]
fn normalize_collapses_dots() {
    assert_eq!(normalize("/a/./b/../c"), "/a/c");
    assert_eq!(normalize("/../x"), "/x");
    assert_eq!(normalize("a/../../b"), "b");
    assert_eq!(normalize("/a//b/"), "/a/b");
    assert_eq!(normalize(&normalize("/a/b/../../c/./d")), normalize("/a/b/../../c/./d"));
}

#[test]
fn resolving_a_resolved_path_is_stable() {
    let policy = PathPolicy::new(vec![root("/srv/one"), root("/srv/two")]);
    let first = policy.resolve("a/./b/../c", Some("/home/u")).unwrap();
    assert_eq!(first, "/srv/one/a/c");
    assert_eq!(policy.resolve(&first, None).unwrap(), first);
    let second = policy.resolve("/srv/two/../two/x", None).unwrap();
    assert_eq!(policy.resolve(&second, Some("/elsewhere")).unwrap(), second);
}

#[test]
fn resolved_paths_hold_no_dot_components() {
    let policy = PathPolicy::new(vec![root("/w")]);
    let p = policy.resolve("./x/../y/./z/..", None).unwrap();
    assert_eq!(p, "/w/y");
    assert!(!p.split('/').any(|seg| seg == "." || seg == ".."));
}
