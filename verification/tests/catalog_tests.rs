use python_plugin::catalog::VersionCatalog;
use python_plugin::version::{CanonicalVersion, PreKind, Prerelease};

fn v(major: u64, minor: u64, patch: u64) -> CanonicalVersion {
    CanonicalVersion { major, minor, patch, pre: None }
}

fn pre(major: u64, minor: u64, patch: u64, kind: PreKind, id: u64) -> CanonicalVersion {
    CanonicalVersion { major, minor, patch, pre: Some(Prerelease { kind, id }) }
}

fn tags(raw: &[&str]) -> Vec<String> {
    raw.iter().map(|t| t.to_string()).collect()
}

#[test]
fn orders_catalog_ascending_with_latest() {
    let c = VersionCatalog::build(&tags(&["3.10.13", "3.10.1", "3.12.0", "2.3.7"]));
    assert_eq!(c.versions, vec![v(2, 3, 7), v(3, 10, 1), v(3, 10, 13), v(3, 12, 0)]);
    assert_eq!(c.latest, Some(v(3, 12, 0)));
}

#[test]
fn empty_tags_make_empty_catalog() {
    let c = VersionCatalog::build(&Vec::new());
    assert!(c.versions.is_empty());
    assert!(c.latest.is_none());
}

#[test]
fn unparseable_tags_alone_make_empty_catalog() {
    let c = VersionCatalog::build(&tags(&["legacy-trunk", "main", "next"]));
    assert!(c.versions.is_empty());
    assert!(c.latest.is_none());
}

#[test]
fn sets_latest_alias() {
    let c = VersionCatalog::build(&tags(&["v3.9.1", "3.10.0b2", "2.7.18"]));
    assert!(c.latest.is_some());
    // The greatest stable version wins over a greater prerelease.
    assert_eq!(c.latest, Some(v(3, 9, 1)));
}

#[test]
fn latest_falls_back_to_greatest_prerelease() {
    let c = VersionCatalog::build(&tags(&["3.13.0a1", "3.13.0b2"]));
    assert_eq!(c.latest, Some(pre(3, 13, 0, PreKind::B, 2)));
}

#[test]
fn collapses_duplicate_tags() {
    let c = VersionCatalog::build(&tags(&["3.10.1", "v3.10.1", "3.10.1"]));
    assert_eq!(c.versions, vec![v(3, 10, 1)]);
}

#[test]
fn orders_prerelease_kinds_before_stable() {
    let c = VersionCatalog::build(&tags(&["3.0.0rc1", "3.0.0a2", "3.0.0b1", "3.0.0c3", "3.0.0"]));
    assert_eq!(
        c.versions,
        vec![
            pre(3, 0, 0, PreKind::A, 2),
            pre(3, 0, 0, PreKind::B, 1),
            pre(3, 0, 0, PreKind::C, 3),
            pre(3, 0, 0, PreKind::Rc, 1),
            v(3, 0, 0),
        ]
    );
    assert_eq!(c.latest, Some(v(3, 0, 0)));
}

#[test]
fn renders_versions_in_order() {
    let c = VersionCatalog::build(&tags(&["3.10.13", "3.10.1", "3.12.0", "2.3.7"]));
    let rendered = c.version_strings();
    assert_eq!(
        rendered,
        vec![
            "2.3.7".to_string(),
            "3.10.1".to_string(),
            "3.10.13".to_string(),
            "3.12.0".to_string(),
        ]
    );
}

#[test]
fn alias_lookup_answers_latest_only() {
    let c = VersionCatalog::build(&tags(&["3.10.13", "3.12.0"]));
    assert_eq!(c.alias("latest"), Some(v(3, 12, 0)));
    assert_eq!(c.alias("latest"), c.latest);
    assert_eq!(c.alias("stable"), None);
    let empty = VersionCatalog::build(&Vec::new());
    assert_eq!(empty.alias("latest"), None);
}

#[test]
fn resolves_partial_requests() {
    let c = VersionCatalog::build(&tags(&["3.10.13", "3.10.1", "3.12.0", "2.3.7"]));
    assert_eq!(c.resolve(2, Some(3), None), Some(v(2, 3, 7)));
    assert_eq!(c.resolve(3, Some(10), Some(1)), Some(v(3, 10, 1)));
    assert_eq!(c.resolve(3, Some(10), None), Some(v(3, 10, 13)));
    assert_eq!(c.resolve(3, None, None), Some(v(3, 12, 0)));
    assert_eq!(c.resolve(4, None, None), None);
}

#[test]
fn resolve_prefers_stable_over_newer_prerelease() {
    let c = VersionCatalog::build(&tags(&["3.10.1", "3.10.2rc1"]));
    assert_eq!(c.resolve(3, Some(10), None), Some(v(3, 10, 1)));
    // With no stable candidate, the greatest prerelease answers.
    assert_eq!(c.resolve(3, Some(10), Some(2)), Some(pre(3, 10, 2, PreKind::Rc, 1)));
}
