use python_plugin::tag::{from_python_version, normalize};
use python_plugin::version::{CanonicalVersion, PreKind, Prerelease};

fn v(major: u64, minor: u64, patch: u64) -> CanonicalVersion {
    CanonicalVersion { major, minor, patch, pre: None }
}

fn pre(major: u64, minor: u64, patch: u64, kind: PreKind, id: u64) -> CanonicalVersion {
    CanonicalVersion { major, minor, patch, pre: Some(Prerelease { kind, id }) }
}

#[test]
fn rejects_legacy_trunk() {
    assert_eq!(normalize("legacy-trunk"), None);
    assert_eq!(from_python_version("legacy-trunk".to_string()), None);
}

#[test]
fn bare_major_is_rejected_minor_suffices() {
    assert_eq!(normalize("3"), None);
    assert_eq!(normalize("3."), None);
    assert_eq!(normalize("3.10"), Some(v(3, 10, 0)));
}

#[test]
fn parses_full_and_prerelease_tags() {
    assert_eq!(normalize("3.10.1"), Some(v(3, 10, 1)));
    assert_eq!(normalize("v2.3.0a1"), Some(pre(2, 3, 0, PreKind::A, 1)));
    assert_eq!(normalize("3.12.0b4"), Some(pre(3, 12, 0, PreKind::B, 4)));
    assert_eq!(normalize("2.6.0c2"), Some(pre(2, 6, 0, PreKind::C, 2)));
    assert_eq!(normalize("3.13.0rc3"), Some(pre(3, 13, 0, PreKind::Rc, 3)));
}

#[test]
fn prerelease_needs_attached_id() {
    // A marker letter without an id is not a prerelease; the match ends
    // before it.
    assert_eq!(normalize("3.11.0rc"), Some(v(3, 11, 0)));
    assert_eq!(normalize("3.11a"), Some(v(3, 11, 0)));
}

#[test]
fn finds_leftmost_embedded_match() {
    assert_eq!(normalize("release-3.4.5"), Some(v(3, 4, 5)));
    assert_eq!(normalize("v3.4.5-extra"), Some(v(3, 4, 5)));
}

#[test]
fn rejects_tags_without_a_match() {
    assert_eq!(normalize(""), None);
    assert_eq!(normalize("main"), None);
    assert_eq!(normalize("v3"), None);
    assert_eq!(normalize("3..4"), None);
}

#[test]
fn rejects_components_beyond_machine_range() {
    assert_eq!(normalize("3.99999999999999999999"), None);
    assert_eq!(normalize("18446744073709551615.0"), Some(v(u64::MAX, 0, 0)));
}

#[test]
fn renders_canonical_strings() {
    assert_eq!(from_python_version("v3.11".to_string()), Some("3.11.0".to_string()));
    assert_eq!(from_python_version("3.10.1".to_string()), Some("3.10.1".to_string()));
    assert_eq!(from_python_version("v2.3.0a1".to_string()), Some("2.3.0-a.1".to_string()));
    assert_eq!(from_python_version("3.12.0rc2".to_string()), Some("3.12.0-rc.2".to_string()));
}

#[test]
fn stable_normalization_is_idempotent() {
    for tag in ["3.10.1", "v3.11", "2.7", "0.0.0", "10.20.30", "release-3.4.5"] {
        let first = from_python_version(tag.to_string()).unwrap();
        let second = from_python_version(first.clone()).unwrap();
        assert_eq!(first, second);
    }
}

#[test]
fn prerelease_rendering_reparses_to_its_stable_core() {
    // The canonical rendering separates the marker with a dash, which the
    // no-separator attachment rule does not read back.
    assert_eq!(normalize("2.3.0-a.1"), Some(v(2, 3, 0)));
}
