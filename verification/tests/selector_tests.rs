use python_plugin::selector::{
    DownloadDescriptor, PlatformRelease, ReleaseEntry, ReleaseManifest, SelectError, VersionRequest,
    VersionReleases, select,
};
use python_plugin::version::CanonicalVersion;

fn v(major: u64, minor: u64, patch: u64) -> CanonicalVersion {
    CanonicalVersion { major, minor, patch, pre: None }
}

const LINUX: &str = "x86_64-unknown-linux-gnu";
const DARWIN: &str = "aarch64-apple-darwin";

fn manifest() -> ReleaseManifest {
    ReleaseManifest {
        releases: vec![
            VersionReleases {
                version: v(3, 12, 0),
                platforms: vec![
                    PlatformRelease {
                        triple: LINUX.to_string(),
                        entry: ReleaseEntry {
                            download: "https://example.test/cpython-3.12.0-linux.tar.zst"
                                .to_string(),
                            checksum: Some(
                                "https://example.test/cpython-3.12.0-linux.tar.zst.sha256"
                                    .to_string(),
                            ),
                        },
                    },
                    PlatformRelease {
                        triple: DARWIN.to_string(),
                        entry: ReleaseEntry {
                            download: "https://example.test/cpython-3.12.0-darwin.tar.zst"
                                .to_string(),
                            checksum: None,
                        },
                    },
                ],
            },
            VersionReleases { version: v(2, 3, 7), platforms: vec![] },
        ],
    }
}

#[test]
fn canary_is_always_unsupported() {
    let m = manifest();
    let r = select(VersionRequest::Canary, &m, LINUX);
    assert!(matches!(r, Err(SelectError::UnsupportedCanary)));
}

#[test]
fn alias_request_never_matches() {
    let m = manifest();
    let r = select(VersionRequest::Alias("latest".to_string()), &m, LINUX);
    match r {
        Err(SelectError::NoReleaseForVersion(VersionRequest::Alias(name))) => {
            assert_eq!(name, "latest");
        }
        _ => panic!("expected NoReleaseForVersion for an alias request"),
    }
}

#[test]
fn missing_version_fails_typed() {
    let m = manifest();
    let r = select(VersionRequest::Version(v(3, 11, 0)), &m, LINUX);
    match r {
        Err(SelectError::NoReleaseForVersion(VersionRequest::Version(version))) => {
            assert_eq!(version, v(3, 11, 0));
        }
        _ => panic!("expected NoReleaseForVersion for an absent version"),
    }
}

#[test]
fn missing_triple_fails_typed() {
    let m = manifest();
    let r = select(VersionRequest::Version(v(3, 12, 0)), &m, "riscv64gc-unknown-linux-gnu");
    match r {
        Err(SelectError::NoReleaseForTriple(version, triple)) => {
            assert_eq!(version, v(3, 12, 0));
            assert_eq!(triple, "riscv64gc-unknown-linux-gnu");
        }
        _ => panic!("expected NoReleaseForTriple for an absent triple"),
    }
}

#[test]
fn selects_entry_verbatim() {
    let m = manifest();
    let d: DownloadDescriptor = select(VersionRequest::Version(v(3, 12, 0)), &m, LINUX)
        .unwrap_or_else(|_| panic!("expected a release"));
    assert_eq!(d.archive_prefix, "python");
    assert_eq!(d.download_url, "https://example.test/cpython-3.12.0-linux.tar.zst");
    assert_eq!(
        d.checksum_url,
        Some("https://example.test/cpython-3.12.0-linux.tar.zst.sha256".to_string())
    );
}

#[test]
fn selects_entry_without_checksum() {
    let m = manifest();
    let d = select(VersionRequest::Version(v(3, 12, 0)), &m, DARWIN)
        .unwrap_or_else(|_| panic!("expected a release"));
    assert_eq!(d.download_url, "https://example.test/cpython-3.12.0-darwin.tar.zst");
    assert_eq!(d.checksum_url, None);
}

#[test]
fn failures_describe_their_context() {
    let m = manifest();
    match select(VersionRequest::Canary, &m, LINUX) {
        Err(e) => assert_eq!(e.describe(), "no pre-built is published for a canary build"),
        Ok(_) => panic!("expected a failure"),
    }
    match select(VersionRequest::Version(v(3, 11, 0)), &m, LINUX) {
        Err(e) => assert_eq!(e.describe(), "no pre-built available for version 3.11.0"),
        Ok(_) => panic!("expected a failure"),
    }
    match select(VersionRequest::Alias("stable".to_string()), &m, LINUX) {
        Err(e) => assert_eq!(e.describe(), "no pre-built available for version stable"),
        Ok(_) => panic!("expected a failure"),
    }
    match select(VersionRequest::Version(v(3, 12, 0)), &m, "sparc64-sun-solaris") {
        Err(e) => assert_eq!(
            e.describe(),
            "no pre-built of version 3.12.0 available for platform sparc64-sun-solaris"
        ),
        Ok(_) => panic!("expected a failure"),
    }
}

#[test]
fn empty_platform_row_fails_on_any_triple() {
    let m = manifest();
    let r = select(VersionRequest::Version(v(2, 3, 7)), &m, LINUX);
    assert!(matches!(r, Err(SelectError::NoReleaseForTriple(_, _))));
}
