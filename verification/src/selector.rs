//! Selection of a release artifact for a version and platform triple.

use vstd::prelude::*;
use crate::strcmp::str_eq;
use crate::version::{CanonicalVersion, canon_seq, canonical_string};

verus! {

/// One published artifact: a download location and an optional checksum
/// location.
pub struct ReleaseEntry {
    pub download: String,
    pub checksum: Option<String>,
}

/// An artifact keyed by the exact platform triple it was built for.
pub struct PlatformRelease {
    pub triple: String,
    pub entry: ReleaseEntry,
}

/// The artifacts published for one version, keyed by platform triple.
pub struct VersionReleases {
    pub version: CanonicalVersion,
    pub platforms: Vec<PlatformRelease>,
}

/// The published manifest: per-version, per-platform artifacts.
pub struct ReleaseManifest {
    pub releases: Vec<VersionReleases>,
}

/// A version request put to the selector: a canary build, a not-yet-resolved
/// alias, or an exact canonical version.
pub enum VersionRequest {
    Canary,
    Alias(String),
    Version(CanonicalVersion),
}

/// A typed selection failure, carrying the offending request or triple.
pub enum SelectError {
    UnsupportedCanary,
    NoReleaseForVersion(VersionRequest),
    NoReleaseForTriple(CanonicalVersion, String),
}

/// A successful selection: the artifact passed through verbatim, plus the
/// fixed archive prefix.
pub struct DownloadDescriptor {
    pub archive_prefix: String,
    pub download_url: String,
    pub checksum_url: Option<String>,
}

/// Characters naming a request in a failure report.
pub open spec fn request_seq(r: VersionRequest) -> Seq<char> {
    match r {
        VersionRequest::Canary => "canary"@,
        VersionRequest::Alias(name) => name@,
        VersionRequest::Version(v) => canon_seq(v),
    }
}

impl SelectError {
    /// Renders the failure for reporting, naming the offending request,
    /// version or triple.
    pub fn describe(&self) -> (s: String)
        ensures
            s@ == (match *self {
                SelectError::UnsupportedCanary => "no pre-built is published for a canary build"@,
                SelectError::NoReleaseForVersion(req) => "no pre-built available for version "@
                    + request_seq(req),
                SelectError::NoReleaseForTriple(v, t) => "no pre-built of version "@ + canon_seq(v)
                    + " available for platform "@ + t@,
            }),
    {
        match self {
            SelectError::UnsupportedCanary => String::from_str(
                "no pre-built is published for a canary build",
            ),
            SelectError::NoReleaseForVersion(req) => {
                let mut s = String::from_str("no pre-built available for version ");
                match req {
                    VersionRequest::Canary => {
                        proof {
                            reveal_strlit("canary");
                        }
                        s.append("canary");
                    },
                    VersionRequest::Alias(name) => {
                        s.append(name.as_str());
                    },
                    VersionRequest::Version(v) => {
                        let rendered = canonical_string(v);
                        s.append(rendered.as_str());
                    },
                }
                s
            },
            SelectError::NoReleaseForTriple(v, t) => {
                let mut s = String::from_str("no pre-built of version ");
                let rendered = canonical_string(v);
                s.append(rendered.as_str());
                s.append(" available for platform ");
                s.append(t.as_str());
                s
            },
        }
    }
}

/// Index of the first manifest row for `v`, at or after `i`.
pub open spec fn find_version_from(rs: Seq<VersionReleases>, v: CanonicalVersion, i: int) -> Option<
    int,
>
    decreases rs.len() - i,
{
    if i < 0 || i >= rs.len() {
        Option::None
    } else if rs[i].version == v {
        Option::Some(i)
    } else {
        find_version_from(rs, v, i + 1)
    }
}

/// The first manifest row for `v`, if any.
pub open spec fn lookup_version(rs: Seq<VersionReleases>, v: CanonicalVersion) -> Option<
    VersionReleases,
> {
    match find_version_from(rs, v, 0) {
        Option::None => Option::None,
        Option::Some(i) => Option::Some(rs[i]),
    }
}

/// Index of the first artifact for the exact triple `t`, at or after `i`.
pub open spec fn find_triple_from(ps: Seq<PlatformRelease>, t: Seq<char>, i: int) -> Option<int>
    decreases ps.len() - i,
{
    if i < 0 || i >= ps.len() {
        Option::None
    } else if ps[i].triple@ == t {
        Option::Some(i)
    } else {
        find_triple_from(ps, t, i + 1)
    }
}

/// The first artifact for the exact triple `t`, if any.
pub open spec fn lookup_triple(ps: Seq<PlatformRelease>, t: Seq<char>) -> Option<ReleaseEntry> {
    match find_triple_from(ps, t, 0) {
        Option::None => Option::None,
        Option::Some(i) => Option::Some(ps[i].entry),
    }
}

/// Selects the release artifact for a requested version and platform triple.
///
/// A canary request always fails with `UnsupportedCanary` before any lookup;
/// an unresolved alias never matches and fails with `NoReleaseForVersion`; an
/// exact version is looked up as an exact manifest key, then the triple as an
/// exact key of that row; the matched entry is returned unchanged, under the
/// fixed archive prefix `python`.
pub fn select(request: VersionRequest, manifest: &ReleaseManifest, triple: &str) -> (r: Result<
    DownloadDescriptor,
    SelectError,
>)
    ensures
        request is Canary ==> r == Err::<DownloadDescriptor, SelectError>(
            SelectError::UnsupportedCanary,
        ),
        request matches VersionRequest::Alias(_) ==> r == Err::<DownloadDescriptor, SelectError>(
            SelectError::NoReleaseForVersion(request),
        ),
        (match request {
            VersionRequest::Version(v) => match lookup_version(manifest.releases@, v) {
                Option::None => r == Err::<DownloadDescriptor, SelectError>(
                    SelectError::NoReleaseForVersion(request),
                ),
                Option::Some(row) => match lookup_triple(row.platforms@, triple@) {
                    Option::None => r matches Err(e) && e matches SelectError::NoReleaseForTriple(
                        ev,
                        et,
                    ) && ev == v && et@ == triple@,
                    Option::Some(entry) => r matches Ok(d) && d.download_url@ == entry.download@
                        && (match (d.checksum_url, entry.checksum) {
                        (Option::None, Option::None) => true,
                        (Option::Some(dc), Option::Some(ec)) => dc@ == ec@,
                        _ => false,
                    }) && d.archive_prefix@ == "python"@,
                },
            },
            _ => true,
        }),
{
    let v = match request {
        VersionRequest::Canary => {
            return Result::Err(SelectError::UnsupportedCanary);
        },
        VersionRequest::Alias(name) => {
            return Result::Err(SelectError::NoReleaseForVersion(VersionRequest::Alias(name)));
        },
        VersionRequest::Version(v) => v,
    };
    let ghost rs = manifest.releases@;
    let n = manifest.releases.len();
    let mut i: usize = 0;
    while i < n && !(manifest.releases[i].version == v)
        invariant
            0 <= i <= n,
            n == manifest.releases@.len(),
            manifest.releases@ == rs,
            find_version_from(rs, v, 0) == find_version_from(rs, v, i as int),
        decreases n - i,
    {
        i += 1;
    }
    if i == n {
        return Result::Err(SelectError::NoReleaseForVersion(VersionRequest::Version(v)));
    }
    let row = &manifest.releases[i];
    proof {
        assert(find_version_from(rs, v, i as int) == Option::Some(i as int));
        assert(lookup_version(rs, v) == Option::Some(rs[i as int]));
    }
    let ghost ps = row.platforms@;
    let m = row.platforms.len();
    let mut j: usize = 0;
    while j < m && !str_eq(row.platforms[j].triple.as_str(), triple)
        invariant
            0 <= j <= m,
            m == row.platforms@.len(),
            row.platforms@ == ps,
            find_triple_from(ps, triple@, 0) == find_triple_from(ps, triple@, j as int),
        decreases m - j,
    {
        j += 1;
    }
    if j == m {
        return Result::Err(SelectError::NoReleaseForTriple(v, String::from_str(triple)));
    }
    proof {
        assert(find_triple_from(ps, triple@, j as int) == Option::Some(j as int));
        assert(lookup_triple(ps, triple@) == Option::Some(ps[j as int].entry));
    }
    let entry = &row.platforms[j].entry;
    let checksum_url: Option<String> = match &entry.checksum {
        Option::None => Option::None,
        Option::Some(c) => Option::Some(c.clone()),
    };
    Result::Ok(
        DownloadDescriptor {
            archive_prefix: String::from_str("python"),
            download_url: entry.download.clone(),
            checksum_url,
        },
    )
}

} // verus!
