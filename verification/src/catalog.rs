//! The ordered version catalog and its `latest` alias.

use vstd::prelude::*;
use crate::version::{
    CanonicalVersion,
    version_lt,
    version_le,
    is_stable,
    canon_seq,
    canonical_string,
    lemma_version_lt_total,
    lemma_version_lt_asymmetric,
    lemma_version_lt_transitive,
};
use crate::tag::{normalize, spec_normalize};
use crate::strcmp::str_eq;

verus! {

/// Every earlier entry is strictly smaller: ascending order without
/// duplicates.
pub open spec fn sorted_ascending(s: Seq<CanonicalVersion>) -> bool {
    forall|i: int, j: int| 0 <= i < j < s.len() ==> version_lt(s[i], s[j])
}

/// Whether one of the first `upto` tags normalizes to `v`.
pub open spec fn tag_yields_upto(tags: Seq<String>, v: CanonicalVersion, upto: int) -> bool {
    exists|k: int| 0 <= k < upto && spec_normalize(#[trigger] tags[k]@) == Option::Some(v)
}

/// Whether some tag normalizes to `v`.
pub open spec fn tag_yields(tags: Seq<String>, v: CanonicalVersion) -> bool {
    tag_yields_upto(tags, v, tags.len() as int)
}

/// Whether the sequence holds a stable version.
pub open spec fn has_stable(s: Seq<CanonicalVersion>) -> bool {
    exists|i: int| 0 <= i < s.len() && is_stable(#[trigger] s[i])
}

/// The `latest` alias is correct: absent exactly for an empty catalog, and
/// otherwise the greatest stable version when one exists, else the greatest
/// version overall.
pub open spec fn latest_correct(s: Seq<CanonicalVersion>, l: Option<CanonicalVersion>) -> bool {
    if s.len() == 0 {
        l is None
    } else {
        match l {
            Option::None => false,
            Option::Some(m) => {
                &&& s.contains(m)
                &&& if has_stable(s) {
                    is_stable(m) && forall|i: int|
                        0 <= i < s.len() && is_stable(#[trigger] s[i]) ==> version_le(s[i], m)
                } else {
                    forall|i: int| 0 <= i < s.len() ==> version_le(#[trigger] s[i], m)
                }
            },
        }
    }
}

/// An ordered, deduplicated set of canonical versions together with the
/// `latest` alias.
pub struct VersionCatalog {
    pub versions: Vec<CanonicalVersion>,
    pub latest: Option<CanonicalVersion>,
}

/// Adds `v` to a sorted sequence of versions, keeping order and discarding a
/// duplicate.
fn insert_version(versions: &mut Vec<CanonicalVersion>, v: CanonicalVersion)
    requires
        sorted_ascending(old(versions)@),
    ensures
        sorted_ascending(final(versions)@),
        forall|w: CanonicalVersion|
            final(versions)@.contains(w) <==> (old(versions)@.contains(w) || w == v),
{
    let ghost oldseq = versions@;
    let n = versions.len();
    let mut i: usize = 0;
    while i < n && versions[i].lt(&v)
        invariant
            0 <= i <= n,
            n == versions@.len(),
            versions@ == oldseq,
            forall|k: int| 0 <= k < i ==> version_lt(#[trigger] versions@[k], v),
        decreases n - i,
    {
        i += 1;
    }
    if i < n && versions[i] == v {
        proof {
            assert(oldseq[i as int] == v);
            assert(oldseq.contains(v));
        }
        return;
    }
    proof {
        if i < n {
            lemma_version_lt_total(oldseq[i as int], v);
        }
    }
    versions.insert(i, v);
    let ghost newseq = versions@;
    proof {
        assert(newseq == oldseq.insert(i as int, v));
        assert forall|x: int, y: int| 0 <= x < y < newseq.len() implies version_lt(
            newseq[x],
            newseq[y],
        ) by {
            let xi = if x < i { oldseq[x] } else if x == i { v } else { oldseq[x - 1] };
            let yi = if y < i { oldseq[y] } else if y == i { v } else { oldseq[y - 1] };
            assert(newseq[x] == xi);
            assert(newseq[y] == yi);
            if x < i && y == i {
                // ordered scan gives it
            } else if x == i && y > i {
                if y - 1 > i {
                    lemma_version_lt_transitive(v, oldseq[i as int], oldseq[y - 1]);
                }
            } else if x < i && y > i {
                assert(version_lt(oldseq[x], oldseq[y - 1]));
            }
        }
        assert forall|w: CanonicalVersion| newseq.contains(w) implies (oldseq.contains(w) || w
            == v) by {
            let k = choose|k: int| 0 <= k < newseq.len() && newseq[k] == w;
            if k < i {
                assert(oldseq[k] == w);
            } else if k == i {
                assert(w == v);
            } else {
                assert(oldseq[k - 1] == w);
            }
        }
        assert forall|w: CanonicalVersion| (oldseq.contains(w) || w == v) implies newseq.contains(
            w,
        ) by {
            if w == v {
                assert(newseq[i as int] == w);
            } else {
                let k = choose|k: int| 0 <= k < oldseq.len() && oldseq[k] == w;
                if k < i {
                    assert(newseq[k] == w);
                } else {
                    assert(newseq[k + 1] == w);
                }
            }
        }
    }
}

/// Picks the `latest` alias from a sorted version sequence: the greatest
/// stable entry when one exists, else the greatest entry.
fn compute_latest(versions: &Vec<CanonicalVersion>) -> (l: Option<CanonicalVersion>)
    requires
        sorted_ascending(versions@),
    ensures
        latest_correct(versions@, l),
{
    let ghost s = versions@;
    let n = versions.len();
    if n == 0 {
        return Option::None;
    }
    let mut i = n;
    while i > 0
        invariant
            0 <= i <= n,
            n == versions@.len(),
            versions@ == s,
            sorted_ascending(s),
            forall|k: int| i <= k < n ==> !is_stable(#[trigger] s[k]),
        decreases i,
    {
        i -= 1;
        if versions[i].is_stable() {
            let m = versions[i];
            proof {
                assert(s[i as int] == m);
                assert(s.contains(m));
                assert(has_stable(s));
                assert forall|k: int| 0 <= k < n && is_stable(#[trigger] s[k]) implies version_le(
                    s[k],
                    m,
                ) by {}
            }
            return Option::Some(m);
        }
    }
    let m = versions[n - 1];
    proof {
        assert(s[n - 1] == m);
        assert(s.contains(m));
        assert(!has_stable(s));
        assert forall|k: int| 0 <= k < n implies version_le(#[trigger] s[k], m) by {}
    }
    Option::Some(m)
}

impl VersionCatalog {
    /// Well-formedness: the versions stand in ascending order without
    /// duplicates, and the alias obeys the `latest` rule.
    pub open spec fn wf(self) -> bool {
        &&& sorted_ascending(self.versions@)
        &&& latest_correct(self.versions@, self.latest)
    }

    /// Builds the catalog for a list of raw tags: normalizes every tag,
    /// discards the rejects, collapses duplicates, sorts ascending and
    /// computes the `latest` alias.
    pub fn build(tags: &Vec<String>) -> (c: VersionCatalog)
        ensures
            c.wf(),
            forall|v: CanonicalVersion| c.versions@.contains(v) <==> tag_yields(tags@, v),
    {
        let mut versions: Vec<CanonicalVersion> = Vec::new();
        let mut idx: usize = 0;
        while idx < tags.len()
            invariant
                0 <= idx <= tags@.len(),
                sorted_ascending(versions@),
                forall|v: CanonicalVersion|
                    versions@.contains(v) <==> tag_yields_upto(tags@, v, idx as int),
            decreases tags@.len() - idx,
        {
            let ghost before = versions@;
            let r = normalize(tags[idx].as_str());
            match r {
                Option::Some(v) => {
                    insert_version(&mut versions, v);
                    proof {
                        assert forall|w: CanonicalVersion| versions@.contains(w) implies
                            tag_yields_upto(tags@, w, idx + 1) by {
                            if before.contains(w) {
                                let k = choose|k: int|
                                    0 <= k < idx && spec_normalize(#[trigger] tags@[k]@)
                                        == Option::Some(w);
                                assert(spec_normalize(tags@[k]@) == Option::Some(w));
                            } else {
                                assert(w == v);
                                assert(spec_normalize(tags@[idx as int]@) == Option::Some(w));
                            }
                        }
                        assert forall|w: CanonicalVersion| tag_yields_upto(tags@, w, idx + 1)
                            implies versions@.contains(w) by {
                            let k = choose|k: int|
                                0 <= k < idx + 1 && spec_normalize(#[trigger] tags@[k]@)
                                    == Option::Some(w);
                            if k < idx {
                                assert(tag_yields_upto(tags@, w, idx as int));
                            } else {
                                assert(w == v);
                            }
                        }
                    }
                },
                Option::None => {
                    proof {
                        assert forall|w: CanonicalVersion| tag_yields_upto(tags@, w, idx + 1)
                            implies versions@.contains(w) by {
                            let k = choose|k: int|
                                0 <= k < idx + 1 && spec_normalize(#[trigger] tags@[k]@)
                                    == Option::Some(w);
                            assert(k < idx);
                            assert(tag_yields_upto(tags@, w, idx as int));
                        }
                        assert forall|w: CanonicalVersion| versions@.contains(w) implies
                            tag_yields_upto(tags@, w, idx + 1) by {
                            let k = choose|k: int|
                                0 <= k < idx && spec_normalize(#[trigger] tags@[k]@)
                                    == Option::Some(w);
                            assert(spec_normalize(tags@[k]@) == Option::Some(w));
                        }
                    }
                },
            }
            idx += 1;
        }
        let latest = compute_latest(&versions);
        VersionCatalog { versions, latest }
    }

    /// Looks an alias up by name. The catalog defines exactly one alias,
    /// `latest`, and only while it holds a version.
    pub fn alias(&self, name: &str) -> (r: Option<CanonicalVersion>)
        ensures
            r == (if name@ == "latest"@ {
                self.latest
            } else {
                Option::<CanonicalVersion>::None
            }),
    {
        if str_eq(name, "latest") {
            self.latest
        } else {
            Option::None
        }
    }

    /// Renders every catalog entry canonically, in catalog order.
    pub fn version_strings(&self) -> (out: Vec<String>)
        ensures
            out@.len() == self.versions@.len(),
            forall|i: int| 0 <= i < out@.len() ==> (#[trigger] out@[i])@ == canon_seq(
                self.versions@[i],
            ),
    {
        let mut out: Vec<String> = Vec::new();
        let mut i: usize = 0;
        while i < self.versions.len()
            invariant
                0 <= i <= self.versions@.len(),
                out@.len() == i,
                forall|k: int| 0 <= k < i ==> (#[trigger] out@[k])@ == canon_seq(
                    self.versions@[k],
                ),
            decreases self.versions@.len() - i,
        {
            let s = canonical_string(&self.versions[i]);
            out.push(s);
            i += 1;
        }
        out
    }
}

/// Whether a version agrees with a partial version request: the major number
/// and every component the request gives.
pub open spec fn prefix_matches(
    v: CanonicalVersion,
    major: u64,
    minor: Option<u64>,
    patch: Option<u64>,
) -> bool {
    &&& v.major == major
    &&& match minor {
        Option::None => true,
        Option::Some(m) => v.minor == m,
    }
    &&& match patch {
        Option::None => true,
        Option::Some(p) => v.patch == p,
    }
}

/// What resolving a partial request returns: nothing when no entry agrees,
/// else the greatest agreeing stable version when one exists, else the
/// greatest agreeing version.
pub open spec fn resolve_correct(
    s: Seq<CanonicalVersion>,
    major: u64,
    minor: Option<u64>,
    patch: Option<u64>,
    r: Option<CanonicalVersion>,
) -> bool {
    match r {
        Option::None => forall|i: int|
            0 <= i < s.len() ==> !prefix_matches(#[trigger] s[i], major, minor, patch),
        Option::Some(m) => {
            &&& s.contains(m)
            &&& prefix_matches(m, major, minor, patch)
            &&& if exists|i: int|
                0 <= i < s.len() && is_stable(#[trigger] s[i]) && prefix_matches(
                    s[i],
                    major,
                    minor,
                    patch,
                ) {
                is_stable(m) && forall|i: int|
                    0 <= i < s.len() && is_stable(#[trigger] s[i]) && prefix_matches(
                        s[i],
                        major,
                        minor,
                        patch,
                    ) ==> version_le(s[i], m)
            } else {
                forall|i: int|
                    0 <= i < s.len() && prefix_matches(#[trigger] s[i], major, minor, patch)
                        ==> version_le(s[i], m)
            }
        },
    }
}

/// Decides whether a version agrees with a partial request.
fn prefix_matches_exec(
    v: &CanonicalVersion,
    major: u64,
    minor: Option<u64>,
    patch: Option<u64>,
) -> (r: bool)
    ensures
        r == prefix_matches(*v, major, minor, patch),
{
    v.major == major && (match minor {
        Option::None => true,
        Option::Some(m) => v.minor == m,
    }) && (match patch {
        Option::None => true,
        Option::Some(p) => v.patch == p,
    })
}

impl VersionCatalog {
    /// Resolves a partial version request against the catalog, preferring the
    /// greatest agreeing stable version and falling back to the greatest
    /// agreeing prerelease.
    pub fn resolve(&self, major: u64, minor: Option<u64>, patch: Option<u64>) -> (r: Option<
        CanonicalVersion,
    >)
        requires
            self.wf(),
        ensures
            resolve_correct(self.versions@, major, minor, patch, r),
    {
        let ghost s = self.versions@;
        let n = self.versions.len();
        let mut fallback: Option<CanonicalVersion> = Option::None;
        let mut i = n;
        while i > 0
            invariant
                0 <= i <= n,
                n == self.versions@.len(),
                self.versions@ == s,
                sorted_ascending(s),
                forall|k: int|
                    i <= k < n ==> !(is_stable(#[trigger] s[k]) && prefix_matches(
                        s[k],
                        major,
                        minor,
                        patch,
                    )),
                match fallback {
                    Option::None => forall|k: int|
                        i <= k < n ==> !prefix_matches(#[trigger] s[k], major, minor, patch),
                    Option::Some(f) => {
                        &&& exists|k: int| i <= k < n && #[trigger] s[k] == f
                        &&& prefix_matches(f, major, minor, patch)
                        &&& forall|k: int|
                            i <= k < n && prefix_matches(#[trigger] s[k], major, minor, patch)
                                ==> version_le(s[k], f)
                    },
                },
            decreases i,
        {
            i -= 1;
            let v = self.versions[i];
            proof {
                assert(s[i as int] == v);
                match fallback {
                    Option::Some(f) => {
                        let k = choose|k: int| i + 1 <= k < n && #[trigger] s[k] == f;
                        assert(version_lt(s[i as int], s[k]));
                    },
                    Option::None => {},
                }
            }
            if prefix_matches_exec(&v, major, minor, patch) {
                if v.is_stable() {
                    proof {
                        assert(s.contains(v));
                        assert forall|k: int|
                            0 <= k < n && is_stable(#[trigger] s[k]) && prefix_matches(
                                s[k],
                                major,
                                minor,
                                patch,
                            ) implies version_le(s[k], v) by {}
                    }
                    return Option::Some(v);
                }
                if fallback.is_none() {
                    fallback = Option::Some(v);
                }
            }
        }
        proof {
            match fallback {
                Option::Some(f) => {
                    let k = choose|k: int| 0 <= k < n && #[trigger] s[k] == f;
                    assert(s.contains(f));
                },
                Option::None => {},
            }
        }
        fallback
    }
}

/// Law: when the greatest catalog entry carries no prerelease marker, the
/// `latest` alias is exactly that greatest entry.
pub proof fn lemma_latest_is_max(c: VersionCatalog)
    requires
        c.wf(),
        c.versions@.len() > 0,
        is_stable(c.versions@.last()),
    ensures
        c.latest == Option::Some(c.versions@.last()),
{
    let s = c.versions@;
    let n = s.len() as int;
    assert(s[n - 1] == s.last());
    assert(has_stable(s));
    match c.latest {
        Option::None => {
            assert(false);
        },
        Option::Some(m) => {
            assert(version_le(s[n - 1], m));
            let k = choose|k: int| 0 <= k < n && s[k] == m;
            if k < n - 1 {
                assert(version_lt(s[k], s[n - 1]));
            }
            lemma_version_lt_asymmetric(m, s[n - 1]);
            assert(m == s.last());
        },
    }
}

} // verus!
