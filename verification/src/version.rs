//! Canonical versions and their total order.

use vstd::prelude::*;
use crate::decimal::{dec_str, u64_to_string};

verus! {

/// Prerelease kind, ordered `a < b < c < rc`.
#[derive(Clone, Copy, Debug, PartialEq, Eq, Structural)]
pub enum PreKind {
    A,
    B,
    C,
    Rc,
}

/// A prerelease marker: a kind and a numeric id.
#[derive(Clone, Copy, Debug, PartialEq, Eq, Structural)]
pub struct Prerelease {
    pub kind: PreKind,
    pub id: u64,
}

/// A canonical version. `major` and `minor` come from the source tag, `patch`
/// defaults to zero when the tag omits it, and `pre` is fully present or fully
/// absent.
#[derive(Clone, Copy, Debug, PartialEq, Eq, Structural)]
pub struct CanonicalVersion {
    pub major: u64,
    pub minor: u64,
    pub patch: u64,
    pub pre: Option<Prerelease>,
}

/// Rank of a prerelease kind within the order `a < b < c < rc`.
pub open spec fn kind_rank(k: PreKind) -> int {
    match k {
        PreKind::A => 0,
        PreKind::B => 1,
        PreKind::C => 2,
        PreKind::Rc => 3,
    }
}

/// Order on prerelease markers: any marker sorts before "no marker", and
/// markers sort by kind, then id.
pub open spec fn pre_lt(a: Option<Prerelease>, b: Option<Prerelease>) -> bool {
    match (a, b) {
        (Option::None, _) => false,
        (Option::Some(_), Option::None) => true,
        (Option::Some(x), Option::Some(y)) => kind_rank(x.kind) < kind_rank(y.kind) || (x.kind
            == y.kind && x.id < y.id),
    }
}

/// Strict total order on canonical versions: lexicographic over
/// (major, minor, patch), then by prerelease.
pub open spec fn version_lt(a: CanonicalVersion, b: CanonicalVersion) -> bool {
    if a.major != b.major {
        a.major < b.major
    } else if a.minor != b.minor {
        a.minor < b.minor
    } else if a.patch != b.patch {
        a.patch < b.patch
    } else {
        pre_lt(a.pre, b.pre)
    }
}

/// Non-strict version order.
pub open spec fn version_le(a: CanonicalVersion, b: CanonicalVersion) -> bool {
    version_lt(a, b) || a == b
}

/// A version with no prerelease marker.
pub open spec fn is_stable(v: CanonicalVersion) -> bool {
    v.pre is None
}

/// The version order is irreflexive and asymmetric.
pub proof fn lemma_version_lt_asymmetric(a: CanonicalVersion, b: CanonicalVersion)
    ensures
        !(version_lt(a, b) && version_lt(b, a)),
        !version_lt(a, a),
{
}

/// The version order is transitive.
pub proof fn lemma_version_lt_transitive(a: CanonicalVersion, b: CanonicalVersion, c: CanonicalVersion)
    requires
        version_lt(a, b),
        version_lt(b, c),
    ensures
        version_lt(a, c),
{
}

/// Any two distinct versions are ordered one way or the other.
pub proof fn lemma_version_lt_total(a: CanonicalVersion, b: CanonicalVersion)
    ensures
        version_lt(a, b) || version_lt(b, a) || a == b,
{
    if !version_lt(a, b) && !version_lt(b, a) {
        match (a.pre, b.pre) {
            (Option::Some(x), Option::Some(y)) => {
                assert(kind_rank(x.kind) == kind_rank(y.kind));
                assert(x.kind == y.kind);
                assert(x.id == y.id);
                assert(x == y);
            },
            _ => {},
        }
        assert(a == b);
    }
}

impl CanonicalVersion {
    /// Decides the strict version order.
    pub fn lt(&self, other: &CanonicalVersion) -> (r: bool)
        ensures
            r == version_lt(*self, *other),
    {
        if self.major != other.major {
            self.major < other.major
        } else if self.minor != other.minor {
            self.minor < other.minor
        } else if self.patch != other.patch {
            self.patch < other.patch
        } else {
            match (&self.pre, &other.pre) {
                (Option::None, _) => false,
                (Option::Some(_), Option::None) => true,
                (Option::Some(x), Option::Some(y)) => {
                    let rs = kind_rank_exec(x.kind);
                    let ro = kind_rank_exec(y.kind);
                    rs < ro || (rs == ro && x.id < y.id)
                },
            }
        }
    }

    /// Whether the version has no prerelease marker.
    pub fn is_stable(&self) -> (r: bool)
        ensures
            r == is_stable(*self),
    {
        self.pre.is_none()
    }
}

/// Decides the rank of a prerelease kind.
fn kind_rank_exec(k: PreKind) -> (r: u64)
    ensures
        r as int == kind_rank(k),
{
    match k {
        PreKind::A => 0,
        PreKind::B => 1,
        PreKind::C => 2,
        PreKind::Rc => 3,
    }
}

/// Characters of a prerelease kind in the source-tag pattern.
pub open spec fn kind_seq(k: PreKind) -> Seq<char> {
    match k {
        PreKind::A => seq!['a'],
        PreKind::B => seq!['b'],
        PreKind::C => seq!['c'],
        PreKind::Rc => seq!['r', 'c'],
    }
}

/// Characters of the prerelease part of the canonical rendering: empty, or
/// `-<kind>.<id>`.
pub open spec fn pre_seq(p: Option<Prerelease>) -> Seq<char> {
    match p {
        Option::None => Seq::<char>::empty(),
        Option::Some(pr) => seq!['-'] + kind_seq(pr.kind) + seq!['.'] + dec_str(pr.id as nat),
    }
}

/// Characters of the canonical rendering `major.minor.patch[-kind.id]`.
pub open spec fn canon_seq(v: CanonicalVersion) -> Seq<char> {
    dec_str(v.major as nat) + seq!['.'] + dec_str(v.minor as nat) + seq!['.'] + dec_str(
        v.patch as nat,
    ) + pre_seq(v.pre)
}

/// String slice for a prerelease kind.
fn kind_str(k: PreKind) -> (s: &'static str)
    ensures
        s@ == kind_seq(k),
{
    match k {
        PreKind::A => {
            proof {
                reveal_strlit("a");
                assert("a"@ =~= seq!['a']);
            }
            "a"
        },
        PreKind::B => {
            proof {
                reveal_strlit("b");
                assert("b"@ =~= seq!['b']);
            }
            "b"
        },
        PreKind::C => {
            proof {
                reveal_strlit("c");
                assert("c"@ =~= seq!['c']);
            }
            "c"
        },
        PreKind::Rc => {
            proof {
                reveal_strlit("rc");
                assert("rc"@ =~= seq!['r', 'c']);
            }
            "rc"
        },
    }
}

/// Renders a version canonically as `major.minor.patch`, followed by
/// `-<kind>.<id>` when a prerelease marker is present.
pub fn canonical_string(v: &CanonicalVersion) -> (s: String)
    ensures
        s@ == canon_seq(*v),
{
    proof {
        reveal_strlit(".");
        assert("."@ =~= seq!['.']);
        reveal_strlit("-");
        assert("-"@ =~= seq!['-']);
    }
    let mut s = u64_to_string(v.major);
    s.append(".");
    let minor = u64_to_string(v.minor);
    s.append(minor.as_str());
    s.append(".");
    let patch = u64_to_string(v.patch);
    s.append(patch.as_str());
    match &v.pre {
        Option::None => {},
        Option::Some(pr) => {
            s.append("-");
            s.append(kind_str(pr.kind));
            s.append(".");
            let id = u64_to_string(pr.id);
            s.append(id.as_str());
        },
    }
    proof {
        assert(s@ =~= canon_seq(*v));
    }
    s
}

} // verus!
