//! Normalization of raw source-control tags into canonical versions.
//!
//! A tag matches when it contains, at its leftmost possible position, an
//! optional `v`, a major and a minor number separated by a dot, an optional
//! dotted patch number, and an optional prerelease marker (`a`, `b`, `c` or
//! `rc` plus an id) attached with no separator. The literal tag
//! `legacy-trunk` is a reserved marker and never a version.

use vstd::prelude::*;
use crate::decimal::{
    is_digit,
    seq_val,
    parse_digits,
    dec_str,
    lemma_dec_str_digits,
    lemma_dec_str_val,
};
use crate::strcmp::str_eq;
use crate::version::{CanonicalVersion, PreKind, Prerelease, canon_seq, pre_seq, canonical_string};

verus! {

/// End of the digit run that starts at `i`: the first position at or after
/// `i` holding no digit.
pub open spec fn digit_run_end(t: Seq<char>, i: int) -> int
    decreases t.len() - i,
{
    if 0 <= i < t.len() && is_digit(t[i]) {
        digit_run_end(t, i + 1)
    } else {
        i
    }
}

/// Bounds and content of a digit run.
pub proof fn lemma_digit_run_end(t: Seq<char>, i: int)
    requires
        0 <= i <= t.len(),
    ensures
        i <= digit_run_end(t, i) <= t.len(),
        forall|k: int| i <= k < digit_run_end(t, i) ==> is_digit(#[trigger] t[k]),
        digit_run_end(t, i) < t.len() ==> !is_digit(t[digit_run_end(t, i)]),
    decreases t.len() - i,
{
    if i < t.len() && is_digit(t[i]) {
        lemma_digit_run_end(t, i + 1);
    }
}

/// A digit run that ends where the digits end.
pub proof fn lemma_digit_run_end_is(t: Seq<char>, i: int, e: int)
    requires
        0 <= i <= e <= t.len(),
        forall|k: int| i <= k < e ==> is_digit(#[trigger] t[k]),
        e < t.len() ==> !is_digit(t[e]),
    ensures
        digit_run_end(t, i) == e,
    decreases e - i,
{
    if i < e {
        lemma_digit_run_end_is(t, i + 1, e);
    }
}

/// The number-shaped core of the pattern at position `i`: a digit run, a dot,
/// and at least one further digit.
pub open spec fn core_matches(t: Seq<char>, i: int) -> bool {
    &&& 0 <= i < t.len()
    &&& is_digit(t[i])
    &&& digit_run_end(t, i) + 1 < t.len()
    &&& t[digit_run_end(t, i)] == '.'
    &&& is_digit(t[digit_run_end(t, i) + 1])
}

/// Whether the pattern matches starting exactly at position `s`, taking an
/// optional leading `v` into account.
pub open spec fn match_at(t: Seq<char>, s: int) -> bool {
    &&& 0 <= s < t.len()
    &&& if t[s] == 'v' {
        core_matches(t, s + 1)
    } else {
        core_matches(t, s)
    }
}

/// Leftmost position at or after `s` where the pattern matches.
pub open spec fn find_from(t: Seq<char>, s: int) -> Option<int>
    decreases t.len() - s,
{
    if s < 0 || s >= t.len() {
        Option::None
    } else if match_at(t, s) {
        Option::Some(s)
    } else {
        find_from(t, s + 1)
    }
}

/// Components of a matched tag, as unbounded numbers.
pub ghost struct ParsedTag {
    pub major: nat,
    pub minor: nat,
    pub patch: nat,
    pub pre: Option<(PreKind, nat)>,
}

/// Prerelease marker starting at position `p`, if any: one of the letter
/// sequences `a`, `b`, `c`, `rc`, immediately followed by at least one digit.
pub open spec fn pre_marker_at(t: Seq<char>, p: int) -> Option<(PreKind, nat)> {
    if 0 <= p && p + 1 < t.len() && (t[p] == 'a' || t[p] == 'b' || t[p] == 'c') && is_digit(
        t[p + 1],
    ) {
        let kind = if t[p] == 'a' {
            PreKind::A
        } else if t[p] == 'b' {
            PreKind::B
        } else {
            PreKind::C
        };
        Option::Some((kind, seq_val(t.subrange(p + 1, digit_run_end(t, p + 1)))))
    } else if 0 <= p && p + 2 < t.len() && t[p] == 'r' && t[p + 1] == 'c' && is_digit(t[p + 2]) {
        Option::Some((PreKind::Rc, seq_val(t.subrange(p + 2, digit_run_end(t, p + 2)))))
    } else {
        Option::None
    }
}

/// Components extracted from a match at position `s`. Meaningful only when
/// `match_at(t, s)` holds.
pub open spec fn parse_at(t: Seq<char>, s: int) -> ParsedTag {
    let i = if t[s] == 'v' {
        s + 1
    } else {
        s
    };
    let maj_end = digit_run_end(t, i);
    let min_start = maj_end + 1;
    let min_end = digit_run_end(t, min_start);
    let has_patch = min_end + 1 < t.len() && t[min_end] == '.' && is_digit(t[min_end + 1]);
    let after = if has_patch {
        digit_run_end(t, min_end + 1)
    } else {
        min_end
    };
    ParsedTag {
        major: seq_val(t.subrange(i, maj_end)),
        minor: seq_val(t.subrange(min_start, min_end)),
        patch: if has_patch {
            seq_val(t.subrange(min_end + 1, after))
        } else {
            0
        },
        pre: pre_marker_at(t, after),
    }
}

/// The reserved tag that is never a version.
pub open spec fn is_legacy_marker(t: Seq<char>) -> bool {
    t == "legacy-trunk"@
}

/// Abstract normalization: the components of the leftmost match, unless the
/// tag is the reserved marker or nothing matches.
pub open spec fn spec_parse_tag(t: Seq<char>) -> Option<ParsedTag> {
    if is_legacy_marker(t) {
        Option::None
    } else {
        match find_from(t, 0) {
            Option::None => Option::None,
            Option::Some(s) => Option::Some(parse_at(t, s)),
        }
    }
}

/// Whether every component of a parsed tag fits in a machine word.
pub open spec fn parsed_fits(p: ParsedTag) -> bool {
    &&& p.major <= u64::MAX
    &&& p.minor <= u64::MAX
    &&& p.patch <= u64::MAX
    &&& match p.pre {
        Option::None => true,
        Option::Some((_, id)) => id <= u64::MAX,
    }
}

/// The canonical version for a parsed tag whose components fit.
pub open spec fn parsed_version(p: ParsedTag) -> CanonicalVersion {
    CanonicalVersion {
        major: p.major as u64,
        minor: p.minor as u64,
        patch: p.patch as u64,
        pre: match p.pre {
            Option::None => Option::None,
            Option::Some((kind, id)) => Option::Some(Prerelease { kind, id: id as u64 }),
        },
    }
}

/// Normalization at the specification level: the canonical version of the
/// tag, or nothing when the tag is the reserved marker, matches nowhere, or
/// holds a component beyond the machine-word range.
pub open spec fn spec_normalize(t: Seq<char>) -> Option<CanonicalVersion> {
    match spec_parse_tag(t) {
        Option::None => Option::None,
        Option::Some(p) => if parsed_fits(p) {
            Option::Some(parsed_version(p))
        } else {
            Option::None
        },
    }
}

/// Decides whether `c` is a decimal digit.
fn is_digit_exec(c: char) -> (r: bool)
    ensures
        r == is_digit(c),
{
    let u = c as u32;
    48 <= u && u <= 57
}

/// Scans to the end of the digit run starting at `i`.
fn scan_digit_run(s: &str, i: usize, n: usize) -> (j: usize)
    requires
        i <= n,
        n == s@.len(),
    ensures
        j as int == digit_run_end(s@, i as int),
        i <= j <= n,
{
    let mut j = i;
    while j < n && is_digit_exec(s.get_char(j))
        invariant
            i <= j <= n,
            n == s@.len(),
            digit_run_end(s@, i as int) == digit_run_end(s@, j as int),
        decreases n - j,
    {
        j += 1;
    }
    j
}

/// Decides whether the number-shaped core of the pattern starts at `i`.
fn core_matches_exec(s: &str, i: usize, n: usize) -> (r: bool)
    requires
        n == s@.len(),
    ensures
        r == core_matches(s@, i as int),
{
    if i >= n {
        return false;
    }
    if !is_digit_exec(s.get_char(i)) {
        return false;
    }
    let j = scan_digit_run(s, i, n);
    if !(j < n && j + 1 < n) {
        return false;
    }
    s.get_char(j) == '.' && is_digit_exec(s.get_char(j + 1))
}

/// Decides whether the pattern matches starting exactly at `pos`.
fn match_at_exec(s: &str, pos: usize, n: usize) -> (r: bool)
    requires
        pos < n,
        n == s@.len(),
    ensures
        r == match_at(s@, pos as int),
{
    if s.get_char(pos) == 'v' {
        core_matches_exec(s, pos + 1, n)
    } else {
        core_matches_exec(s, pos, n)
    }
}

/// Extracts the canonical version from the match at `pos`, rejecting
/// components beyond the machine-word range.
fn parse_match(s: &str, pos: usize, n: usize) -> (r: Option<CanonicalVersion>)
    requires
        pos < n,
        n == s@.len(),
        match_at(s@, pos as int),
    ensures
        r == (if parsed_fits(parse_at(s@, pos as int)) {
            Option::Some(parsed_version(parse_at(s@, pos as int)))
        } else {
            Option::<CanonicalVersion>::None
        }),
{
    let ghost p = parse_at(s@, pos as int);
    let i = if s.get_char(pos) == 'v' {
        pos + 1
    } else {
        pos
    };
    proof {
        lemma_digit_run_end(s@, i as int);
    }
    let maj_end = scan_digit_run(s, i, n);
    let major = match parse_digits(s, i, maj_end) {
        Option::Some(v) => v,
        Option::None => {
            return Option::None;
        },
    };
    let min_start = maj_end + 1;
    proof {
        lemma_digit_run_end(s@, min_start as int);
    }
    let min_end = scan_digit_run(s, min_start, n);
    let minor = match parse_digits(s, min_start, min_end) {
        Option::Some(v) => v,
        Option::None => {
            return Option::None;
        },
    };
    let has_patch = min_end < n && min_end + 1 < n && s.get_char(min_end) == '.' && is_digit_exec(
        s.get_char(min_end + 1),
    );
    let mut after = min_end;
    let mut patch: u64 = 0;
    if has_patch {
        proof {
            lemma_digit_run_end(s@, min_end + 1 as int);
        }
        let patch_end = scan_digit_run(s, min_end + 1, n);
        patch = match parse_digits(s, min_end + 1, patch_end) {
            Option::Some(v) => v,
            Option::None => {
                return Option::None;
            },
        };
        after = patch_end;
    }
    let pre: Option<Prerelease> = if after < n && after + 1 < n && (s.get_char(after) == 'a'
        || s.get_char(after) == 'b' || s.get_char(after) == 'c') && is_digit_exec(
        s.get_char(after + 1),
    ) {
        let kind = if s.get_char(after) == 'a' {
            PreKind::A
        } else if s.get_char(after) == 'b' {
            PreKind::B
        } else {
            PreKind::C
        };
        proof {
            lemma_digit_run_end(s@, after + 1 as int);
        }
        let id_end = scan_digit_run(s, after + 1, n);
        match parse_digits(s, after + 1, id_end) {
            Option::Some(id) => Option::Some(Prerelease { kind, id }),
            Option::None => {
                return Option::None;
            },
        }
    } else if after < n && after + 1 < n && after + 2 < n && s.get_char(after) == 'r' && s.get_char(
        after + 1,
    ) == 'c' && is_digit_exec(s.get_char(after + 2)) {
        proof {
            lemma_digit_run_end(s@, after + 2 as int);
        }
        let id_end = scan_digit_run(s, after + 2, n);
        match parse_digits(s, after + 2, id_end) {
            Option::Some(id) => Option::Some(Prerelease { kind: PreKind::Rc, id }),
            Option::None => {
                return Option::None;
            },
        }
    } else {
        Option::None
    };
    Option::Some(CanonicalVersion { major, minor, patch, pre })
}

/// Normalizes a raw tag: the canonical version of its leftmost pattern match,
/// or nothing when the tag is the reserved `legacy-trunk` marker, matches the
/// pattern nowhere, or holds a numeric component beyond the machine-word
/// range.
pub fn normalize(tag: &str) -> (r: Option<CanonicalVersion>)
    ensures
        r == spec_normalize(tag@),
{
    if str_eq(tag, "legacy-trunk") {
        return Option::None;
    }
    let n = tag.unicode_len();
    let mut pos: usize = 0;
    while pos < n
        invariant
            0 <= pos <= n,
            n == tag@.len(),
            !is_legacy_marker(tag@),
            find_from(tag@, 0) == find_from(tag@, pos as int),
        decreases n - pos,
    {
        if match_at_exec(tag, pos, n) {
            return parse_match(tag, pos, n);
        }
        pos += 1;
    }
    Option::None
}

/// Normalizes a raw tag and renders the result canonically, as
/// `major.minor.patch` with an optional `-<kind>.<id>` prerelease suffix.
pub fn from_python_version(version: String) -> (r: Option<String>)
    ensures
        match spec_normalize(version@) {
            Option::None => r is None,
            Option::Some(v) => r matches Some(s) && s@ == canon_seq(v),
        },
{
    match normalize(version.as_str()) {
        Option::None => Option::None,
        Option::Some(v) => Option::Some(canonical_string(&v)),
    }
}

/// Law: the canonical rendering of a version normalizes back to the
/// version's stable core, `major.minor.patch` with no marker. (A prerelease
/// renders with a `-` separator, which the no-separator attachment rule of
/// the pattern does not read back.)
pub proof fn lemma_canon_normalizes(v: CanonicalVersion)
    ensures
        spec_normalize(canon_seq(v)) == Option::Some(
            (CanonicalVersion { major: v.major, minor: v.minor, patch: v.patch, pre: Option::None }),
        ),
{
    let c = canon_seq(v);
    let tail = pre_seq(v.pre);
    let dmaj = dec_str(v.major as nat);
    let dmin = dec_str(v.minor as nat);
    let dpat = dec_str(v.patch as nat);
    lemma_dec_str_digits(v.major as nat);
    lemma_dec_str_digits(v.minor as nat);
    lemma_dec_str_digits(v.patch as nat);
    lemma_dec_str_val(v.major as nat);
    lemma_dec_str_val(v.minor as nat);
    lemma_dec_str_val(v.patch as nat);
    let a = dmaj.len() as int;
    let b = a + 1 + dmin.len();
    let e = b + 1 + dpat.len();
    assert(c =~= dmaj + seq!['.'] + dmin + seq!['.'] + dpat + tail);
    assert(c.len() == e + tail.len());
    assert forall|k: int| 0 <= k < a implies #[trigger] c[k] == dmaj[k] by {}
    assert(c[a] == '.');
    assert forall|k: int| a + 1 <= k < b implies #[trigger] c[k] == dmin[k - (a + 1)] by {}
    assert(c[b] == '.');
    assert forall|k: int| b + 1 <= k < e implies #[trigger] c[k] == dpat[k - (b + 1)] by {}
    assert(!is_digit('.'));
    assert(forall|k: int| 0 <= k < a ==> is_digit(#[trigger] c[k]));
    assert(forall|k: int| a + 1 <= k < b ==> is_digit(#[trigger] c[k]));
    assert(forall|k: int| b + 1 <= k < e ==> is_digit(#[trigger] c[k]));
    // A prerelease part starts with the dash separator, which is no digit
    // and no marker letter.
    if v.pre is Some {
        assert(tail.len() >= 4);
        assert(tail[0] == '-');
        assert(c[e] == '-');
        assert(!is_digit('-'));
    }
    // The rendering is not the reserved marker: it starts with a digit.
    assert(!is_legacy_marker(c)) by {
        reveal_strlit("legacy-trunk");
        if is_legacy_marker(c) {
            assert(c[0] == 'l');
            assert(is_digit(c[0]));
        }
    }
    // Digit runs end exactly at the separators and at the end.
    lemma_digit_run_end_is(c, 0, a);
    lemma_digit_run_end_is(c, a + 1, b);
    lemma_digit_run_end_is(c, b + 1, e);
    // The pattern matches at position zero.
    assert(is_digit(c[0]));
    assert(c[0] != 'v');
    assert(core_matches(c, 0));
    assert(match_at(c, 0));
    assert(find_from(c, 0) == Option::Some(0int));
    // The extracted components are the rendered ones.
    let p = parse_at(c, 0);
    assert(c.subrange(0, a) =~= dmaj);
    assert(c.subrange(a + 1, b) =~= dmin);
    assert(c.subrange(b + 1, e) =~= dpat);
    assert(p.major == v.major as nat);
    assert(p.minor == v.minor as nat);
    assert(b + 1 < e && c[b] == '.' && is_digit(c[b + 1]));
    assert(p.patch == v.patch as nat);
    assert(pre_marker_at(c, e) is None);
    assert(parsed_fits(p));
    assert(parsed_version(p) == (CanonicalVersion {
        major: v.major,
        minor: v.minor,
        patch: v.patch,
        pre: Option::None,
    }));
}

/// Law: normalization is idempotent on stable results. Whenever a tag
/// normalizes to a version without a prerelease marker, normalizing that
/// version's canonical rendering returns an equal version.
pub proof fn lemma_normalize_idempotent(t: Seq<char>, v: CanonicalVersion)
    requires
        spec_normalize(t) == Option::Some(v),
        v.pre is None,
    ensures
        spec_normalize(canon_seq(v)) == Option::Some(v),
{
    lemma_canon_normalizes(v);
}

} // verus!
