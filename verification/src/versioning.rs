//! Semantic-version text: prefix stripping, syntax checks and precedence
//! ordering.
//!
//! A version string may carry a leading `v` prefix, which is stripped before
//! parsing. Syntax and precedence come from the `semver` crate through the
//! two trusted functions below; everything else here is verified.

use vstd::prelude::*;

verus! {

/// Whether `semver::Version::parse` accepts this text.
pub uninterp spec fn semver_ok(s: Seq<char>) -> bool;

/// Precedence order "a is less than or equal to b" of two parseable version
/// texts: major, minor, patch and pre-release compared per the semantic
/// versioning rules, build metadata disregarded.
pub uninterp spec fn semver_le(a: Seq<char>, b: Seq<char>) -> bool;

/// Relies on `semver::Version::parse`: whether a text is valid
/// major.minor.patch syntax (with optional pre-release and build metadata)
/// depends on its characters alone.
#[verifier::external_body]
fn parse_ok(s: &str) -> (r: bool)
    ensures
        r == semver_ok(s@),
{
    semver::Version::parse(s).is_ok()
}

/// Relies on `semver::Version::parse` and `semver::Version::cmp_precedence`:
/// the precedence order of two valid version texts (pre-release before
/// release, build metadata disregarded) depends on the two texts alone.
#[verifier::external_body]
fn precedence_le(a: &str, b: &str) -> (r: bool)
    requires
        semver_ok(a@),
        semver_ok(b@),
    ensures
        r == semver_le(a@, b@),
{
    let va = semver::Version::parse(a).unwrap();
    let vb = semver::Version::parse(b).unwrap();
    va.cmp_precedence(&vb) != core::cmp::Ordering::Greater
}

/// The text with every leading `v` removed, as submitted versions may carry
/// such a prefix.
pub open spec fn strip_v(s: Seq<char>) -> Seq<char>
    decreases s.len(),
{
    if s.len() > 0 && s[0] == 'v' {
        strip_v(s.drop_first())
    } else {
        s
    }
}

/// A version text is valid when, after stripping the `v` prefix, it parses
/// as a semantic version.
pub open spec fn valid_version_text(s: Seq<char>) -> bool {
    semver_ok(strip_v(s))
}

/// Precedence order of two valid version texts, prefixes stripped.
pub open spec fn version_text_le(a: Seq<char>, b: Seq<char>) -> bool {
    semver_le(strip_v(a), strip_v(b))
}

/// Strips every leading `v` from the text.
pub fn strip_v_prefix(s: &str) -> (r: &str)
    ensures
        r@ == strip_v(s@),
{
    let n = s.unicode_len();
    let mut i: usize = 0;
    proof {
        assert(s@.skip(0) =~= s@);
    }
    while i < n && s.get_char(i) == 'v'
        invariant
            i <= n,
            n == s@.len(),
            strip_v(s@) == strip_v(s@.skip(i as int)),
        decreases n - i,
    {
        proof {
            let t = s@.skip(i as int);
            assert(t.len() > 0 && t[0] == 'v');
            assert(t.drop_first() =~= s@.skip(i as int + 1));
        }
        i = i + 1;
    }
    let r = s.substring_char(i, n);
    proof {
        let t = s@.skip(i as int);
        if i < n {
            assert(t[0] != 'v');
        }
        assert(strip_v(t) == t);
        assert(r@ =~= t);
    }
    r
}

/// Whether the text, prefix stripped, is a valid semantic version.
pub fn check_version_text(s: &str) -> (r: bool)
    ensures
        r == valid_version_text(s@),
{
    parse_ok(strip_v_prefix(s))
}

/// Whether `a` is less than or equal to `b` in precedence order, prefixes
/// stripped.
pub fn version_text_le_exec(a: &str, b: &str) -> (r: bool)
    requires
        valid_version_text(a@),
        valid_version_text(b@),
    ensures
        r == version_text_le(a@, b@),
{
    precedence_le(strip_v_prefix(a), strip_v_prefix(b))
}

} // verus!
