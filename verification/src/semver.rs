//! Semantic versions as npm's `node-semver` understands them.
//!
//! Parsing versions and ranges, and deciding whether a version satisfies a
//! range, are done by the `node-semver` crate, and so are ordering and
//! rendering versions. The order and the rendering are short enough to be
//! stated here in full, and the laws of the order are proved over them.

use crate::text::{decimal, seq_lt};
use vstd::prelude::*;

verus! {

#[verifier::external_type_specification]
#[verifier::external_body]
pub struct ExNodeSemverVersion(node_semver::Version);

#[verifier::external_type_specification]
#[verifier::external_body]
pub struct ExNodeSemverRange(node_semver::Range);

/// A pre-release or build identifier.
#[derive(Debug, Clone)]
pub enum Identifier {
    /// An identifier that is solely digits.
    Numeric(u64),
    /// An identifier with letters and digits.
    AlphaNumeric(String),
}

/// An identifier with its text taken by its characters.
pub enum IdentView {
    Numeric(u64),
    AlphaNumeric(Seq<char>),
}

impl View for Identifier {
    type V = IdentView;

    open spec fn view(&self) -> IdentView {
        match self {
            Identifier::Numeric(n) => IdentView::Numeric(*n),
            Identifier::AlphaNumeric(s) => IdentView::AlphaNumeric(s@),
        }
    }
}

/// A semantic version: `major.minor.patch[-pre_release][+build]`.
#[derive(Debug, Clone)]
pub struct SemVersion {
    pub major: u64,
    pub minor: u64,
    pub patch: u64,
    pub build: Vec<Identifier>,
    pub pre_release: Vec<Identifier>,
}

/// A version with its identifiers taken by their views.
pub struct VersionView {
    pub major: u64,
    pub minor: u64,
    pub patch: u64,
    pub build: Seq<IdentView>,
    pub pre_release: Seq<IdentView>,
}

/// The views of a sequence of identifiers.
pub open spec fn ident_views(ids: Seq<Identifier>) -> Seq<IdentView> {
    ids.map_values(|i: Identifier| i@)
}

impl View for SemVersion {
    type V = VersionView;

    open spec fn view(&self) -> VersionView {
        VersionView {
            major: self.major,
            minor: self.minor,
            patch: self.patch,
            build: ident_views(self.build@),
            pre_release: ident_views(self.pre_release@),
        }
    }
}

/// The version that `node_semver::Version::parse` produces from a string,
/// or `None` where it returns an error.
pub uninterp spec fn semver_version_parse(s: Seq<char>) -> Option<VersionView>;

/// How `node_semver::Range::parse` handles a string: `Ok(())` where it
/// parses, or the `Display` text of its error.
pub uninterp spec fn semver_range_parse(s: Seq<char>) -> Result<(), Seq<char>>;

/// Whether `node_semver::Range::satisfies` holds for the range parsed from
/// `range` and the given version.
pub uninterp spec fn semver_range_satisfies(range: Seq<char>, v: VersionView) -> bool;

/// Converts node-semver's version into the library's, field by field.
#[verifier::external_body]
fn from_node_version(v: node_semver::Version) -> SemVersion {
    let ident = |i: node_semver::Identifier| match i {
        node_semver::Identifier::Numeric(n) => Identifier::Numeric(n),
        node_semver::Identifier::AlphaNumeric(s) => Identifier::AlphaNumeric(s),
    };
    SemVersion {
        major: v.major,
        minor: v.minor,
        patch: v.patch,
        build: v.build.into_iter().map(ident).collect(),
        pre_release: v.pre_release.into_iter().map(ident).collect(),
    }
}

/// Converts the library's version into node-semver's, field by field.
#[verifier::external_body]
fn to_node_version(v: &SemVersion) -> node_semver::Version {
    let ident = |i: &Identifier| match i {
        Identifier::Numeric(n) => node_semver::Identifier::Numeric(*n),
        Identifier::AlphaNumeric(s) => node_semver::Identifier::AlphaNumeric(s.clone()),
    };
    node_semver::Version {
        major: v.major,
        minor: v.minor,
        patch: v.patch,
        build: v.build.iter().map(ident).collect(),
        pre_release: v.pre_release.iter().map(ident).collect(),
    }
}

/// Parses a version with `node_semver::Version::parse`. The result is named
/// by `semver_version_parse`; nothing more is claimed of it.
#[verifier::external_body]
pub(crate) fn parse_version(s: &str) -> (r: Option<SemVersion>)
    ensures
        match r {
            Some(v) => semver_version_parse(s@) == Some(v@),
            None => semver_version_parse(s@) is None,
        },
{
    node_semver::Version::parse(s).ok().map(from_node_version)
}

/// A version range, kept with the text it was parsed from.
pub struct SemverRange {
    source: String,
    parsed: node_semver::Range,
}

impl SemverRange {
    /// The text the range was parsed from.
    pub closed spec fn source(&self) -> Seq<char> {
        self.source@
    }
}

/// Parses a range with `node_semver::Range::parse`. Success and the error's
/// text are named by `semver_range_parse`; the range keeps its source text,
/// and it is the only way a [`SemverRange`] is made.
#[verifier::external_body]
pub(crate) fn parse_range(s: &str) -> (r: Result<SemverRange, String>)
    ensures
        match r {
            Ok(range) => semver_range_parse(s@) == Ok::<(), Seq<char>>(()) && range.source() == s@,
            Err(e) => semver_range_parse(s@) == Err::<(), Seq<char>>(e@),
        },
{
    match node_semver::Range::parse(s) {
        Ok(parsed) => Ok(SemverRange { source: s.to_string(), parsed }),
        Err(e) => Err(e.to_string()),
    }
}

/// Whether `v` satisfies the range (`node_semver::Range::satisfies`), named
/// by `semver_range_satisfies` over the range's source text.
#[verifier::external_body]
pub(crate) fn range_satisfies(range: &SemverRange, v: &SemVersion) -> (b: bool)
    ensures
        b == semver_range_satisfies(range.source(), v@),
{
    range.parsed.satisfies(&to_node_version(v))
}

/// Three-way comparison of integers: -1, 0 or 1.
pub open spec fn compare_ints(a: int, b: int) -> int {
    if a < b {
        -1
    } else if a == b {
        0
    } else {
        1
    }
}

/// The derived order of `Identifier`: numeric identifiers come first and
/// compare by value; alphanumeric ones compare as strings.
pub open spec fn compare_ident(a: IdentView, b: IdentView) -> int {
    match (a, b) {
        (IdentView::Numeric(x), IdentView::Numeric(y)) => compare_ints(x as int, y as int),
        (IdentView::Numeric(_), IdentView::AlphaNumeric(_)) => -1,
        (IdentView::AlphaNumeric(_), IdentView::Numeric(_)) => 1,
        (IdentView::AlphaNumeric(s), IdentView::AlphaNumeric(t)) => if seq_lt(s, t) {
            -1
        } else if s == t {
            0
        } else {
            1
        },
    }
}

/// Lexicographic order of identifier lists (the order of `Vec`).
pub open spec fn compare_idents(a: Seq<IdentView>, b: Seq<IdentView>) -> int
    decreases a.len(),
{
    if a.len() == 0 {
        if b.len() == 0 {
            0
        } else {
            -1
        }
    } else if b.len() == 0 {
        1
    } else {
        let c = compare_ident(a[0], b[0]);
        if c != 0 {
            c
        } else {
            compare_idents(a.drop_first(), b.drop_first())
        }
    }
}

/// node-semver's version order: by major, minor and patch, then a version
/// without pre-release above one with it, then by pre-release identifiers.
/// Build metadata is ignored.
pub open spec fn compare_versions(a: VersionView, b: VersionView) -> int {
    if a.major != b.major {
        compare_ints(a.major as int, b.major as int)
    } else if a.minor != b.minor {
        compare_ints(a.minor as int, b.minor as int)
    } else if a.patch != b.patch {
        compare_ints(a.patch as int, b.patch as int)
    } else if a.pre_release.len() == 0 && b.pre_release.len() == 0 {
        0
    } else if a.pre_release.len() == 0 {
        1
    } else if b.pre_release.len() == 0 {
        -1
    } else {
        compare_idents(a.pre_release, b.pre_release)
    }
}

/// The order of identifiers is antisymmetric, and only equal identifiers
/// compare equal.
pub proof fn lemma_ident_antisymmetric(a: IdentView, b: IdentView)
    ensures
        compare_ident(a, b) == -compare_ident(b, a),
        compare_ident(a, b) == 0 ==> a == b,
        -1 <= compare_ident(a, b) <= 1,
{
    match (a, b) {
        (IdentView::AlphaNumeric(s), IdentView::AlphaNumeric(t)) => {
            crate::text::lemma_seq_lt_total(s, t);
            if seq_lt(s, t) {
                crate::text::lemma_seq_lt_asymmetric(s, t);
            }
            if s == t {
                crate::text::lemma_seq_lt_irreflexive(s);
            }
        },
        _ => {},
    }
}

/// The order of identifiers is transitive.
pub proof fn lemma_ident_transitive(a: IdentView, b: IdentView, c: IdentView)
    requires
        compare_ident(a, b) <= 0,
        compare_ident(b, c) <= 0,
    ensures
        compare_ident(a, c) <= 0,
{
    lemma_ident_antisymmetric(a, b);
    lemma_ident_antisymmetric(b, c);
    lemma_ident_antisymmetric(a, c);
    match (a, b, c) {
        (
            IdentView::AlphaNumeric(s),
            IdentView::AlphaNumeric(t),
            IdentView::AlphaNumeric(u),
        ) => {
            if seq_lt(s, t) && seq_lt(t, u) {
                crate::text::lemma_seq_lt_transitive(s, t, u);
            }
        },
        _ => {},
    }
}

/// The order of identifier lists is antisymmetric, and only equal lists
/// compare equal.
pub proof fn lemma_idents_antisymmetric(a: Seq<IdentView>, b: Seq<IdentView>)
    ensures
        compare_idents(a, b) == -compare_idents(b, a),
        compare_idents(a, b) == 0 ==> a == b,
        -1 <= compare_idents(a, b) <= 1,
    decreases a.len(),
{
    if a.len() > 0 && b.len() > 0 {
        lemma_ident_antisymmetric(a[0], b[0]);
        lemma_idents_antisymmetric(a.drop_first(), b.drop_first());
        if compare_idents(a, b) == 0 {
            assert(a[0] == b[0]);
            assert(a.drop_first() == b.drop_first());
            assert(a =~= seq![a[0]] + a.drop_first());
            assert(b =~= seq![b[0]] + b.drop_first());
        }
    } else if a.len() == 0 && b.len() == 0 {
        assert(a =~= b);
    }
}

/// The order of identifier lists is transitive.
pub proof fn lemma_idents_transitive(a: Seq<IdentView>, b: Seq<IdentView>, c: Seq<IdentView>)
    requires
        compare_idents(a, b) <= 0,
        compare_idents(b, c) <= 0,
    ensures
        compare_idents(a, c) <= 0,
    decreases a.len(),
{
    if a.len() > 0 && b.len() > 0 && c.len() > 0 {
        lemma_ident_antisymmetric(a[0], b[0]);
        lemma_ident_antisymmetric(b[0], c[0]);
        lemma_ident_antisymmetric(a[0], c[0]);
        if compare_ident(a[0], b[0]) == 0 && compare_ident(b[0], c[0]) == 0 {
            lemma_idents_transitive(a.drop_first(), b.drop_first(), c.drop_first());
        } else if compare_ident(a[0], b[0]) == 0 {
            assert(a[0] == b[0]);
        } else if compare_ident(b[0], c[0]) == 0 {
            assert(b[0] == c[0]);
        } else {
            lemma_ident_transitive(a[0], b[0], c[0]);
            if compare_ident(a[0], c[0]) == 0 {
                assert(a[0] == c[0]);
                lemma_ident_transitive(b[0], c[0], a[0]);
            }
        }
    }
}

/// The version order is antisymmetric.
pub proof fn lemma_version_antisymmetric(a: VersionView, b: VersionView)
    ensures
        compare_versions(a, b) == -compare_versions(b, a),
        -1 <= compare_versions(a, b) <= 1,
{
    lemma_idents_antisymmetric(a.pre_release, b.pre_release);
}

/// The version order is transitive.
pub proof fn lemma_version_transitive(a: VersionView, b: VersionView, c: VersionView)
    requires
        compare_versions(a, b) <= 0,
        compare_versions(b, c) <= 0,
    ensures
        compare_versions(a, c) <= 0,
{
    lemma_idents_antisymmetric(a.pre_release, b.pre_release);
    lemma_idents_antisymmetric(b.pre_release, c.pre_release);
    lemma_idents_antisymmetric(a.pre_release, c.pre_release);
    if a.major == b.major && b.major == c.major && a.minor == b.minor && b.minor == c.minor
        && a.patch == b.patch && b.patch == c.patch && a.pre_release.len() > 0
        && b.pre_release.len() > 0 && c.pre_release.len() > 0 {
        lemma_idents_transitive(a.pre_release, b.pre_release, c.pre_release);
    }
}

/// A strict step followed by a weak one is strict, and vice versa.
pub proof fn lemma_version_strict(a: VersionView, b: VersionView, c: VersionView)
    requires
        compare_versions(a, b) <= 0,
        compare_versions(b, c) <= 0,
        compare_versions(a, b) < 0 || compare_versions(b, c) < 0,
    ensures
        compare_versions(a, c) < 0,
{
    lemma_version_antisymmetric(a, b);
    lemma_version_antisymmetric(b, c);
    lemma_version_antisymmetric(a, c);
    if compare_versions(a, c) >= 0 {
        if compare_versions(a, b) < 0 {
            lemma_version_transitive(b, c, a);
        } else {
            lemma_version_transitive(c, a, b);
        }
    }
}

/// node-semver's version order (`Ord for node_semver::Version`), as -1, 0
/// or 1. The contract states that order in full: `compare_versions`.
#[verifier::external_body]
pub(crate) fn compare_semver(a: &SemVersion, b: &SemVersion) -> (r: i8)
    ensures
        r == compare_versions(a@, b@),
{
    match to_node_version(a).cmp(&to_node_version(b)) {
        std::cmp::Ordering::Less => -1,
        std::cmp::Ordering::Equal => 0,
        std::cmp::Ordering::Greater => 1,
    }
}

/// The text of an identifier.
pub open spec fn ident_text(i: IdentView) -> Seq<char> {
    match i {
        IdentView::Numeric(n) => decimal(n as nat),
        IdentView::AlphaNumeric(s) => s,
    }
}

/// The identifiers `ids[..n]` rendered, each preceded by `lead` (the first)
/// or `.` (the others).
pub open spec fn idents_text(ids: Seq<IdentView>, lead: char, n: nat) -> Seq<char>
    decreases n,
{
    if n == 0 {
        Seq::empty()
    } else {
        idents_text(ids, lead, (n - 1) as nat) + seq![if n == 1 { lead } else { '.' }]
            + ident_text(ids[n - 1])
    }
}

/// The text of a version, as node-semver's `Display` writes it.
pub open spec fn version_text(v: VersionView) -> Seq<char> {
    decimal(v.major as nat) + seq!['.'] + decimal(v.minor as nat) + seq!['.'] + decimal(
        v.patch as nat,
    ) + idents_text(v.pre_release, '-', v.pre_release.len()) + idents_text(
        v.build,
        '+',
        v.build.len(),
    )
}

/// Renders a version with node-semver's `Display`. The contract states that
/// rendering in full: `version_text`.
#[verifier::external_body]
pub(crate) fn version_to_string(v: &SemVersion) -> (s: String)
    ensures
        s@ == version_text(v@),
{
    to_node_version(v).to_string()
}

} // verus!
