//! Dependency resolution model.
//!
//! npm lets several versions of one package coexist, so the resolved graph is
//! keyed per version (`name@version`). Each `(name, range)` requirement goes
//! to the highest published version that satisfies it.

use crate::error::VaultError;
use crate::registry::{same_meta, Packument, VersionMeta};
use crate::semver::{
    compare_semver, compare_versions, lemma_version_antisymmetric, lemma_version_strict,
    lemma_version_transitive, parse_range, parse_version, range_satisfies, semver_range_parse,
    semver_range_satisfies, semver_version_parse, version_text, version_to_string, SemVersion,
    VersionView,
};
use crate::strmap::StrMap;
use crate::text::{
    insert_sorted, strictly_sorted, string_views,
    chars_of, first_index_of, has_prefix, push_char, slice_chars, str_contains_char,
    str_eq, str_starts_with, string_of,
};
use vstd::prelude::*;

verus! {

/// The `name@version` identifier of a package version.
pub open spec fn package_id(name: Seq<char>, version: Seq<char>) -> Seq<char> {
    name + seq!['@'] + version
}

/// A package pinned to one concrete version, with its own dependencies
/// resolved to concrete versions.
pub struct ResolvedPackage {
    pub name: String,
    pub version: String,
    pub meta: VersionMeta,
    /// `aliasName -> resolved package id` (`name@version`).
    pub deps: StrMap<String>,
}

impl ResolvedPackage {
    /// `name@version` identifier: the store, lockfile and virtual-store key.
    pub fn id(&self) -> (r: String)
        ensures
            r@ == package_id(self.name@, self.version@),
    {
        let mut r = self.name.clone();
        push_char(&mut r, '@');
        r.append(self.version.as_str());
        r
    }
}

/// A non-fatal note surfaced during resolution.
#[derive(Debug, Clone)]
pub struct ResolutionWarning {
    pub name: String,
    pub message: String,
}

/// The resolved dependency graph.
pub struct Resolution {
    /// Every resolved package keyed by `name@version`.
    pub packages: StrMap<ResolvedPackage>,
    /// Direct dependencies: `aliasName -> resolved package id`.
    pub roots: StrMap<String>,
    pub warnings: Vec<ResolutionWarning>,
}

/// The real package name and range of a dependency entry `alias: spec`,
/// unwrapping npm aliases `npm:<name>@<range>` (a missing range means `*`).
pub open spec fn dep_spec_parts(alias: Seq<char>, spec: Seq<char>) -> (Seq<char>, Seq<char>) {
    if has_prefix(spec, "npm:"@) {
        let rest = spec.subrange("npm:"@.len() as int, spec.len() as int);
        if rest.len() > 0 && rest[0] == '@' {
            let stripped = rest.drop_first();
            match first_index_of(stripped, '@') {
                Some(at) => (
                    seq!['@'] + stripped.subrange(0, at),
                    stripped.subrange(at + 1, stripped.len() as int),
                ),
                None => (rest, "*"@),
            }
        } else {
            match first_index_of(rest, '@') {
                Some(at) => (rest.subrange(0, at), rest.subrange(at + 1, rest.len() as int)),
                None => (rest, "*"@),
            }
        }
    } else {
        (alias, spec)
    }
}

/// The name and range of an npm alias target `name@range` (unscoped), with
/// `*` when no range is given.
pub open spec fn alias_target(rest: Seq<char>) -> (Seq<char>, Seq<char>) {
    match first_index_of(rest, '@') {
        Some(at) => (rest.subrange(0, at), rest.subrange(at + 1, rest.len() as int)),
        None => (rest, "*"@),
    }
}

fn split_alias_target(rest: &Vec<char>) -> (r: (String, String))
    ensures
        (r.0@, r.1@) == alias_target(rest@),
{
    match crate::text::find_char(rest, '@') {
        Some(at) => {
            let name = slice_chars(rest, 0, at);
            let range = slice_chars(rest, at + 1, rest.len());
            (string_of(&name), string_of(&range))
        },
        None => (string_of(rest), "*".to_owned()),
    }
}

fn prepend_char(c: char, v: &Vec<char>) -> (r: Vec<char>)
    ensures
        r@ == seq![c] + v@,
{
    let mut r: Vec<char> = Vec::new();
    r.push(c);
    let mut k: usize = 0;
    while k < v.len()
        invariant
            k <= v.len(),
            r@ == seq![c] + v@.take(k as int),
        decreases v.len() - k,
    {
        r.push(v[k]);
        k += 1;
        assert(r@ =~= seq![c] + v@.take(k as int));
    }
    assert(v@.take(v.len() as int) =~= v@);
    r
}

fn split_scoped_target(rest: &Vec<char>) -> (r: (String, String))
    requires
        rest@.len() > 0,
        rest@[0] == '@',
    ensures
        (r.0@, r.1@) == (match first_index_of(rest@.drop_first(), '@') {
            Some(at) => (
                seq!['@'] + rest@.drop_first().subrange(0, at),
                rest@.drop_first().subrange(at + 1, rest@.drop_first().len() as int),
            ),
            None => (rest@, "*"@),
        }),
{
    let stripped = slice_chars(rest, 1, rest.len());
    assert(stripped@ =~= rest@.drop_first());
    match crate::text::find_char(&stripped, '@') {
        Some(at) => {
            let head = slice_chars(&stripped, 0, at);
            let name = prepend_char('@', &head);
            let range = slice_chars(&stripped, at + 1, stripped.len());
            (string_of(&name), string_of(&range))
        },
        None => (string_of(rest), "*".to_owned()),
    }
}

/// Resolve a dependency spec into `(real_package_name, version_range)`,
/// unwrapping npm aliases (e.g. `"string-width-cjs": "npm:string-width@^4.2.0"`).
pub fn parse_dep_spec(alias: &str, spec: &str) -> (r: (String, String))
    ensures
        (r.0@, r.1@) == dep_spec_parts(alias@, spec@),
{
    let npm = "npm:";
    if str_starts_with(spec, npm) {
        let sv = chars_of(spec);
        let pv = chars_of(npm);
        let rest = slice_chars(&sv, pv.len(), sv.len());
        if rest.len() > 0 && rest[0] == '@' {
            split_scoped_target(&rest)
        } else {
            split_alias_target(&rest)
        }
    } else {
        (alias.to_owned(), spec.to_owned())
    }
}

/// Whether a range asks for any version (`""`, `*` or `latest`).
pub open spec fn wants_any(range: Seq<char>) -> bool {
    range.len() == 0 || range == "*"@ || range == "latest"@
}

/// Whether `c` occurs in `s`.
pub open spec fn has_char(s: Seq<char>, c: char) -> bool {
    exists|i: int| 0 <= i < s.len() && s[i] == c
}

/// Whether the published version `key` can be picked for `range`: it parses,
/// it is not a pre-release unless the range mentions one (contains `-`), and
/// it satisfies the range.
pub open spec fn eligible(range: Seq<char>, key: Seq<char>) -> bool {
    match semver_version_parse(key) {
        Some(v) => (v.pre_release.len() == 0 || has_char(range, '-')) && semver_range_satisfies(
            range,
            v,
        ),
        None => false,
    }
}

/// The parsed version of an eligible key.
pub open spec fn parsed_version(key: Seq<char>) -> VersionView {
    semver_version_parse(key).unwrap()
}

/// Whether pair `i` of `versions` is the one picked for `range`: eligible,
/// no lower than any eligible version, and the first such in map order.
pub open spec fn is_pick(versions: Seq<(Seq<char>, VersionMeta)>, range: Seq<char>, i: int) -> bool {
    &&& 0 <= i < versions.len()
    &&& eligible(range, versions[i].0)
    &&& forall|j: int|
        0 <= j < versions.len() && eligible(range, #[trigger] versions[j].0) ==> compare_versions(
            parsed_version(versions[j].0),
            parsed_version(versions[i].0),
        ) <= 0
    &&& forall|j: int|
        0 <= j < i && eligible(range, #[trigger] versions[j].0) ==> compare_versions(
            parsed_version(versions[j].0),
            parsed_version(versions[i].0),
        ) < 0
}

/// Whether `r` is a resolution error for `name` with the given reason.
pub open spec fn is_resolution_error(r: VaultError, name: Seq<char>, reason: Seq<char>) -> bool {
    r matches VaultError::Resolution { name: n, reason: rs } && n@ == name && rs@ == reason
}

/// Whether `r` is the version chosen for `range` among the packument's
/// versions: a dist-tag of that name; the `latest` tag for `""`, `*` or
/// `latest`; else, when the range parses, the highest published version
/// that satisfies it (an error when there is none); else an error that
/// quotes the parser.
pub open spec fn pick_outcome(
    name: Seq<char>,
    range: Seq<char>,
    packument: Packument,
    r: Result<String, VaultError>,
) -> bool {
    if packument.dist_tags@.contains_key(range) {
        r matches Ok(s) && s@ == packument.dist_tags@[range]@
    } else if wants_any(range) && packument.dist_tags@.contains_key("latest"@) {
        r matches Ok(s) && s@ == packument.dist_tags@["latest"@]@
    } else {
        match semver_range_parse(range) {
            Err(e) => r matches Err(err) && is_resolution_error(
                err,
                name,
                "invalid version range `"@ + range + "`: "@ + e,
            ),
            Ok(_) => if exists|i: int| is_pick(packument.versions.pairs(), range, i) {
                r matches Ok(s) && exists|i: int|
                    is_pick(packument.versions.pairs(), range, i) && s@ == version_text(
                        parsed_version(#[trigger] packument.versions.pairs()[i].0),
                    )
            } else {
                r matches Err(err) && is_resolution_error(
                    err,
                    name,
                    "no published version satisfies `"@ + range + "`"@,
                )
            },
        }
    }
}

/// Choose the version to install for `range_str`: a dist-tag of that name,
/// the `latest` tag for `""`/`*`/`latest`, or else the highest published
/// version that satisfies the range.
pub fn pick_version(name: &str, range_str: &str, packument: &Packument) -> (r: Result<String, VaultError>)
    ensures
        pick_outcome(name@, range_str@, *packument, r),
{
    if let Some(tagged) = packument.dist_tags.get(range_str) {
        return Ok(tagged.clone());
    }
    let want_any = range_str.is_empty() || str_eq(range_str, "*") || str_eq(range_str, "latest");
    if want_any {
        if let Some(latest) = packument.dist_tags.get("latest") {
            return Ok(latest.clone());
        }
    }
    let range = match parse_range(range_str) {
        Ok(range) => range,
        Err(e) => {
            let mut reason = "invalid version range `".to_owned();
            reason.append(range_str);
            reason.append("`: ");
            reason.append(e.as_str());
            return Err(VaultError::Resolution { name: name.to_owned(), reason });
        },
    };
    let mentions_pre = str_contains_char(range_str, '-');
    let ghost pairs = packument.versions.pairs();
    let n = packument.versions.len();
    let mut best: Option<SemVersion> = None;
    let ghost mut best_i: int = 0;
    for i in 0..n
        invariant
            n == pairs.len(),
            pairs == packument.versions.pairs(),
            range.source() == range_str@,
            mentions_pre == has_char(range_str@, '-'),
            match best {
                None => forall|j: int| 0 <= j < i ==> !eligible(range_str@, #[trigger] pairs[j].0),
                Some(b) => {
                    &&& 0 <= best_i < i
                    &&& eligible(range_str@, pairs[best_i].0)
                    &&& b@ == parsed_version(pairs[best_i].0)
                    &&& forall|j: int|
                        0 <= j < i && eligible(range_str@, #[trigger] pairs[j].0)
                            ==> compare_versions(parsed_version(pairs[j].0), b@) <= 0
                    &&& forall|j: int|
                        0 <= j < best_i && eligible(range_str@, #[trigger] pairs[j].0)
                            ==> compare_versions(parsed_version(pairs[j].0), b@) < 0
                },
            },
    {
        let key = packument.versions.key_at(i);
        match parse_version(key.as_str()) {
            None => {},
            Some(parsed) => {
                if !(parsed.pre_release.len() > 0 && !mentions_pre) && range_satisfies(
                    &range,
                    &parsed,
                ) {
                    assert(eligible(range_str@, pairs[i as int].0));
                    let keep = match &best {
                        Some(cur) => compare_semver(cur, &parsed) >= 0,
                        None => false,
                    };
                    proof {
                        if best is Some {
                            lemma_version_antisymmetric(best->0@, parsed@);
                        }
                    }
                    if !keep {
                        proof {
                            match best {
                                Some(b) => {
                                    lemma_version_antisymmetric(b@, parsed@);
                                    assert forall|j: int|
                                        0 <= j < i + 1 && eligible(
                                            range_str@,
                                            #[trigger] pairs[j].0,
                                        ) implies compare_versions(
                                        parsed_version(pairs[j].0),
                                        parsed@,
                                    ) <= 0 by {
                                        if j < i {
                                            lemma_version_transitive(
                                                parsed_version(pairs[j].0),
                                                b@,
                                                parsed@,
                                            );
                                        } else {
                                            lemma_version_antisymmetric(parsed@, parsed@);
                                        }
                                    }
                                    assert forall|j: int|
                                        0 <= j < i && eligible(
                                            range_str@,
                                            #[trigger] pairs[j].0,
                                        ) implies compare_versions(
                                        parsed_version(pairs[j].0),
                                        parsed@,
                                    ) < 0 by {
                                        lemma_version_strict(
                                            parsed_version(pairs[j].0),
                                            b@,
                                            parsed@,
                                        );
                                    }
                                },
                                None => {
                                    lemma_version_antisymmetric(parsed@, parsed@);
                                },
                            }
                            best_i = i as int;
                        }
                        best = Some(parsed);
                    }
                }
            },
        }
    }
    match best {
        Some(v) => {
            assert(is_pick(pairs, range_str@, best_i));
            Ok(version_to_string(&v))
        },
        None => {
            assert(!exists|i: int| is_pick(pairs, range_str@, i));
            let mut reason = "no published version satisfies `".to_owned();
            reason.append(range_str);
            reason.append("`");
            Err(VaultError::Resolution { name: name.to_owned(), reason })
        },
    }
}

/// Whether some resolved package named `peer` has a parseable version.
pub open spec fn peer_present(pkgs: Seq<(Seq<char>, ResolvedPackage)>, peer: Seq<char>) -> bool {
    exists|k: int|
        0 <= k < pkgs.len() && #[trigger] pkgs[k].1.name@ == peer && semver_version_parse(
            pkgs[k].1.version@,
        ) is Some
}

/// Whether some resolved package named `peer` has a version satisfying
/// `range`.
pub open spec fn peer_met(pkgs: Seq<(Seq<char>, ResolvedPackage)>, peer: Seq<char>, range: Seq<char>) -> bool {
    exists|k: int|
        0 <= k < pkgs.len() && #[trigger] pkgs[k].1.name@ == peer && match semver_version_parse(
            pkgs[k].1.version@,
        ) {
            Some(v) => semver_range_satisfies(range, v),
            None => false,
        }
}

/// The text of an unmet-peer warning.
pub open spec fn peer_warning(
    name: Seq<char>,
    version: Seq<char>,
    peer: Seq<char>,
    range: Seq<char>,
    present: bool,
) -> Seq<char> {
    "unmet peer dependency: "@ + name + seq!['@'] + version + " wants "@ + peer + seq!['@'] + range
        + if present {
        ", but a different version is installed"@
    } else {
        " (not installed)"@
    }
}

/// The warning, if any, for peer dependency `j` of package `i`: its range
/// parses and no resolved package of that name satisfies it.
pub open spec fn peer_warning_at(pkgs: Seq<(Seq<char>, ResolvedPackage)>, i: int, j: int) -> Option<Seq<char>> {
    let pkg = pkgs[i].1;
    let peer = pkg.meta.peer_dependencies.pairs()[j].0;
    let range = pkg.meta.peer_dependencies.pairs()[j].1@;
    if semver_range_parse(range) is Ok && !peer_met(pkgs, peer, range) {
        Some(peer_warning(pkg.name@, pkg.version@, peer, range, peer_present(pkgs, peer)))
    } else {
        None
    }
}

/// Whether `w` is the warning of some peer dependency of some package.
pub open spec fn is_peer_warning(pkgs: Seq<(Seq<char>, ResolvedPackage)>, w: Seq<char>) -> bool {
    exists|i: int, j: int|
        0 <= i < pkgs.len() && 0 <= j < pkgs[i].1.meta.peer_dependencies.pairs().len()
            && #[trigger] peer_warning_at(pkgs, i, j) == Some(w)
}

/// Whether some resolved package is named `peer` with a parseable version,
/// and whether some such version satisfies the range.
fn peer_status(packages: &StrMap<ResolvedPackage>, peer: &String, req: &crate::semver::SemverRange) -> (r: (bool, bool))
    ensures
        r.0 == peer_present(packages.pairs(), peer@),
        r.1 == peer_met(packages.pairs(), peer@, req.source()),
{
    let ghost pkgs = packages.pairs();
    let n = packages.len();
    let mut present = false;
    let mut met = false;
    for k in 0..n
        invariant
            n == pkgs.len(),
            pkgs == packages.pairs(),
            present == exists|q: int|
                0 <= q < k && #[trigger] pkgs[q].1.name@ == peer@ && semver_version_parse(
                    pkgs[q].1.version@,
                ) is Some,
            met == exists|q: int|
                0 <= q < k && #[trigger] pkgs[q].1.name@ == peer@ && match semver_version_parse(
                    pkgs[q].1.version@,
                ) {
                    Some(v) => semver_range_satisfies(req.source(), v),
                    None => false,
                },
    {
        let pkg = packages.value_at(k);
        if pkg.name == *peer {
            match parse_version(pkg.version.as_str()) {
                Some(v) => {
                    present = true;
                    if range_satisfies(req, &v) {
                        met = true;
                    }
                },
                None => {},
            }
        }
    }
    (present, met)
}

/// Warn about unmet peer dependencies. A peer is met when some resolved
/// package of that name satisfies the declared range; peers whose range does
/// not parse are skipped. The warnings come sorted, without duplicates.
pub fn check_peers(resolution: &Resolution) -> (warnings: Vec<String>)
    ensures
        strictly_sorted(string_views(warnings@)),
        forall|w: Seq<char>|
            string_views(warnings@).contains(w) <==> is_peer_warning(
                resolution.packages.pairs(),
                w,
            ),
{
    let ghost pkgs = resolution.packages.pairs();
    let mut warnings: Vec<String> = Vec::new();
    let n = resolution.packages.len();
    for i in 0..n
        invariant
            n == pkgs.len(),
            pkgs == resolution.packages.pairs(),
            strictly_sorted(string_views(warnings@)),
            forall|w: Seq<char>|
                string_views(warnings@).contains(w) <==> exists|a: int, b: int|
                    0 <= a < i && 0 <= b < pkgs[a].1.meta.peer_dependencies.pairs().len()
                        && #[trigger] peer_warning_at(pkgs, a, b) == Some(w),
    {
        let pkg = resolution.packages.value_at(i);
        let m = pkg.meta.peer_dependencies.len();
        for j in 0..m
            invariant
                n == pkgs.len(),
                i < n,
                pkgs == resolution.packages.pairs(),
                *pkg == pkgs[i as int].1,
                m == pkg.meta.peer_dependencies.pairs().len(),
                strictly_sorted(string_views(warnings@)),
                forall|w: Seq<char>|
                    string_views(warnings@).contains(w) <==> (exists|a: int, b: int|
                        0 <= a < i && 0 <= b < pkgs[a].1.meta.peer_dependencies.pairs().len()
                            && #[trigger] peer_warning_at(pkgs, a, b) == Some(w)) || (exists|
                        b: int,
                    |
                        0 <= b < j && #[trigger] peer_warning_at(pkgs, i as int, b) == Some(w)),
        {
            let peer = pkg.meta.peer_dependencies.key_at(j);
            let range_s = pkg.meta.peer_dependencies.value_at(j);
            let ghost before = string_views(warnings@);
            let ghost found = peer_warning_at(pkgs, i as int, j as int);
            match parse_range(range_s.as_str()) {
                Err(_) => {
                    assert(found is None);
                },
                Ok(req) => {
                    let (present, met) = peer_status(&resolution.packages, peer, &req);
                    if !met {
                        let mut msg = "unmet peer dependency: ".to_owned();
                        msg.append(pkg.name.as_str());
                        push_char(&mut msg, '@');
                        msg.append(pkg.version.as_str());
                        msg.append(" wants ");
                        msg.append(peer.as_str());
                        push_char(&mut msg, '@');
                        msg.append(range_s.as_str());
                        if present {
                            msg.append(", but a different version is installed");
                        } else {
                            msg.append(" (not installed)");
                        }
                        assert(found == Some(msg@));
                        insert_sorted(&mut warnings, msg);
                    } else {
                        assert(found is None);
                    }
                },
            }
            proof {
                let after = string_views(warnings@);
                assert forall|w: Seq<char>|
                    after.contains(w) <==> (exists|a: int, b: int|
                        0 <= a < i && 0 <= b < pkgs[a].1.meta.peer_dependencies.pairs().len()
                            && #[trigger] peer_warning_at(pkgs, a, b) == Some(w)) || (exists|
                        b: int,
                    |
                        0 <= b < j + 1 && #[trigger] peer_warning_at(pkgs, i as int, b) == Some(
                            w,
                        )) by {
                    assert(after.contains(w) <==> after.to_set().contains(w));
                    assert(before.contains(w) <==> before.to_set().contains(w));
                    if exists|b: int|
                        0 <= b < j + 1 && #[trigger] peer_warning_at(pkgs, i as int, b) == Some(w) {
                        let b = choose|b: int|
                            0 <= b < j + 1 && #[trigger] peer_warning_at(pkgs, i as int, b) == Some(
                                w,
                            );
                        if b < j {
                            assert(before.contains(w));
                        }
                    }
                    if after.contains(w) && !before.contains(w) {
                        assert(found == Some(w));
                    }
                }
            }
        }
        proof {
            assert forall|w: Seq<char>|
                string_views(warnings@).contains(w) <==> exists|a: int, b: int|
                    0 <= a < i + 1 && 0 <= b < pkgs[a].1.meta.peer_dependencies.pairs().len()
                        && #[trigger] peer_warning_at(pkgs, a, b) == Some(w) by {
                if exists|a: int, b: int|
                    0 <= a < i + 1 && 0 <= b < pkgs[a].1.meta.peer_dependencies.pairs().len()
                        && #[trigger] peer_warning_at(pkgs, a, b) == Some(w) {
                    let (a, b) = choose|a: int, b: int|
                        0 <= a < i + 1 && 0 <= b < pkgs[a].1.meta.peer_dependencies.pairs().len()
                            && #[trigger] peer_warning_at(pkgs, a, b) == Some(w);
                    if a == i {
                        assert(0 <= b < m);
                    }
                }
            }
        }
    }
    warnings
}

impl Default for Resolution {
    fn default() -> (r: Self)
        ensures
            r.packages@ == Map::<Seq<char>, ResolvedPackage>::empty(),
            r.roots@ == Map::<Seq<char>, String>::empty(),
            r.warnings@.len() == 0,
    {
        Resolution { packages: StrMap::new(), roots: StrMap::new(), warnings: Vec::new() }
    }
}

/// One dependency requirement to resolve: which package wants it (`None`
/// for a direct dependency), under what import alias, the real package and
/// range, and whether it is optional.
pub struct DepReq {
    pub parent: Option<String>,
    pub alias: String,
    pub real_name: String,
    pub real_range: String,
    pub optional: bool,
}

/// A requirement with its texts taken by their characters.
pub struct ReqView {
    pub parent: Option<Seq<char>>,
    pub alias: Seq<char>,
    pub real_name: Seq<char>,
    pub real_range: Seq<char>,
    pub optional: bool,
}

impl View for DepReq {
    type V = ReqView;

    open spec fn view(&self) -> ReqView {
        ReqView {
            parent: match self.parent {
                Some(p) => Some(p@),
                None => None,
            },
            alias: self.alias@,
            real_name: self.real_name@,
            real_range: self.real_range@,
            optional: self.optional,
        }
    }
}

/// The requirements of the entries of a dependency section, in order.
pub open spec fn entry_reqs(
    parent: Option<Seq<char>>,
    entries: Seq<(Seq<char>, String)>,
    optional: bool,
) -> Seq<ReqView> {
    entries.map_values(
        |e: (Seq<char>, String)|
            ReqView {
                parent,
                alias: e.0,
                real_name: dep_spec_parts(e.0, e.1@).0,
                real_range: dep_spec_parts(e.0, e.1@).1,
                optional,
            },
    )
}

/// The views of a sequence of requirements.
pub open spec fn req_views(reqs: Seq<DepReq>) -> Seq<ReqView> {
    reqs.map_values(|r: DepReq| r@)
}

/// The requirements of one level of the graph: for each package of the
/// frontier in turn, its dependencies and then its optional dependencies.
pub open spec fn level_reqs(pkgs: Map<Seq<char>, ResolvedPackage>, frontier: Seq<Seq<char>>) -> Seq<
    ReqView,
>
    decreases frontier.len(),
{
    if frontier.len() == 0 {
        Seq::empty()
    } else {
        let id = frontier.last();
        level_reqs(pkgs, frontier.drop_last()) + entry_reqs(
            Some(id),
            pkgs[id].meta.dependencies.pairs(),
            false,
        ) + entry_reqs(Some(id), pkgs[id].meta.optional_dependencies.pairs(), true)
    }
}

fn push_entry_reqs(
    out: &mut Vec<DepReq>,
    parent: Option<&String>,
    entries: &StrMap<String>,
    optional: bool,
)
    ensures
        req_views(final(out)@) == req_views(old(out)@) + entry_reqs(
            match parent {
                Some(p) => Some(p@),
                None => None,
            },
            entries.pairs(),
            optional,
        ),
{
    let ghost pv = match parent {
        Some(p) => Some(p@),
        None => None::<Seq<char>>,
    };
    let ghost start = req_views(out@);
    let n = entries.len();
    let mut i: usize = 0;
    while i < n
        invariant
            i <= n == entries.pairs().len(),
            pv == match parent {
                Some(p) => Some(p@),
                None => None::<Seq<char>>,
            },
            req_views(out@) == start + entry_reqs(pv, entries.pairs().take(i as int), optional),
        decreases n - i,
    {
        let alias = entries.key_at(i);
        let spec = entries.value_at(i);
        let (real_name, real_range) = parse_dep_spec(alias.as_str(), spec.as_str());
        let parent_copy = match parent {
            Some(p) => Some(p.clone()),
            None => None,
        };
        let ghost before = out@;
        let req = DepReq { parent: parent_copy, alias: alias.clone(), real_name, real_range, optional };
        let ghost e = entries.pairs()[i as int];
        let ghost rv = ReqView {
            parent: pv,
            alias: e.0,
            real_name: dep_spec_parts(e.0, e.1@).0,
            real_range: dep_spec_parts(e.0, e.1@).1,
            optional,
        };
        assert(req@ == rv);
        out.push(req);
        assert(req_views(out@) =~= req_views(before).push(rv));
        assert(entries.pairs().take(i + 1) =~= entries.pairs().take(i as int).push(e));
        assert(entry_reqs(pv, entries.pairs().take(i + 1), optional) =~= entry_reqs(
            pv,
            entries.pairs().take(i as int),
            optional,
        ).push(rv));
        assert(req_views(out@) =~= start + entry_reqs(pv, entries.pairs().take(i + 1), optional));
        i += 1;
    }
    assert(entries.pairs().take(n as int) =~= entries.pairs());
}

/// The requirements of the direct dependencies, in order.
pub fn root_requests(roots: &StrMap<String>) -> (reqs: Vec<DepReq>)
    ensures
        req_views(reqs@) == entry_reqs(None, roots.pairs(), false),
{
    let mut reqs: Vec<DepReq> = Vec::new();
    push_entry_reqs(&mut reqs, None, roots, false);
    assert(req_views(reqs@) =~= entry_reqs(None, roots.pairs(), false));
    reqs
}

/// The requirements declared by the packages of the frontier, which must
/// all be resolved already.
pub fn level_requests(res: &Resolution, frontier: &Vec<String>) -> (reqs: Vec<DepReq>)
    requires
        forall|i: int| 0 <= i < frontier@.len() ==> res.packages@.contains_key(#[trigger] frontier@[i]@),
    ensures
        req_views(reqs@) == level_reqs(res.packages@, string_views(frontier@)),
{
    let mut reqs: Vec<DepReq> = Vec::new();
    let mut i: usize = 0;
    while i < frontier.len()
        invariant
            i <= frontier@.len(),
            forall|i: int| 0 <= i < frontier@.len() ==> res.packages@.contains_key(#[trigger] frontier@[i]@),
            req_views(reqs@) == level_reqs(res.packages@, string_views(frontier@).take(i as int)),
        decreases frontier@.len() - i,
    {
        let id = &frontier[i];
        let pkg = match res.packages.get(id.as_str()) {
            Some(p) => p,
            None => {
                assert(res.packages@.contains_key(frontier@[i as int]@));
                return reqs;
            },
        };
        push_entry_reqs(&mut reqs, Some(id), &pkg.meta.dependencies, false);
        push_entry_reqs(&mut reqs, Some(id), &pkg.meta.optional_dependencies, true);
        proof {
            let f = string_views(frontier@).take(i + 1);
            assert(f.drop_last() =~= string_views(frontier@).take(i as int));
            assert(f.last() == id@);
        }
        i += 1;
    }
    assert(string_views(frontier@).take(frontier@.len() as int) =~= string_views(frontier@));
    reqs
}

/// Whether `p` is the fresh graph node of `name@version` with metadata
/// `meta`: no resolved dependencies yet.
pub open spec fn is_node(p: ResolvedPackage, name: Seq<char>, version: Seq<char>, meta: VersionMeta) -> bool {
    &&& p.name@ == name
    &&& p.version@ == version
    &&& same_meta(p.meta, meta)
    &&& p.deps@ == Map::<Seq<char>, String>::empty()
}

/// The reason given when a picked version has no metadata.
pub open spec fn missing_reason(version: Seq<char>) -> Seq<char> {
    "version "@ + version + " missing from packument"@
}

fn id_string(name: &str, version: &str) -> (r: String)
    ensures
        r@ == package_id(name@, version@),
{
    let mut r = name.to_owned();
    push_char(&mut r, '@');
    r.append(version);
    r
}

/// Insert `name@version` as a graph node with the packument's metadata of
/// that version (its dependencies are filled in later).
pub fn insert_node(res: &mut Resolution, name: &str, version: &str, packument: &Packument) -> (r:
    Result<(), VaultError>)
    ensures
        final(res).roots == old(res).roots,
        final(res).warnings == old(res).warnings,
        ({
            let id = package_id(name@, version@);
            if packument.versions@.contains_key(version@) {
                &&& r is Ok
                &&& final(res).packages@.contains_key(id)
                &&& final(res).packages@.remove(id) == old(res).packages@.remove(id)
                &&& is_node(final(res).packages@[id], name@, version@, packument.versions@[version@])
            } else {
                &&& r matches Err(e) && is_resolution_error(e, name@, missing_reason(version@))
                &&& final(res).packages == old(res).packages
            }
        }),
{
    let meta = match packument.versions.get(version) {
        Some(m) => m.duplicate(),
        None => {
            let mut reason = "version ".to_owned();
            reason.append(version);
            reason.append(" missing from packument");
            return Err(VaultError::Resolution { name: name.to_owned(), reason });
        },
    };
    let node = ResolvedPackage {
        name: name.to_owned(),
        version: version.to_owned(),
        meta,
        deps: StrMap::new(),
    };
    res.packages.insert(id_string(name, version), node);
    Ok(())
}

/// The state of a resolution after a direct dependency `req` was resolved
/// to `version` with packument `p`: the root recorded, and the package
/// added when it is new (with its id on the frontier).
pub open spec fn root_step(
    before: Resolution,
    after: Resolution,
    frontier_before: Seq<Seq<char>>,
    frontier_after: Seq<Seq<char>>,
    req: ReqView,
    version: Seq<char>,
    p: Packument,
    r: Result<(), VaultError>,
) -> bool {
    let id = package_id(req.real_name, version);
    &&& after.roots@.remove(req.alias) == before.roots@.remove(req.alias)
    &&& after.roots@.contains_key(req.alias) && after.roots@[req.alias]@ == id
    &&& after.warnings == before.warnings
    &&& if before.packages@.contains_key(id) {
        &&& r is Ok
        &&& after.packages@ == before.packages@
        &&& frontier_after == frontier_before
    } else if p.versions@.contains_key(version) {
        &&& r is Ok
        &&& after.packages@.contains_key(id)
        &&& after.packages@.remove(id) == before.packages@
        &&& is_node(after.packages@[id], req.real_name, version, p.versions@[version])
        &&& frontier_after == frontier_before.push(id)
    } else {
        &&& r matches Err(e) && is_resolution_error(e, req.real_name, missing_reason(version))
        &&& after.packages@ == before.packages@
        &&& frontier_after == frontier_before
    }
}

/// Apply the outcome of fetching the packument of a direct dependency:
/// pick its version, record the root, and add the package when it is new.
/// A failed fetch or pick is the error of the whole resolution.
pub fn apply_root(
    res: &mut Resolution,
    frontier: &mut Vec<String>,
    req: &DepReq,
    fetched: Result<Packument, VaultError>,
) -> (r: Result<(), VaultError>)
    ensures
        match fetched {
            Err(e) => r == Err::<(), VaultError>(e) && *final(res) == *old(res) && final(frontier)@
                == old(frontier)@,
            Ok(p) => exists|v: Result<String, VaultError>|
                #[trigger] pick_outcome(req.real_name@, req.real_range@, p, v) && match v {
                    Err(e) => r == Err::<(), VaultError>(e) && *final(res) == *old(res)
                        && final(frontier)@ == old(frontier)@,
                    Ok(version) => root_step(
                        *old(res),
                        *final(res),
                        string_views(old(frontier)@),
                        string_views(final(frontier)@),
                        req@,
                        version@,
                        p,
                        r,
                    ),
                },
        },
{
    let packument = match fetched {
        Err(e) => return Err(e),
        Ok(p) => p,
    };
    let picked = pick_version(req.real_name.as_str(), req.real_range.as_str(), &packument);
    let ghost picked_g = picked;
    assert(pick_outcome(req.real_name@, req.real_range@, packument, picked_g));
    match picked {
        Err(e) => Err(e),
        Ok(version) => root_with_version(res, frontier, req, version, &packument),
    }
}

fn root_with_version(
    res: &mut Resolution,
    frontier: &mut Vec<String>,
    req: &DepReq,
    version: String,
    packument: &Packument,
) -> (r: Result<(), VaultError>)
    ensures
        root_step(
            *old(res),
            *final(res),
            string_views(old(frontier)@),
            string_views(final(frontier)@),
            req@,
            version@,
            *packument,
            r,
        ),
{
    let id = id_string(req.real_name.as_str(), version.as_str());
    res.roots.insert(req.alias.clone(), id.clone());
    let ghost mid = res.packages@;
    if !res.packages.contains_key(id.as_str()) {
        let inserted = insert_node(res, req.real_name.as_str(), version.as_str(), packument);
        match inserted {
            Ok(()) => {
                frontier.push(id);
                proof {
                    assert(string_views(frontier@) =~= string_views(old(frontier)@).push(id@));
                    assert(mid.remove(id@) =~= mid);
                }
            },
            Err(e) => {
                proof {
                    assert(res.roots@.remove(req.alias@) =~= old(res).roots@.remove(req.alias@));
                }
                return Err(e);
            },
        }
    }
    proof {
        assert(res.roots@.remove(req.alias@) =~= old(res).roots@.remove(req.alias@));
    }
    Ok(())
}

/// Whether `after` is `before` with the dependency edge `alias -> id` added.
pub open spec fn edge_added(before: ResolvedPackage, after: ResolvedPackage, alias: Seq<char>, id: Seq<char>) -> bool {
    &&& after.name == before.name
    &&& after.version == before.version
    &&& after.meta == before.meta
    &&& after.deps@.remove(alias) == before.deps@.remove(alias)
    &&& after.deps@.contains_key(alias) && after.deps@[alias]@ == id
}

/// Whether `after` is `before` with the edge `alias -> id` added to the
/// package `pid` and nothing else changed.
pub open spec fn graph_with_edge(
    before: Map<Seq<char>, ResolvedPackage>,
    after: Map<Seq<char>, ResolvedPackage>,
    pid: Seq<char>,
    alias: Seq<char>,
    id: Seq<char>,
) -> bool {
    &&& after.dom() == before.dom()
    &&& after.remove(pid) == before.remove(pid)
    &&& edge_added(before[pid], after[pid], alias, id)
}

fn add_edge(res: &mut Resolution, pid: &String, alias: String, id: String)
    requires
        old(res).packages@.contains_key(pid@),
    ensures
        final(res).roots == old(res).roots,
        final(res).warnings == old(res).warnings,
        graph_with_edge(old(res).packages@, final(res).packages@, pid@, alias@, id@),
{
    let pos = match res.packages.position(pid.as_str()) {
        Some(i) => i,
        None => {
            return;
        },
    };
    let _ = res.packages.len();
    let (key, mut pkg) = res.packages.remove_at(pos);
    let ghost before_pkg = pkg;
    assert(before_pkg == old(res).packages@[pid@]);
    let ghost alias_view = alias@;
    let ghost id_view = id@;
    pkg.deps.insert(alias, id);
    assert(pkg.deps@.remove(alias_view) =~= before_pkg.deps@.remove(alias_view));
    res.packages.insert(key, pkg);
    proof {
        assert(res.packages@.dom() =~= old(res).packages@.dom());
        assert(res.packages@.remove(pid@) =~= old(res).packages@.remove(pid@));
    }
}

/// The warning pushed when an optional dependency is skipped.
pub open spec fn skip_warning(w: ResolutionWarning, alias: Seq<char>, message: Seq<char>) -> bool {
    w.name@ == alias && w.message@ == message
}

/// The state after the requirement `req` of a package could not be
/// resolved with error `e`: an optional one is skipped with a warning, any
/// other fails the resolution.
pub open spec fn dep_unresolved(
    before: Resolution,
    after: Resolution,
    next_before: Seq<String>,
    next_after: Seq<String>,
    req: ReqView,
    e: VaultError,
    r: Result<(), VaultError>,
) -> bool {
    &&& next_after == next_before
    &&& if req.optional {
        &&& r is Ok
        &&& after.packages == before.packages
        &&& after.roots == before.roots
        &&& after.warnings@.drop_last() == before.warnings@
        &&& after.warnings@.len() == before.warnings@.len() + 1
        &&& skip_warning(
            after.warnings@.last(),
            req.alias,
            "optional dependency skipped (could not resolve)"@,
        )
    } else {
        r == Err::<(), VaultError>(e) && after == before
    }
}

/// The state after the requirement `req` of package `pid` was resolved to
/// `version` with packument `p`: the edge added (with the new package added
/// first and put on the next frontier when it is new); when the new package
/// has no metadata of that version, an optional requirement is skipped with
/// a warning quoting the error, any other fails.
pub open spec fn dep_step(
    before: Resolution,
    after: Resolution,
    next_before: Seq<Seq<char>>,
    next_after: Seq<Seq<char>>,
    req: ReqView,
    version: Seq<char>,
    p: Packument,
    r: Result<(), VaultError>,
) -> bool {
    let id = package_id(req.real_name, version);
    let pid = req.parent->0;
    &&& after.roots == before.roots
    &&& if before.packages@.contains_key(id) {
        &&& r is Ok
        &&& after.warnings == before.warnings
        &&& graph_with_edge(before.packages@, after.packages@, pid, req.alias, id)
        &&& next_after == next_before
    } else if p.versions@.contains_key(version) {
        &&& r is Ok
        &&& after.warnings == before.warnings
        &&& after.packages@.contains_key(id)
        &&& is_node(after.packages@[id], req.real_name, version, p.versions@[version])
        &&& graph_with_edge(before.packages@, after.packages@.remove(id), pid, req.alias, id)
        &&& next_after == next_before.push(id)
    } else {
        &&& next_after == next_before
        &&& after.packages == before.packages
        &&& if req.optional {
            &&& r is Ok
            &&& after.warnings@.drop_last() == before.warnings@
            &&& after.warnings@.len() == before.warnings@.len() + 1
            &&& skip_warning(
                after.warnings@.last(),
                req.alias,
                "optional dependency skipped ("@ + "could not resolve `"@ + req.real_name + "`: "@
                    + missing_reason(version) + ")"@,
            )
        } else {
            &&& r matches Err(err) && is_resolution_error(err, req.real_name, missing_reason(version))
            &&& after.warnings == before.warnings
        }
    }
}

fn skip_optional(res: &mut Resolution, alias: &String, message: String)
    ensures
        final(res).packages == old(res).packages,
        final(res).roots == old(res).roots,
        final(res).warnings@.drop_last() == old(res).warnings@,
        final(res).warnings@.len() == old(res).warnings@.len() + 1,
        skip_warning(final(res).warnings@.last(), alias@, message@),
{
    res.warnings.push(ResolutionWarning { name: alias.clone(), message });
    assert(res.warnings@.drop_last() =~= old(res).warnings@);
}

/// Apply the outcome of fetching the packument of a requirement of a
/// package on the current level: pick its version, add the package when it
/// is new (putting it on the next frontier), and record the edge. An
/// optional requirement that cannot be resolved or added is skipped with a
/// warning; any other failure is the error of the whole resolution.
pub fn apply_dependency(
    res: &mut Resolution,
    next: &mut Vec<String>,
    req: &DepReq,
    fetched: Result<Packument, VaultError>,
) -> (r: Result<(), VaultError>)
    requires
        req.parent matches Some(pid) && old(res).packages@.contains_key(pid@),
    ensures
        match fetched {
            Err(e) => dep_unresolved(*old(res), *final(res), old(next)@, final(next)@, req@, e, r),
            Ok(p) => exists|v: Result<String, VaultError>|
                #[trigger] pick_outcome(req.real_name@, req.real_range@, p, v) && match v {
                    Err(e) => dep_unresolved(
                        *old(res),
                        *final(res),
                        old(next)@,
                        final(next)@,
                        req@,
                        e,
                        r,
                    ),
                    Ok(version) => dep_step(
                        *old(res),
                        *final(res),
                        string_views(old(next)@),
                        string_views(final(next)@),
                        req@,
                        version@,
                        p,
                        r,
                    ),
                },
        },
{
    let pid = match &req.parent {
        Some(p) => p,
        None => return Ok(()),
    };
    let packument = match fetched {
        Err(e) => {
            if req.optional {
                skip_optional(res, &req.alias, "optional dependency skipped (could not resolve)".to_owned());
                return Ok(());
            }
            return Err(e);
        },
        Ok(p) => p,
    };
    let picked = pick_version(req.real_name.as_str(), req.real_range.as_str(), &packument);
    let ghost picked_g = picked;
    assert(pick_outcome(req.real_name@, req.real_range@, packument, picked_g));
    match picked {
        Err(e) => {
            if req.optional {
                skip_optional(res, &req.alias, "optional dependency skipped (could not resolve)".to_owned());
                return Ok(());
            }
            Err(e)
        },
        Ok(version) => dep_with_version(res, next, req, pid, version, &packument),
    }
}

fn dep_with_version(
    res: &mut Resolution,
    next: &mut Vec<String>,
    req: &DepReq,
    pid: &String,
    version: String,
    packument: &Packument,
) -> (r: Result<(), VaultError>)
    requires
        req.parent == Some(*pid),
        old(res).packages@.contains_key(pid@),
    ensures
        dep_step(
            *old(res),
            *final(res),
            string_views(old(next)@),
            string_views(final(next)@),
            req@,
            version@,
            *packument,
            r,
        ),
{
    let dep_id = id_string(req.real_name.as_str(), version.as_str());
    let ghost mid = res.packages@;
    let is_new = !res.packages.contains_key(dep_id.as_str());
    if is_new {
        let inserted = insert_node(res, req.real_name.as_str(), version.as_str(), packument);
        match inserted {
            Ok(()) => {
                next.push(dep_id.clone());
                proof {
                    assert(string_views(next@) =~= string_views(old(next)@).push(dep_id@));
                    assert(res.packages@.remove(dep_id@).contains_key(pid@));
                }
            },
            Err(e) => {
                if req.optional {
                    let mut m = "optional dependency skipped (".to_owned();
                    m.append(e.message().as_str());
                    m.append(")");
                    assert(m@ =~= "optional dependency skipped ("@ + "could not resolve `"@
                        + req.real_name@ + "`: "@ + missing_reason(version@) + ")"@);
                    skip_optional(res, &req.alias, m);
                    return Ok(());
                }
                return Err(e);
            },
        }
    }
    let ghost before_edge = res.packages@;
    add_edge(res, pid, req.alias.clone(), dep_id);
    proof {
        if is_new {
            assert(mid.remove(dep_id@) =~= mid);
            assert(before_edge.remove(dep_id@) =~= old(res).packages@);
            assert(pid@ != dep_id@);
            assert(res.packages@.remove(dep_id@).dom() =~= old(res).packages@.dom());
            assert(res.packages@.remove(dep_id@).remove(pid@) =~= res.packages@.remove(pid@).remove(dep_id@));
            assert(before_edge.remove(pid@).remove(dep_id@) =~= old(res).packages@.remove(pid@));
            assert(res.packages@.remove(dep_id@).remove(pid@) =~= old(res).packages@.remove(pid@));
            assert(res.packages@.remove(dep_id@)[pid@] == res.packages@[pid@]);
            assert(res.packages@.remove(pid@).contains_key(dep_id@));
            assert(res.packages@[dep_id@] == res.packages@.remove(pid@)[dep_id@]);
            assert(before_edge.remove(pid@)[dep_id@] == before_edge[dep_id@]);
        }
    }
    Ok(())
}

/// The next frontier: the ids of the packages added on this level, sorted
/// and without repeats.
pub fn next_frontier(added: Vec<String>) -> (f: Vec<String>)
    ensures
        strictly_sorted(string_views(f@)),
        string_views(f@).to_set() == string_views(added@).to_set(),
{
    let mut f: Vec<String> = Vec::new();
    let mut i: usize = 0;
    assert(string_views(f@).to_set() =~= string_views(added@).take(0).to_set());
    while i < added.len()
        invariant
            i <= added@.len(),
            strictly_sorted(string_views(f@)),
            string_views(f@).to_set() == string_views(added@).take(i as int).to_set(),
        decreases added@.len() - i,
    {
        insert_sorted(&mut f, added[i].clone());
        proof {
            let t = string_views(added@).take(i + 1);
            assert(t =~= string_views(added@).take(i as int).push(added@[i as int]@));
            string_views(added@).take(i as int).lemma_push_to_set_commute(added@[i as int]@);
        }
        i += 1;
    }
    assert(string_views(added@).take(added@.len() as int) =~= string_views(added@));
    f
}

/// Whether a resolved graph is consistent: every package is keyed by its
/// own id, every dependency edge and every root leads to a package of the
/// graph.
pub open spec fn graph_ok(res: Resolution) -> bool {
    &&& forall|k: Seq<char>|
        #[trigger] res.packages@.contains_key(k) ==> package_id(
            res.packages@[k].name@,
            res.packages@[k].version@,
        ) == k
    &&& forall|k: Seq<char>, a: Seq<char>|
        #[trigger] res.packages@.contains_key(k) && #[trigger] res.packages@[k].deps@.contains_key(a)
            ==> res.packages@.contains_key(res.packages@[k].deps@[a]@)
    &&& forall|a: Seq<char>|
        #[trigger] res.roots@.contains_key(a) ==> res.packages@.contains_key(res.roots@[a]@)
}

/// Resolving a direct dependency keeps the graph consistent: a successful
/// step records a root that leads to a package keyed by its id.
pub proof fn lemma_root_step_keeps_graph(
    before: Resolution,
    after: Resolution,
    fb: Seq<Seq<char>>,
    fa: Seq<Seq<char>>,
    req: ReqView,
    version: Seq<char>,
    p: Packument,
    r: Result<(), VaultError>,
)
    requires
        graph_ok(before),
        root_step(before, after, fb, fa, req, version, p, r),
        r is Ok,
    ensures
        graph_ok(after),
{
    let id = package_id(req.real_name, version);
    assert forall|k: Seq<char>| #[trigger] after.packages@.contains_key(k) implies package_id(
        after.packages@[k].name@,
        after.packages@[k].version@,
    ) == k by {
        if k != id && !before.packages@.contains_key(id) {
            assert(after.packages@.remove(id).contains_key(k));
        }
    }
    assert forall|k: Seq<char>, a: Seq<char>|
        #[trigger] after.packages@.contains_key(k) && #[trigger] after.packages@[k].deps@.contains_key(a)
            implies after.packages@.contains_key(after.packages@[k].deps@[a]@) by {
        if !before.packages@.contains_key(id) {
            if k != id {
                assert(after.packages@.remove(id).contains_key(k));
                assert(after.packages@.remove(id)[k] == after.packages@[k]);
                assert(before.packages@.contains_key(before.packages@[k].deps@[a]@));
                assert(after.packages@.remove(id).contains_key(before.packages@[k].deps@[a]@));
            }
        }
    }
    assert forall|a: Seq<char>| #[trigger] after.roots@.contains_key(a) implies after.packages@.contains_key(
        after.roots@[a]@,
    ) by {
        if a != req.alias {
            assert(after.roots@.remove(req.alias).contains_key(a));
            assert(before.roots@.remove(req.alias)[a] == before.roots@[a]);
            if !before.packages@.contains_key(id) {
                assert(after.packages@.remove(id).contains_key(before.roots@[a]@));
            }
        }
    }
}

/// Resolving a dependency of a package keeps the graph consistent: a
/// successful step adds an edge that leads to a package keyed by its id.
pub proof fn lemma_dep_step_keeps_graph(
    before: Resolution,
    after: Resolution,
    nb: Seq<Seq<char>>,
    na: Seq<Seq<char>>,
    req: ReqView,
    version: Seq<char>,
    p: Packument,
    r: Result<(), VaultError>,
)
    requires
        graph_ok(before),
        req.parent matches Some(pid) && before.packages@.contains_key(pid),
        dep_step(before, after, nb, na, req, version, p, r),
        r is Ok,
    ensures
        graph_ok(after),
{
    let id = package_id(req.real_name, version);
    let pid = req.parent->0;
    if before.packages@.contains_key(id) || p.versions@.contains_key(version) {
        let inserted = !before.packages@.contains_key(id);
        let base = if inserted {
            after.packages@.remove(id)
        } else {
            after.packages@
        };
        assert(graph_with_edge(before.packages@, base, pid, req.alias, id));
        assert forall|k: Seq<char>| #[trigger] after.packages@.contains_key(k) implies package_id(
            after.packages@[k].name@,
            after.packages@[k].version@,
        ) == k by {
            if !(inserted && k == id) {
                assert(base.contains_key(k));
                assert(base[k] == after.packages@[k]);
                if k != pid {
                    assert(base.remove(pid)[k] == before.packages@.remove(pid)[k]);
                }
            }
        }
        assert forall|k: Seq<char>, a: Seq<char>|
            #[trigger] after.packages@.contains_key(k) && #[trigger] after.packages@[k].deps@.contains_key(a)
                implies after.packages@.contains_key(after.packages@[k].deps@[a]@) by {
            if !(inserted && k == id) {
                assert(base.contains_key(k));
                assert(base[k] == after.packages@[k]);
                if k != pid {
                    assert(base.remove(pid)[k] == before.packages@.remove(pid)[k]);
                    assert(before.packages@.contains_key(before.packages@[k].deps@[a]@));
                    assert(base.contains_key(before.packages@[k].deps@[a]@));
                } else if a != req.alias {
                    assert(base[k].deps@.remove(req.alias).contains_key(a));
                    assert(before.packages@[k].deps@.remove(req.alias).contains_key(a));
                    assert(after.packages@[k].deps@.remove(req.alias)[a] == before.packages@[k].deps@.remove(req.alias)[a]);
                    assert(before.packages@[k].deps@.contains_key(a));
                    assert(before.packages@.contains_key(before.packages@[k].deps@[a]@));
                    assert(base.contains_key(before.packages@[k].deps@[a]@));
                }
            }
        }
        assert forall|a: Seq<char>| #[trigger] after.roots@.contains_key(a) implies after.packages@.contains_key(
            after.roots@[a]@,
        ) by {
            assert(before.packages@.contains_key(before.roots@[a]@));
            assert(base.contains_key(before.roots@[a]@));
        }
    }
}

/// A range that mentions a pre-release (its text contains `-`) can pick a
/// pre-release: when a published pre-release version satisfies the range
/// and lies strictly above every other published version that satisfies
/// it, and no dist-tag is named by the range, that version is picked.
pub proof fn lemma_prerelease_range_picks_prerelease(
    name: Seq<char>,
    range: Seq<char>,
    packument: Packument,
    r: Result<String, VaultError>,
    i: int,
)
    requires
        pick_outcome(name, range, packument, r),
        !packument.dist_tags@.contains_key(range),
        range.len() > 0,
        range != "*"@,
        range != "latest"@,
        semver_range_parse(range) is Ok,
        exists|c: int| 0 <= c < range.len() && range[c] == '-',
        0 <= i < packument.versions.pairs().len(),
        semver_version_parse(packument.versions.pairs()[i].0) matches Some(v)
            && v.pre_release.len() > 0 && semver_range_satisfies(range, v),
        forall|j: int|
            0 <= j < packument.versions.pairs().len() && j != i ==> match semver_version_parse(
                #[trigger] packument.versions.pairs()[j].0,
            ) {
                Some(w) => semver_range_satisfies(range, w) ==> compare_versions(
                    w,
                    semver_version_parse(packument.versions.pairs()[i].0)->0,
                ) < 0,
                None => true,
            },
    ensures
        r matches Ok(s) && s@ == version_text(
            semver_version_parse(packument.versions.pairs()[i].0)->0,
        ),
{
    let pairs = packument.versions.pairs();
    let v = semver_version_parse(pairs[i].0)->0;
    assert(has_char(range, '-'));
    assert(eligible(range, pairs[i].0));
    assert forall|j: int|
        0 <= j < pairs.len() && eligible(range, #[trigger] pairs[j].0) implies compare_versions(
        parsed_version(pairs[j].0),
        parsed_version(pairs[i].0),
    ) <= 0 by {
        lemma_version_antisymmetric(v, v);
    }
    assert(is_pick(pairs, range, i));
    let i2 = choose|i2: int|
        is_pick(pairs, range, i2) && r->Ok_0@ == version_text(
            parsed_version(#[trigger] pairs[i2].0),
        );
    if i2 != i {
        let v2 = parsed_version(pairs[i2].0);
        assert(compare_versions(v, v2) <= 0);
        assert(compare_versions(v2, v) < 0);
        lemma_version_antisymmetric(v, v2);
    }
}

} // verus!
