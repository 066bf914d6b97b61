//! `vault.lock`: a lockfile recording resolved versions and the security
//! verdict of each package, so that re-installs are reproducible and
//! auditable.
//!
//! The lockfile stores enough to rebuild the dependency graph without the
//! network (versions, tarball URLs, integrity, the graph's edges, and the
//! lifecycle scripts that the static scan reads). That is what powers
//! lockfile-driven installs and `--frozen-lockfile`. Reading and writing the
//! file, as JSON, is the caller's I/O.

use crate::audit::reputation::days_from_civil_spec;
use crate::audit::{any_critical, AuditReport};
use crate::audit::static_scan::LIFECYCLE_SCRIPTS;
use crate::clock::now_secs;
use crate::registry::{Dist, VersionMeta};
use crate::resolver::{package_id, Resolution, ResolvedPackage};
use crate::semver::{
    parse_range, parse_version, range_satisfies, semver_range_parse, semver_range_satisfies,
    semver_version_parse,
};
use crate::strmap::{keys_distinct, lemma_map_of_pairs_all, lemma_map_of_pairs_dom_len, StrMap};
use crate::text::{
    clone_opt_string, clone_strings, decimal, opt_string_view, push_char, rsplit_once,
    rsplit_once_str, u64_to_decimal, zero_pad, zero_pad_string,
};
use vstd::prelude::*;

verus! {

/// The file name of the lockfile in a project directory.
pub const LOCKFILE_NAME: &'static str = "vault.lock";

/// The format version written into new lockfiles.
pub const LOCKFILE_VERSION: u32 = 1;

/// The lockfile.
pub struct Lockfile {
    pub lockfile_version: u32,
    /// Direct dependencies: `aliasName -> resolved package id` (`name@version`).
    pub roots: StrMap<String>,
    /// Every locked package by its id.
    pub packages: StrMap<LockedPackage>,
}

/// One locked package version.
pub struct LockedPackage {
    /// The tarball URL.
    pub resolved: String,
    /// The SRI string; empty when the registry gave none.
    pub integrity: String,
    pub shasum: Option<String>,
    /// Resolved graph edges: `aliasName -> resolved package id`.
    pub dependencies: StrMap<String>,
    /// Lifecycle scripts (preinstall/install/postinstall), kept so the static
    /// scan can run from the lockfile.
    pub scripts: StrMap<String>,
    pub audited_at: String,
    pub audit_sources: Vec<String>,
    pub cve_status: String,
    pub sandboxed: bool,
}

/// The civil date `(year, month, day)` of a day count since 1970-01-01, by
/// Howard Hinnant's civil-from-days algorithm (eras of 400 years, years
/// counted from March).
pub open spec fn civil_from_days_spec(z: int) -> (int, int, int) {
    let z2 = z + 719468;
    let era = z2 / 146097;
    let doe = z2 - era * 146097;
    let yoe = (doe - doe / 1460 + doe / 36524 - doe / 146096) / 365;
    let y = yoe + era * 400;
    let doy = doe - (365 * yoe + yoe / 4 - yoe / 100);
    let mp = (5 * doy + 2) / 153;
    let d = doy - (153 * mp + 2) / 5 + 1;
    let m = if mp < 10 {
        mp + 3
    } else {
        mp - 9
    };
    (if m <= 2 {
        y + 1
    } else {
        y
    }, m, d)
}

/// Within an era, the year and the day of the (March-based) year are in
/// range.
proof fn lemma_era_ranges(doe: int)
    requires
        0 <= doe <= 146096,
    ensures
        ({
            let yoe = (doe - doe / 1460 + doe / 36524 - doe / 146096) / 365;
            let doy = doe - (365 * yoe + yoe / 4 - yoe / 100);
            &&& 0 <= yoe <= 399
            &&& 0 <= doy <= 365
        }),
{
}

/// Counting the days of the civil date of a day count gives the day count
/// back; that date has a month in 1..=12 and a day in 1..=31.
pub proof fn lemma_days_civil_inverse(z: int)
    ensures
        ({
            let (y, m, d) = civil_from_days_spec(z);
            &&& 1 <= m <= 12
            &&& 1 <= d <= 31
            &&& days_from_civil_spec(y, m, d) == z
        }),
{
    let z2 = z + 719468;
    let era = z2 / 146097;
    let doe = z2 - era * 146097;
    lemma_era_ranges(doe);
    let yoe = (doe - doe / 1460 + doe / 36524 - doe / 146096) / 365;
    assert((yoe + era * 400) / 400 == era);
}

/// The civil date of a day count since the epoch.
pub fn civil_from_days(z: i64) -> (r: (i64, u32, u32))
    requires
        z <= i64::MAX - 719468,
    ensures
        r.0 == civil_from_days_spec(z as int).0,
        r.1 == civil_from_days_spec(z as int).1,
        r.2 == civil_from_days_spec(z as int).2,
{
    let z = z + 719_468;
    let era = if z >= 0 {
        z
    } else {
        z - 146_096
    } / 146_097;
    assert(era == z / 146097);
    let doe = z - era * 146_097;
    proof {
        lemma_era_ranges(doe as int);
    }
    let yoe = (doe - doe / 1460 + doe / 36_524 - doe / 146_096) / 365;
    let y = yoe + era * 400;
    let doy = doe - (365 * yoe + yoe / 4 - yoe / 100);
    let mp = (5 * doy + 2) / 153;
    let d = (doy - (153 * mp + 2) / 5 + 1) as u32;
    let m = if mp < 10 {
        mp + 3
    } else {
        mp - 9
    } as u32;
    (if m <= 2 {
        y + 1
    } else {
        y
    }, m, d)
}

/// A year as `{:04}` writes it: zero-padded to four characters, the sign
/// counted.
pub open spec fn year_text(y: int) -> Seq<char> {
    if y < 0 {
        "-"@ + zero_pad(decimal((-y) as nat), 3)
    } else {
        zero_pad(decimal(y as nat), 4)
    }
}

/// A number as `{:02}` writes it.
pub open spec fn two_digits(n: nat) -> Seq<char> {
    zero_pad(decimal(n), 2)
}

/// The ISO-8601 UTC timestamp `YYYY-MM-DDTHH:MM:SSZ` of a time in seconds
/// since the epoch.
pub open spec fn timestamp_text(secs: nat) -> Seq<char> {
    let (y, m, d) = civil_from_days_spec((secs / 86400) as int);
    let rem = secs % 86400;
    year_text(y) + "-"@ + two_digits(m as nat) + "-"@ + two_digits(d as nat) + "T"@ + two_digits(
        rem / 3600,
    ) + ":"@ + two_digits((rem % 3600) / 60) + ":"@ + two_digits(rem % 60) + "Z"@
}

fn two_digit_string(n: u64) -> (s: String)
    ensures
        s@ == two_digits(n as nat),
{
    zero_pad_string(u64_to_decimal(n), 2)
}

/// The ISO-8601 UTC timestamp of `secs` seconds since the epoch.
pub fn iso8601_at(secs: u64) -> (s: String)
    ensures
        s@ == timestamp_text(secs as nat),
{
    let days = (secs / 86_400) as i64;
    let rem = secs % 86_400;
    let (y, m, d) = civil_from_days(days);
    assert(y >= 0);
    let mut s = zero_pad_string(u64_to_decimal(y as u64), 4);
    push_char(&mut s, '-');
    s.append(two_digit_string(m as u64).as_str());
    push_char(&mut s, '-');
    s.append(two_digit_string(d as u64).as_str());
    push_char(&mut s, 'T');
    s.append(two_digit_string(rem / 3600).as_str());
    push_char(&mut s, ':');
    s.append(two_digit_string((rem % 3600) / 60).as_str());
    push_char(&mut s, ':');
    s.append(two_digit_string(rem % 60).as_str());
    push_char(&mut s, 'Z');
    proof {
        reveal_strlit("-");
        reveal_strlit("T");
        reveal_strlit(":");
        reveal_strlit("Z");
    }
    assert(s@ =~= timestamp_text(secs as nat));
    s
}

/// The current time as an ISO-8601 UTC timestamp, by the system clock.
pub fn now_iso8601() -> (s: String)
    ensures
        exists|secs: u64| s@ == timestamp_text(secs as nat),
{
    iso8601_at(now_secs())
}

/// The CVE status recorded for a package with the given audit report.
pub open spec fn cve_status_of(report: Option<AuditReport>) -> Seq<char> {
    match report {
        Some(r) => if any_critical(r.advisories@) {
            "critical"@
        } else if r.advisories@.len() > 0 {
            "advisories"@
        } else {
            "clean"@
        },
        None => "unknown"@,
    }
}

/// Whether a script name is one of the lifecycle hooks.
pub open spec fn is_lifecycle(k: Seq<char>) -> bool {
    k == "preinstall"@ || k == "install"@ || k == "postinstall"@
}

/// The lifecycle scripts of a scripts map.
pub open spec fn lifecycle_scripts(m: Map<Seq<char>, String>) -> Map<Seq<char>, String> {
    m.restrict(Set::new(|k: Seq<char>| is_lifecycle(k)))
}

/// The report filed under `id`, if any.
pub open spec fn report_for(reports: Map<Seq<char>, AuditReport>, id: Seq<char>) -> Option<
    AuditReport,
> {
    if reports.contains_key(id) {
        Some(reports[id])
    } else {
        None
    }
}

/// Whether `l` is the locked record of `pkg`, audited at `now` from
/// `sources`, with the CVE status of its report.
pub open spec fn is_locked_of(
    l: LockedPackage,
    pkg: ResolvedPackage,
    reports: Map<Seq<char>, AuditReport>,
    sources: Seq<String>,
    now: Seq<char>,
) -> bool {
    &&& l.resolved@ == pkg.meta.dist.tarball@
    &&& l.integrity@ == match pkg.meta.dist.integrity {
        Some(s) => s@,
        None => Seq::empty(),
    }
    &&& opt_string_view(l.shasum) == opt_string_view(pkg.meta.dist.shasum)
    &&& l.dependencies@ == pkg.deps@
    &&& l.scripts@ == lifecycle_scripts(pkg.meta.scripts@)
    &&& l.audited_at@ == now
    &&& l.audit_sources@ == sources
    &&& l.cve_status@ == cve_status_of(report_for(reports, package_id(pkg.name@, pkg.version@)))
    &&& !l.sandboxed
}

/// The id of the package in pair `i`.
pub open spec fn id_at(pairs: Seq<(Seq<char>, ResolvedPackage)>, i: int) -> Seq<char> {
    package_id(pairs[i].1.name@, pairs[i].1.version@)
}

/// Whether `lock` records `res`: every package under its id (the later of
/// two packages with one id wins), the roots as they are, format version 1.
pub open spec fn lockfile_of(
    lock: Lockfile,
    res: Resolution,
    reports: Map<Seq<char>, AuditReport>,
    sources: Seq<String>,
    now: Seq<char>,
) -> bool {
    let pairs = res.packages.pairs();
    &&& lock.lockfile_version == 1
    &&& lock.roots@ == res.roots@
    &&& forall|k: Seq<char>|
        #[trigger] lock.packages@.contains_key(k) <==> exists|j: int|
            0 <= j < pairs.len() && id_at(pairs, j) == k
    &&& forall|j: int|
        0 <= j < pairs.len() && (forall|j2: int| j < j2 < pairs.len() ==> id_at(pairs, j2) != id_at(pairs, j))
            ==> is_locked_of(#[trigger] lock.packages@[id_at(pairs, j)], pairs[j].1, reports, sources, now)
    &&& forall|k: Seq<char>|
        #[trigger] res.packages@.contains_key(k) ==> lock.packages@.contains_key(
            package_id(res.packages@[k].name@, res.packages@[k].version@),
        )
    &&& forall|k: Seq<char>|
        #[trigger] lock.packages@.contains_key(k) ==> exists|k0: Seq<char>|
            #[trigger] res.packages@.contains_key(k0) && package_id(
                res.packages@[k0].name@,
                res.packages@[k0].version@,
            ) == k
    &&& forall|k: Seq<char>|
        #[trigger] res.packages@.contains_key(k) && sole_id(res.packages@, k) ==> is_locked_of(
            lock.packages@[package_id(res.packages@[k].name@, res.packages@[k].version@)],
            res.packages@[k],
            reports,
            sources,
            now,
        )
}

/// Whether the package under `k` is the only one with its id.
pub open spec fn sole_id(pkgs: Map<Seq<char>, ResolvedPackage>, k: Seq<char>) -> bool {
    forall|k2: Seq<char>|
        #[trigger] pkgs.contains_key(k2) && k2 != k ==> package_id(pkgs[k2].name@, pkgs[k2].version@)
            != package_id(pkgs[k].name@, pkgs[k].version@)
}

/// The lifecycle scripts of a scripts map, as a new map.
fn lifecycle_of(scripts: &StrMap<String>) -> (r: StrMap<String>)
    ensures
        r@ == lifecycle_scripts(scripts@),
{
    let mut r: StrMap<String> = StrMap::new();
    for h in 0..3
        invariant
            r@ == scripts@.restrict(Set::new(|k: Seq<char>| exists|j: int| 0 <= j < h && k == LIFECYCLE_SCRIPTS[j]@)),
    {
        if let Some(body) = scripts.get(LIFECYCLE_SCRIPTS[h]) {
            r.insert(LIFECYCLE_SCRIPTS[h].to_owned(), body.clone());
        }
        assert(r@ =~= scripts@.restrict(Set::new(|k: Seq<char>| exists|j: int| 0 <= j < h + 1 && k == LIFECYCLE_SCRIPTS[j]@)));
    }
    proof {
        reveal_strlit("preinstall");
        reveal_strlit("install");
        reveal_strlit("postinstall");
        assert(Set::new(|k: Seq<char>| exists|j: int| 0 <= j < 3 && k == LIFECYCLE_SCRIPTS[j]@) =~= Set::new(|k: Seq<char>| is_lifecycle(k))) by {
            assert forall|k: Seq<char>| is_lifecycle(k) implies exists|j: int| 0 <= j < 3 && k == LIFECYCLE_SCRIPTS[j]@ by {
                if k == "preinstall"@ {
                    assert(k == LIFECYCLE_SCRIPTS[0]@);
                } else if k == "install"@ {
                    assert(k == LIFECYCLE_SCRIPTS[1]@);
                } else {
                    assert(k == LIFECYCLE_SCRIPTS[2]@);
                }
            }
        }
    }
    r
}

fn cve_status(report: Option<&AuditReport>) -> (s: String)
    ensures
        s@ == cve_status_of(match report {
            Some(r) => Some(*r),
            None => None,
        }),
{
    match report {
        Some(r) => if r.has_critical_cve() {
            "critical".to_owned()
        } else if r.advisories.len() > 0 {
            "advisories".to_owned()
        } else {
            "clean".to_owned()
        },
        None => "unknown".to_owned(),
    }
}

fn lock_package(
    pkg: &ResolvedPackage,
    reports: &StrMap<AuditReport>,
    audit_sources: &[String],
    now: &str,
) -> (l: LockedPackage)
    ensures
        is_locked_of(l, *pkg, reports@, audit_sources@, now@),
{
    let id = pkg.id();
    let cve = cve_status(reports.get(id.as_str()));
    LockedPackage {
        resolved: pkg.meta.dist.tarball.clone(),
        integrity: match &pkg.meta.dist.integrity {
            Some(s) => s.clone(),
            None => String::new(),
        },
        shasum: clone_opt_string(&pkg.meta.dist.shasum),
        dependencies: pkg.deps.duplicate(),
        scripts: lifecycle_of(&pkg.meta.scripts),
        audited_at: now.to_owned(),
        audit_sources: clone_strings(audit_sources),
        cve_status: cve,
        sandboxed: false,
    }
}

impl Lockfile {
    /// Build a lockfile from a resolution and the per-package audit
    /// reports, with `now` as the audit time of every package.
    pub fn from_resolution_at(
        resolution: &Resolution,
        reports: &StrMap<AuditReport>,
        audit_sources: &[String],
        now: &str,
    ) -> (lock: Lockfile)
        ensures
            lockfile_of(lock, *resolution, reports@, audit_sources@, now@),
    {
        let ghost pairs = resolution.packages.pairs();
        let n = resolution.packages.len();
        let mut packages: StrMap<LockedPackage> = StrMap::new();
        let mut i: usize = 0;
        while i < n
            invariant
                i <= n == pairs.len(),
                pairs == resolution.packages.pairs(),
                forall|k: Seq<char>|
                    #[trigger] packages@.contains_key(k) <==> exists|j: int|
                        0 <= j < i && id_at(pairs, j) == k,
                forall|j: int|
                    0 <= j < i && (forall|j2: int| j < j2 < i ==> id_at(pairs, j2) != id_at(pairs, j))
                        ==> is_locked_of(#[trigger] packages@[id_at(pairs, j)], pairs[j].1, reports@, audit_sources@, now@),
            decreases n - i,
        {
            let pkg = resolution.packages.value_at(i);
            let id = pkg.id();
            let locked = lock_package(pkg, reports, audit_sources, now);
            let ghost before = packages@;
            packages.insert(id, locked);
            proof {
                assert(id_at(pairs, i as int) == id@);
                assert forall|k: Seq<char>|
                    #[trigger] packages@.contains_key(k) <==> exists|j: int|
                        0 <= j < i + 1 && id_at(pairs, j) == k by {
                    if k == id@ {
                        assert(id_at(pairs, i as int) == k);
                    } else if packages@.contains_key(k) {
                        assert(before.contains_key(k));
                    }
                }
                assert forall|j: int|
                    0 <= j < i + 1 && (forall|j2: int| j < j2 < i + 1 ==> id_at(pairs, j2) != id_at(pairs, j))
                        implies is_locked_of(#[trigger] packages@[id_at(pairs, j)], pairs[j].1, reports@, audit_sources@, now@) by {
                    if j < i {
                        assert(id_at(pairs, i as int) != id_at(pairs, j));
                    }
                }
            }
            i += 1;
        }
        let lock = Lockfile { lockfile_version: LOCKFILE_VERSION, roots: resolution.roots.duplicate(), packages };
        proof {
            lemma_map_of_pairs_all(pairs);
            assert forall|k: Seq<char>| #[trigger] resolution.packages@.contains_key(k) implies lock.packages@.contains_key(
                package_id(resolution.packages@[k].name@, resolution.packages@[k].version@),
            ) by {
                let j = choose|j: int| 0 <= j < pairs.len() && #[trigger] pairs[j].0 == k;
                assert(resolution.packages@[k] == pairs[j].1);
                assert(id_at(pairs, j) == package_id(resolution.packages@[k].name@, resolution.packages@[k].version@));
            }
            assert forall|k: Seq<char>| #[trigger] lock.packages@.contains_key(k) implies exists|k0: Seq<char>|
                #[trigger] resolution.packages@.contains_key(k0) && package_id(
                    resolution.packages@[k0].name@,
                    resolution.packages@[k0].version@,
                ) == k by {
                let j = choose|j: int| 0 <= j < pairs.len() && id_at(pairs, j) == k;
                assert(resolution.packages@.contains_key(pairs[j].0));
                assert(resolution.packages@[pairs[j].0] == pairs[j].1);
            }
            assert forall|k: Seq<char>|
                #[trigger] resolution.packages@.contains_key(k) && sole_id(resolution.packages@, k) implies is_locked_of(
                    lock.packages@[package_id(resolution.packages@[k].name@, resolution.packages@[k].version@)],
                    resolution.packages@[k],
                    reports@,
                    audit_sources@,
                    now@,
                ) by {
                let j = choose|j: int| 0 <= j < pairs.len() && #[trigger] pairs[j].0 == k;
                assert(resolution.packages@[k] == pairs[j].1);
                assert forall|j2: int| j < j2 < pairs.len() implies id_at(pairs, j2) != id_at(pairs, j) by {
                    assert(resolution.packages@.contains_key(pairs[j2].0));
                    assert(resolution.packages@[pairs[j2].0] == pairs[j2].1);
                    assert(pairs[j2].0 != pairs[j].0);
                }
                assert(id_at(pairs, j) == package_id(resolution.packages@[k].name@, resolution.packages@[k].version@));
                assert(is_locked_of(lock.packages@[id_at(pairs, j)], pairs[j].1, reports@, audit_sources@, now@));
            }
        }
        lock
    }

    /// Build a lockfile from a resolution and the per-package audit
    /// reports, stamped with the current time.
    pub fn from_resolution(
        resolution: &Resolution,
        reports: &StrMap<AuditReport>,
        audit_sources: &[String],
    ) -> (lock: Lockfile)
        ensures
            exists|now: Seq<char>| lockfile_of(lock, *resolution, reports@, audit_sources@, now),
    {
        let now = now_iso8601();
        Self::from_resolution_at(resolution, reports, audit_sources, now.as_str())
    }
}

/// An SRI text that is empty stands for no integrity at all.
pub open spec fn nonempty(o: Option<Seq<char>>) -> Option<Seq<char>> {
    match o {
        Some(s) => if s.len() == 0 {
            None
        } else {
            Some(s)
        },
        None => None,
    }
}

/// Whether `p` is the package rebuilt from the locked record `l` kept
/// under `id`: name and version from the id split at its last `@`, no
/// declared dependencies, the locked scripts, edges and dist data.
pub open spec fn is_unlocked_of(p: ResolvedPackage, id: Seq<char>, l: LockedPackage) -> bool {
    &&& rsplit_once(id, '@') == Some((p.name@, p.version@))
    &&& p.meta.name@ == p.name@
    &&& p.meta.version@ == p.version@
    &&& p.meta.dependencies@ == Map::<Seq<char>, String>::empty()
    &&& p.meta.optional_dependencies@ == Map::<Seq<char>, String>::empty()
    &&& p.meta.peer_dependencies@ == Map::<Seq<char>, String>::empty()
    &&& p.meta.scripts@ == l.scripts@
    &&& p.meta.dist.tarball@ == l.resolved@
    &&& opt_string_view(p.meta.dist.shasum) == opt_string_view(l.shasum)
    &&& opt_string_view(p.meta.dist.integrity) == nonempty(Some(l.integrity@))
    &&& p.deps@ == l.dependencies@
}

/// Whether `res` is the graph rebuilt from `lock`: every package whose id
/// has an `@`, the roots as they are, and no warnings.
pub open spec fn resolution_of(res: Resolution, lock: Lockfile) -> bool {
    &&& res.roots@ == lock.roots@
    &&& res.warnings@.len() == 0
    &&& forall|k: Seq<char>|
        #[trigger] res.packages@.contains_key(k) <==> (lock.packages@.contains_key(k) && rsplit_once(
            k,
            '@',
        ) is Some)
    &&& forall|k: Seq<char>|
        #[trigger] res.packages@.contains_key(k) ==> is_unlocked_of(
            res.packages@[k],
            k,
            lock.packages@[k],
        )
}

fn empty_map() -> (m: StrMap<String>)
    ensures
        m@ == Map::<Seq<char>, String>::empty(),
{
    StrMap::new()
}

fn unlock_package(name: String, version: String, l: &LockedPackage) -> (p: ResolvedPackage)
    ensures
        p.name@ == name@,
        p.version@ == version@,
        p.meta.name@ == name@,
        p.meta.version@ == version@,
        p.meta.dependencies@ == Map::<Seq<char>, String>::empty(),
        p.meta.optional_dependencies@ == Map::<Seq<char>, String>::empty(),
        p.meta.peer_dependencies@ == Map::<Seq<char>, String>::empty(),
        p.meta.scripts@ == l.scripts@,
        p.meta.dist.tarball@ == l.resolved@,
        opt_string_view(p.meta.dist.shasum) == opt_string_view(l.shasum),
        opt_string_view(p.meta.dist.integrity) == nonempty(Some(l.integrity@)),
        p.deps@ == l.dependencies@,
{
    let integrity = if l.integrity.as_str().is_empty() {
        None
    } else {
        Some(l.integrity.clone())
    };
    let meta = VersionMeta {
        name: name.clone(),
        version: version.clone(),
        dependencies: empty_map(),
        optional_dependencies: empty_map(),
        peer_dependencies: empty_map(),
        scripts: l.scripts.duplicate(),
        dist: Dist {
            tarball: l.resolved.clone(),
            shasum: clone_opt_string(&l.shasum),
            integrity,
        },
    };
    ResolvedPackage { name, version, meta, deps: l.dependencies.duplicate() }
}

/// Whether the lockfile still satisfies the declared direct dependencies:
/// the same number of roots, each declared alias locked to a version that
/// parses and satisfies its declared range (which parses too), and every
/// referenced package and graph edge present.
pub open spec fn matches_spec(lock: Lockfile, manifest: Map<Seq<char>, String>, manifest_len: nat) -> bool {
    &&& lock.roots.pairs().len() == manifest_len
    &&& forall|alias: Seq<char>|
        #[trigger] manifest.contains_key(alias) ==> {
            &&& lock.roots@.contains_key(alias)
            &&& rsplit_once(lock.roots@[alias]@, '@') matches Some((_, version)) && {
                &&& semver_range_parse(manifest[alias]@) is Ok
                &&& semver_version_parse(version) matches Some(v) && semver_range_satisfies(
                    manifest[alias]@,
                    v,
                )
            }
        }
    &&& forall|alias: Seq<char>|
        #[trigger] lock.roots@.contains_key(alias) ==> lock.packages@.contains_key(
            lock.roots@[alias]@,
        )
    &&& forall|k: Seq<char>, a: Seq<char>|
        #[trigger] lock.packages@.contains_key(k) && #[trigger] lock.packages@[k].dependencies@.contains_key(a)
            ==> lock.packages@.contains_key(lock.packages@[k].dependencies@[a]@)
}

/// A lockfile that matches a manifest locks exactly the manifest's
/// dependencies: its root aliases are the manifest's names, no more and no
/// fewer (so a dependency removed from the manifest makes the lockfile
/// stale), and each is locked to a version that satisfies its declared range.
pub proof fn lemma_match_means_same_roots(lock: Lockfile, manifest: StrMap<String>)
    requires
        keys_distinct(lock.roots.pairs()),
        keys_distinct(manifest.pairs()),
        matches_spec(lock, manifest@, manifest.pairs().len()),
    ensures
        lock.roots@.dom() == manifest@.dom(),
        forall|alias: Seq<char>|
            #[trigger] manifest@.contains_key(alias) ==> (rsplit_once(lock.roots@[alias]@, '@') matches Some(
                (_, version),
            ) && (semver_version_parse(version) matches Some(v) && semver_range_satisfies(
                manifest@[alias]@,
                v,
            ))),
{
    lemma_map_of_pairs_dom_len(lock.roots.pairs());
    lemma_map_of_pairs_dom_len(manifest.pairs());
    assert(manifest@.dom().subset_of(lock.roots@.dom()));
    vstd::set_lib::lemma_subset_equality(manifest@.dom(), lock.roots@.dom());
}

impl Lockfile {
    /// Rebuild the dependency graph from the lockfile, without the network.
    pub fn to_resolution(&self) -> (res: Resolution)
        ensures
            resolution_of(res, *self),
    {
        let ghost pairs = self.packages.pairs();
        let n = self.packages.len();
        let mut packages: StrMap<ResolvedPackage> = StrMap::new();
        let mut i: usize = 0;
        while i < n
            invariant
                i <= n == pairs.len(),
                pairs == self.packages.pairs(),
                forall|j: int|
                    0 <= j < pairs.len() ==> self.packages@.contains_key(#[trigger] pairs[j].0)
                        && self.packages@[pairs[j].0] == pairs[j].1,
                forall|k: Seq<char>| #[trigger] self.packages@.contains_key(k) <==> exists|j: int| 0 <= j < pairs.len() && pairs[j].0 == k,
                crate::strmap::keys_distinct(pairs),
                forall|k: Seq<char>|
                    #[trigger] packages@.contains_key(k) <==> (exists|j: int|
                        0 <= j < i && pairs[j].0 == k) && rsplit_once(k, '@') is Some,
                forall|k: Seq<char>|
                    #[trigger] packages@.contains_key(k) ==> is_unlocked_of(
                        packages@[k],
                        k,
                        self.packages@[k],
                    ),
            decreases n - i,
        {
            let id = self.packages.key_at(i);
            let locked = self.packages.value_at(i);
            let ghost before = packages@;
            match rsplit_once_str(id.as_str(), '@') {
                None => {},
                Some((name, version)) => {
                    let p = unlock_package(name, version, locked);
                    packages.insert(id.clone(), p);
                },
            }
            proof {
                assert forall|k: Seq<char>|
                    #[trigger] packages@.contains_key(k) <==> (exists|j: int|
                        0 <= j < i + 1 && pairs[j].0 == k) && rsplit_once(k, '@') is Some by {
                    if k == id@ {
                        assert(pairs[i as int].0 == k);
                    } else {
                        if (exists|j: int| 0 <= j < i + 1 && pairs[j].0 == k) {
                            let j = choose|j: int| 0 <= j < i + 1 && pairs[j].0 == k;
                            assert(j != i);
                        }
                    }
                }
            }
            i += 1;
        }
        Resolution { packages, roots: self.roots.duplicate(), warnings: Vec::new() }
    }

    /// Whether this lockfile still satisfies the project's declared direct
    /// dependencies. Conservative: a range or version that does not parse
    /// (npm aliases, dist-tags, URLs) gives `false`, forcing a fresh
    /// resolution.
    pub fn matches_manifest(&self, manifest: &StrMap<String>) -> (b: bool)
        ensures
            b == matches_spec(*self, manifest@, manifest.pairs().len()),
    {
        let ghost mp = manifest.pairs();
        let m = manifest.len();
        if self.roots.len() != m {
            return false;
        }
        let mut i: usize = 0;
        while i < m
            invariant
                i <= m == mp.len(),
                mp == manifest.pairs(),
                forall|j: int|
                    0 <= j < mp.len() ==> manifest@.contains_key(#[trigger] mp[j].0)
                        && manifest@[mp[j].0] == mp[j].1,
                forall|k: Seq<char>| #[trigger] manifest@.contains_key(k) <==> exists|j: int| 0 <= j < mp.len() && mp[j].0 == k,
                forall|j: int|
                    0 <= j < i ==> {
                        let alias = #[trigger] mp[j].0;
                        &&& self.roots@.contains_key(alias)
                        &&& rsplit_once(self.roots@[alias]@, '@') matches Some((_, version)) && {
                            &&& semver_range_parse(manifest@[alias]@) is Ok
                            &&& semver_version_parse(version) matches Some(v)
                                && semver_range_satisfies(manifest@[alias]@, v)
                        }
                    },
            decreases m - i,
        {
            let alias = manifest.key_at(i);
            let range = manifest.value_at(i);
            let id = match self.roots.get(alias.as_str()) {
                Some(id) => id,
                None => return false,
            };
            let version = match rsplit_once_str(id.as_str(), '@') {
                Some((_, v)) => v,
                None => return false,
            };
            let r = match parse_range(range.as_str()) {
                Ok(r) => r,
                Err(_) => return false,
            };
            let v = match parse_version(version.as_str()) {
                Some(v) => v,
                None => return false,
            };
            if !range_satisfies(&r, &v) {
                return false;
            }
            i += 1;
        }
        let rn = self.roots.len();
        let ghost rp = self.roots.pairs();
        let mut i: usize = 0;
        while i < rn
            invariant
                i <= rn == rp.len(),
                rp == self.roots.pairs(),
                forall|j: int|
                    0 <= j < rp.len() ==> self.roots@.contains_key(#[trigger] rp[j].0)
                        && self.roots@[rp[j].0] == rp[j].1,
                forall|k: Seq<char>| #[trigger] self.roots@.contains_key(k) <==> exists|j: int| 0 <= j < rp.len() && rp[j].0 == k,
                forall|j: int| 0 <= j < i ==> self.packages@.contains_key((#[trigger] rp[j]).1@),
            decreases rn - i,
        {
            if !self.packages.contains_key(self.roots.value_at(i).as_str()) {
                assert(self.roots@.contains_key(rp[i as int].0));
                return false;
            }
            i += 1;
        }
        let pn = self.packages.len();
        let ghost pp = self.packages.pairs();
        let mut i: usize = 0;
        while i < pn
            invariant
                i <= pn == pp.len(),
                pp == self.packages.pairs(),
                forall|j: int|
                    0 <= j < pp.len() ==> self.packages@.contains_key(#[trigger] pp[j].0)
                        && self.packages@[pp[j].0] == pp[j].1,
                forall|k: Seq<char>| #[trigger] self.packages@.contains_key(k) <==> exists|j: int| 0 <= j < pp.len() && pp[j].0 == k,
                forall|j: int, a: Seq<char>|
                    0 <= j < i && #[trigger] pp[j].1.dependencies@.contains_key(a) ==> self.packages@.contains_key(pp[j].1.dependencies@[a]@),
            decreases pn - i,
        {
            let deps = &self.packages.value_at(i).dependencies;
            let dn = deps.len();
            let ghost dp = deps.pairs();
            let mut k: usize = 0;
            while k < dn
                invariant
                    k <= dn == dp.len(),
                    dp == deps.pairs(),
                    i < pp.len(),
                    pp == self.packages.pairs(),
                    self.packages@.contains_key(pp[i as int].0),
                    self.packages@[pp[i as int].0] == pp[i as int].1,
                    *deps == pp[i as int].1.dependencies,
                    forall|j: int|
                        0 <= j < dp.len() ==> deps@.contains_key(#[trigger] dp[j].0)
                            && deps@[dp[j].0] == dp[j].1,
                    forall|a: Seq<char>| #[trigger] deps@.contains_key(a) <==> exists|j: int| 0 <= j < dp.len() && dp[j].0 == a,
                    forall|j: int| 0 <= j < k ==> self.packages@.contains_key((#[trigger] dp[j]).1@),
                decreases dn - k,
            {
                if !self.packages.contains_key(deps.value_at(k).as_str()) {
                    assert(self.packages@.contains_key(pp[i as int].0));
                    assert(deps@.contains_key(dp[k as int].0));
                    assert(self.packages@[pp[i as int].0].dependencies@.contains_key(dp[k as int].0));
                    return false;
                }
                k += 1;
            }
            proof {
                assert forall|a: Seq<char>| #[trigger] deps@.contains_key(a) implies self.packages@.contains_key(deps@[a]@) by {
                    let j = choose|j: int| 0 <= j < dp.len() && dp[j].0 == a;
                    assert(dp[j].0 == a);
                }
            }
            i += 1;
        }
        proof {
            assert forall|alias: Seq<char>| #[trigger] manifest@.contains_key(alias) implies {
                &&& self.roots@.contains_key(alias)
                &&& rsplit_once(self.roots@[alias]@, '@') matches Some((_, version)) && {
                    &&& semver_range_parse(manifest@[alias]@) is Ok
                    &&& semver_version_parse(version) matches Some(v) && semver_range_satisfies(
                        manifest@[alias]@,
                        v,
                    )
                }
            } by {
                let j = choose|j: int| 0 <= j < mp.len() && mp[j].0 == alias;
                assert(mp[j].0 == alias);
            }
            assert forall|alias: Seq<char>| #[trigger] self.roots@.contains_key(alias) implies self.packages@.contains_key(
                self.roots@[alias]@,
            ) by {
                let j = choose|j: int| 0 <= j < rp.len() && rp[j].0 == alias;
                assert(rp[j].0 == alias);
            }
            assert forall|k: Seq<char>, a: Seq<char>|
                #[trigger] self.packages@.contains_key(k) && #[trigger] self.packages@[k].dependencies@.contains_key(a)
                    implies self.packages@.contains_key(self.packages@[k].dependencies@[a]@) by {
                let j = choose|j: int| 0 <= j < pp.len() && pp[j].0 == k;
                assert(pp[j].0 == k);
                assert(pp[j].1.dependencies@.contains_key(a));
            }
        }
        true
    }
}

/// Whether every package of a resolution is keyed by its own id, and no
/// version holds an `@` (so that the id splits back into name and version).
pub open spec fn well_keyed(res: Resolution) -> bool {
    forall|k: Seq<char>|
        #[trigger] res.packages@.contains_key(k) ==> package_id(
            res.packages@[k].name@,
            res.packages@[k].version@,
        ) == k && !res.packages@[k].version@.contains('@')
}

proof fn lemma_rsplit_id(name: Seq<char>, version: Seq<char>)
    requires
        !version.contains('@'),
    ensures
        rsplit_once(package_id(name, version), '@') == Some((name, version)),
{
    let s = package_id(name, version);
    let n = name.len() as int;
    assert(s[n] == '@');
    assert forall|j: int| n < j < s.len() implies s[j] != '@' by {
        assert(s[j] == version[j - n - 1]);
    }
    let w = choose|w: int| 0 <= w < s.len() && s[w] == '@' && forall|j: int| w < j < s.len() ==> s[j] != '@';
    assert(crate::text::last_index_of(s, '@') == Some(n)) by {
        if w < n {
            assert(s[n] == '@');
        } else if w > n {
        }
    }
    assert(s.subrange(0, n) =~= name);
    assert(s.subrange(n + 1, s.len() as int) =~= version);
}

/// A lockfile rebuilds the resolution it was made from: the same packages
/// under the same keys, with their names, versions, graph edges, tarball,
/// SHA-1 and integrity (an empty SRI reads back as none) and their
/// lifecycle scripts; and the same roots. This holds where every package is
/// keyed by its id and no version holds an `@`.
pub proof fn lemma_lockfile_roundtrip(
    res: Resolution,
    reports: Map<Seq<char>, AuditReport>,
    sources: Seq<String>,
    now: Seq<char>,
    lock: Lockfile,
    back: Resolution,
)
    requires
        well_keyed(res),
        lockfile_of(lock, res, reports, sources, now),
        resolution_of(back, lock),
    ensures
        back.roots@ == res.roots@,
        back.packages@.dom() == res.packages@.dom(),
        forall|k: Seq<char>|
            #[trigger] back.packages@.contains_key(k) ==> {
                let p = back.packages@[k];
                let q = res.packages@[k];
                &&& p.name@ == q.name@
                &&& p.version@ == q.version@
                &&& p.deps@ == q.deps@
                &&& p.meta.dist.tarball@ == q.meta.dist.tarball@
                &&& opt_string_view(p.meta.dist.shasum) == opt_string_view(q.meta.dist.shasum)
                &&& opt_string_view(p.meta.dist.integrity) == nonempty(
                    opt_string_view(q.meta.dist.integrity),
                )
                &&& p.meta.scripts@ == lifecycle_scripts(q.meta.scripts@)
            },
{
    assert forall|k: Seq<char>| #[trigger] res.packages@.contains_key(k) implies back.packages@.contains_key(k)
        && sole_id(res.packages@, k) by {
        let q = res.packages@[k];
        lemma_rsplit_id(q.name@, q.version@);
        assert(lock.packages@.contains_key(package_id(q.name@, q.version@)));
    }
    assert forall|k: Seq<char>| #[trigger] back.packages@.contains_key(k) implies res.packages@.contains_key(k) by {
        assert(lock.packages@.contains_key(k));
        let k0 = choose|k0: Seq<char>|
            #[trigger] res.packages@.contains_key(k0) && package_id(
                res.packages@[k0].name@,
                res.packages@[k0].version@,
            ) == k;
        assert(res.packages@.contains_key(k0));
    }
    assert(back.packages@.dom() =~= res.packages@.dom());
    assert forall|k: Seq<char>| #[trigger] back.packages@.contains_key(k) implies {
        let p = back.packages@[k];
        let q = res.packages@[k];
        &&& p.name@ == q.name@
        &&& p.version@ == q.version@
        &&& p.deps@ == q.deps@
        &&& p.meta.dist.tarball@ == q.meta.dist.tarball@
        &&& opt_string_view(p.meta.dist.shasum) == opt_string_view(q.meta.dist.shasum)
        &&& opt_string_view(p.meta.dist.integrity) == nonempty(opt_string_view(q.meta.dist.integrity))
        &&& p.meta.scripts@ == lifecycle_scripts(q.meta.scripts@)
    } by {
        let q = res.packages@[k];
        assert(res.packages@.contains_key(k));
        lemma_rsplit_id(q.name@, q.version@);
        assert(is_locked_of(lock.packages@[k], q, reports, sources, now));
    }
}

} // verus!
