//! The decisions of the install pipeline: resolve, audit (metadata only),
//! fetch and verify, link, lock.
//!
//! The security audit runs before any tarball is downloaded or extracted,
//! so a malicious package is refused on its metadata alone whenever
//! possible. The network, the store and the file system are the caller's;
//! here is what the pipeline decides from what they return.

use crate::audit::osv::Advisory;
use crate::audit::reputation::RepWarning;
use crate::audit::AuditReport;
use crate::error::VaultError;
use crate::lockfile::{matches_spec, resolution_of, Lockfile};
use crate::resolver::Resolution;
use crate::strmap::StrMap;
use crate::text::{
    chars_of, first_index_of, join, join_strings, push_char, slice_chars, split_once_char,
    string_of, string_views, u64_to_decimal, decimal, before_char, after_char, str_eq,
};
use vstd::prelude::*;

verus! {

#[verifier::external_type_specification]
#[verifier::external_body]
pub struct ExPathBuf(std::path::PathBuf);

/// Options controlling an install run.
pub struct InstallOptions {
    pub project_dir: std::path::PathBuf,
    pub include_dev: bool,
    /// When true, security blocks are downgraded to warnings (`--force`).
    pub force: bool,
    /// When true, any advisory (not just critical) blocks the install.
    pub strict: bool,
    /// When true, require an up-to-date `vault.lock` and never modify it
    /// (`--frozen-lockfile`).
    pub frozen: bool,
}

impl InstallOptions {
    /// The default options for a project: dev dependencies included, no
    /// override, not strict, lockfile may be refreshed.
    pub fn new(project_dir: std::path::PathBuf) -> (o: Self)
        ensures
            o.project_dir == project_dir,
            o.include_dev,
            !o.force,
            !o.strict,
            !o.frozen,
    {
        InstallOptions { project_dir, include_dev: true, force: false, strict: false, frozen: false }
    }
}

/// Summary returned after an install or an audit.
#[derive(Debug)]
pub struct InstallSummary {
    pub resolved: usize,
    pub downloaded: usize,
    pub advisories: usize,
    pub warnings: Vec<String>,
    pub blocked: Vec<String>,
}

impl Default for InstallSummary {
    fn default() -> (s: Self)
        ensures
            s.resolved == 0,
            s.downloaded == 0,
            s.advisories == 0,
            s.warnings@.len() == 0,
            s.blocked@.len() == 0,
    {
        InstallSummary {
            resolved: 0,
            downloaded: 0,
            advisories: 0,
            warnings: Vec::new(),
            blocked: Vec::new(),
        }
    }
}

/// How a `name[@range]` spec splits: a scoped name (`@scope/name`) keeps
/// its leading `@`, and the range follows the next `@`.
pub open spec fn spec_parts(spec: Seq<char>) -> (Seq<char>, Option<Seq<char>>) {
    if spec.len() > 0 && spec[0] == '@' {
        let rest = spec.subrange(1, spec.len() as int);
        match first_index_of(rest, '@') {
            Some(at) => (
                seq!['@'] + rest.subrange(0, at),
                Some(rest.subrange(at + 1, rest.len() as int)),
            ),
            None => (spec, None),
        }
    } else {
        match after_char(spec, '@') {
            Some(range) => (before_char(spec, '@'), Some(range)),
            None => (spec, None),
        }
    }
}

/// Split a `name@range` (or scoped `@scope/name@range`) spec.
pub fn parse_spec(spec: &str) -> (r: (String, Option<String>))
    ensures
        r.0@ == spec_parts(spec@).0,
        match r.1 {
            Some(range) => spec_parts(spec@).1 == Some(range@),
            None => spec_parts(spec@).1 is None,
        },
{
    let v = chars_of(spec);
    if v.len() > 0 && v[0] == '@' {
        let rest = slice_chars(&v, 1, v.len());
        let (name, range) = split_once_char(&rest, '@');
        match range {
            Some(range) => {
                let mut n = String::new();
                push_char(&mut n, '@');
                n.append(string_of(&name).as_str());
                proof {
                    let at = first_index_of(rest@, '@')->0;
                    assert(n@ =~= seq!['@'] + rest@.subrange(0, at));
                }
                return (n, Some(string_of(&range)));
            },
            None => return (spec.to_owned(), None),
        }
    }
    let (name, range) = split_once_char(&v, '@');
    match range {
        Some(range) => (string_of(&name), Some(string_of(&range))),
        None => (spec.to_owned(), None),
    }
}

/// The range `add` records for a package given without one: a caret range
/// on its `latest` dist-tag, or `*` when it has none (or it is `*`).
pub open spec fn default_range_text(latest: Option<Seq<char>>) -> Seq<char> {
    match latest {
        Some(l) => if l == "*"@ {
            "*"@
        } else {
            "^"@ + l
        },
        None => "*"@,
    }
}

/// The range `add` records for a package given without one.
pub fn default_range(latest: Option<&String>) -> (r: String)
    ensures
        r@ == default_range_text(
            match latest {
                Some(l) => Some(l@),
                None => None,
            },
        ),
{
    match latest {
        Some(l) => {
            if str_eq(l.as_str(), "*") {
                "*".to_owned()
            } else {
                let mut r = "^".to_owned();
                r.append(l.as_str());
                r
            }
        },
        None => "*".to_owned(),
    }
}

/// The message of a frozen install without an up-to-date lockfile.
pub open spec fn frozen_message() -> Seq<char> {
    "--frozen-lockfile: vault.lock is missing or out of date"@
}

/// Where an install takes its graph from: a lockfile that still matches the
/// manifest is used as it is (`Ok(Some(..))`); without one, a frozen install
/// fails, and any other resolves afresh (`Ok(None)`).
pub fn choose_lockfile(locked: Option<Lockfile>, roots: &StrMap<String>, frozen: bool) -> (r: Result<
    Option<Resolution>,
    VaultError,
>)
    ensures
        match locked {
            Some(lock) if matches_spec(lock, roots@, roots.pairs().len()) => r matches Ok(Some(res))
                && resolution_of(res, lock),
            _ => if frozen {
                r matches Err(VaultError::Config(m)) && m@ == frozen_message()
            } else {
                r matches Ok(None)
            },
        },
{
    if let Some(lock) = locked {
        if lock.matches_manifest(roots) {
            return Ok(Some(lock.to_resolution()));
        }
    }
    if frozen {
        return Err(
            VaultError::Config("--frozen-lockfile: vault.lock is missing or out of date".to_owned()),
        );
    }
    Ok(None)
}

/// `name: message` for each resolution warning.
pub open spec fn resolution_warning_lines(res: Resolution) -> Seq<Seq<char>> {
    res.warnings@.map_values(|w: crate::resolver::ResolutionWarning| w.name@ + ": "@ + w.message@)
}

/// The summary a project audit starts from: the number of resolved
/// packages, and nothing else yet.
pub fn start_audit_summary(res: &Resolution) -> (s: InstallSummary)
    ensures
        s.resolved == res.packages.pairs().len(),
        s.downloaded == 0,
        s.advisories == 0,
        s.warnings@.len() == 0,
        s.blocked@.len() == 0,
{
    let mut s = InstallSummary::default();
    s.resolved = res.packages.len();
    s
}

/// The summary an install starts from: the number of resolved packages
/// and the resolution's warnings.
pub fn start_summary(res: &Resolution) -> (s: InstallSummary)
    ensures
        s.resolved == res.packages.pairs().len(),
        s.downloaded == 0,
        s.advisories == 0,
        string_views(s.warnings@) == resolution_warning_lines(*res),
        s.blocked@.len() == 0,
{
    let mut s = InstallSummary::default();
    s.resolved = res.packages.len();
    let mut i: usize = 0;
    while i < res.warnings.len()
        invariant
            i <= res.warnings@.len(),
            s.resolved == res.packages.pairs().len(),
            s.downloaded == 0,
            s.advisories == 0,
            s.blocked@.len() == 0,
            string_views(s.warnings@) == resolution_warning_lines(*res).take(i as int),
        decreases res.warnings@.len() - i,
    {
        let w = &res.warnings[i];
        let mut line = w.name.clone();
        line.append(": ");
        line.append(w.message.as_str());
        let ghost before = s.warnings@;
        let ghost lv = line@;
        s.warnings.push(line);
        assert(string_views(s.warnings@) =~= string_views(before).push(lv));
        assert(resolution_warning_lines(*res).take(i + 1) =~= resolution_warning_lines(*res).take(
            i as int,
        ).push(lv));
        i += 1;
    }
    assert(resolution_warning_lines(*res).take(res.warnings@.len() as int) =~= resolution_warning_lines(
        *res,
    ));
    s
}

/// The warning line of an advisory of package `id`, with the advisory's id
/// shown as `shown`.
pub open spec fn advisory_line(id: Seq<char>, shown: Seq<char>, adv: Advisory) -> Seq<char> {
    id + ": "@ + shown + " ["@ + adv.severity@ + "] "@ + adv.summary@ + match adv.fixed {
        Some(v) => " — fix: upgrade to >= "@ + v@,
        None => Seq::empty(),
    }
}

/// The advisory lines of a report, in order.
pub open spec fn advisory_lines(id: Seq<char>, shown: Seq<String>, advs: Seq<Advisory>) -> Seq<
    Seq<char>,
> {
    Seq::new(advs.len(), |i: int| advisory_line(id, shown[i]@, advs[i]))
}

/// The warning of a package that has lifecycle scripts.
pub open spec fn hooks_line(id: Seq<char>, hooks: Seq<String>) -> Seq<char> {
    id + ": has lifecycle scripts ("@ + join(string_views(hooks), ", "@)
        + ") — run them sandboxed with `vault run`"@
}

fn push_advisory_lines(
    warnings: &mut Vec<String>,
    id: &str,
    shown: &Vec<String>,
    advs: &Vec<Advisory>,
)
    requires
        shown@.len() == advs@.len(),
    ensures
        string_views(final(warnings)@) == string_views(old(warnings)@) + advisory_lines(
            id@,
            shown@,
            advs@,
        ),
{
    let ghost start = string_views(warnings@);
    let mut i: usize = 0;
    while i < advs.len()
        invariant
            i <= advs@.len() == shown@.len(),
            string_views(warnings@) == start + advisory_lines(id@, shown@, advs@).take(i as int),
        decreases advs@.len() - i,
    {
        let adv = &advs[i];
        let mut line = id.to_owned();
        line.append(": ");
        line.append(shown[i].as_str());
        line.append(" [");
        line.append(adv.severity.as_str());
        line.append("] ");
        line.append(adv.summary.as_str());
        match &adv.fixed {
            Some(v) => {
                line.append(" — fix: upgrade to >= ");
                line.append(v.as_str());
            },
            None => {},
        }
        let ghost before = warnings@;
        let ghost lv = line@;
        warnings.push(line);
        assert(string_views(warnings@) =~= string_views(before).push(lv));
        assert(lv == advisory_line(id@, shown@[i as int]@, advs@[i as int]));
        assert(advisory_lines(id@, shown@, advs@).take(i + 1) =~= advisory_lines(
            id@,
            shown@,
            advs@,
        ).take(i as int).push(advisory_line(id@, shown@[i as int]@, advs@[i as int])));
        assert(string_views(warnings@) =~= start + advisory_lines(id@, shown@, advs@).take(i + 1));
        i += 1;
    }
    assert(advisory_lines(id@, shown@, advs@).take(advs@.len() as int) =~= advisory_lines(
        id@,
        shown@,
        advs@,
    ));
}

/// How the audit result of package `id` enters an install summary: the
/// advisories are counted and listed (with the shown ids), a package with
/// lifecycle scripts is noted, and the report is kept under `id`; a
/// security block is listed as blocked; any other error fails the install.
pub open spec fn install_audit_recorded(
    before: InstallSummary,
    after: InstallSummary,
    reports_before: Map<Seq<char>, AuditReport>,
    reports_after: Map<Seq<char>, AuditReport>,
    id: Seq<char>,
    result: Result<AuditReport, VaultError>,
    shown: Seq<String>,
    r: Result<(), VaultError>,
) -> bool {
    &&& after.resolved == before.resolved
    &&& after.downloaded == before.downloaded
    &&& match result {
        Ok(report) => {
            &&& r is Ok
            &&& after.advisories == before.advisories + report.advisories@.len()
            &&& string_views(after.warnings@) == string_views(before.warnings@) + advisory_lines(
                id,
                shown,
                report.advisories@,
            ) + if report.lifecycle_hooks@.len() > 0 {
                seq![hooks_line(id, report.lifecycle_hooks@)]
            } else {
                Seq::empty()
            }
            &&& after.blocked == before.blocked
            &&& reports_after == reports_before.insert(id, report)
        },
        Err(VaultError::SecurityBlock { reason, .. }) => {
            &&& r is Ok
            &&& after.advisories == before.advisories
            &&& after.warnings == before.warnings
            &&& string_views(after.blocked@) == string_views(before.blocked@).push(
                id + ": "@ + reason@,
            )
            &&& reports_after == reports_before
        },
        Err(e) => r == Err::<(), VaultError>(e) && after == before && reports_after
            == reports_before,
    }
}

/// Records the audit result of package `id` in an install summary.
/// `shown` holds how each advisory id is displayed.
pub fn record_install_audit(
    summary: &mut InstallSummary,
    reports: &mut StrMap<AuditReport>,
    id: String,
    result: Result<AuditReport, VaultError>,
    shown: &Vec<String>,
) -> (r: Result<(), VaultError>)
    requires
        result matches Ok(report) ==> shown@.len() == report.advisories@.len()
            && old(summary).advisories + report.advisories@.len() <= usize::MAX,
    ensures
        install_audit_recorded(
            *old(summary),
            *final(summary),
            old(reports)@,
            final(reports)@,
            id@,
            result,
            shown@,
            r,
        ),
{
    match result {
        Ok(report) => {
            summary.advisories = summary.advisories + report.advisories.len();
            push_advisory_lines(&mut summary.warnings, id.as_str(), shown, &report.advisories);
            if report.lifecycle_hooks.len() > 0 {
                let ghost mid = string_views(summary.warnings@);
                let mut line = id.clone();
                line.append(": has lifecycle scripts (");
                line.append(join_strings(&report.lifecycle_hooks, ", ").as_str());
                line.append(") — run them sandboxed with `vault run`");
                let ghost before = summary.warnings@;
                let ghost lv = line@;
                summary.warnings.push(line);
                assert(string_views(summary.warnings@) =~= string_views(before).push(lv));
                assert(lv =~= hooks_line(id@, report.lifecycle_hooks@));
                assert(string_views(summary.warnings@) =~= string_views(old(summary).warnings@)
                    + advisory_lines(id@, shown@, report.advisories@) + seq![
                    hooks_line(id@, report.lifecycle_hooks@)]);
            } else {
                assert(string_views(summary.warnings@) =~= string_views(old(summary).warnings@)
                    + advisory_lines(id@, shown@, report.advisories@) + Seq::<Seq<char>>::empty());
            }
            reports.insert(id, report);
            Ok(())
        },
        Err(VaultError::SecurityBlock { name, version, reason }) => {
            let mut line = id;
            line.append(": ");
            line.append(reason.as_str());
            summary.blocked.push(line);
            assert(string_views(summary.blocked@) =~= string_views(old(summary).blocked@).push(
                line@,
            ));
            Ok(())
        },
        Err(e) => Err(e),
    }
}

/// How the audit result of package `id` enters the summary of an audit
/// without install: advisories counted and listed, a security block listed
/// as blocked, any other error fails the audit.
pub open spec fn project_audit_recorded(
    before: InstallSummary,
    after: InstallSummary,
    id: Seq<char>,
    result: Result<AuditReport, VaultError>,
    shown: Seq<String>,
    r: Result<(), VaultError>,
) -> bool {
    &&& after.resolved == before.resolved
    &&& after.downloaded == before.downloaded
    &&& match result {
        Ok(report) => {
            &&& r is Ok
            &&& after.advisories == before.advisories + report.advisories@.len()
            &&& string_views(after.warnings@) == string_views(before.warnings@) + advisory_lines(
                id,
                shown,
                report.advisories@,
            )
            &&& after.blocked == before.blocked
        },
        Err(VaultError::SecurityBlock { reason, .. }) => {
            &&& r is Ok
            &&& after.advisories == before.advisories
            &&& after.warnings == before.warnings
            &&& string_views(after.blocked@) == string_views(before.blocked@).push(
                id + ": "@ + reason@,
            )
        },
        Err(e) => r == Err::<(), VaultError>(e) && after == before,
    }
}

/// Records the audit result of package `id` in the summary of an audit
/// without install.
pub fn record_project_audit(
    summary: &mut InstallSummary,
    id: String,
    result: Result<AuditReport, VaultError>,
    shown: &Vec<String>,
) -> (r: Result<(), VaultError>)
    requires
        result matches Ok(report) ==> shown@.len() == report.advisories@.len()
            && old(summary).advisories + report.advisories@.len() <= usize::MAX,
    ensures
        project_audit_recorded(*old(summary), *final(summary), id@, result, shown@, r),
{
    match result {
        Ok(report) => {
            summary.advisories = summary.advisories + report.advisories.len();
            push_advisory_lines(&mut summary.warnings, id.as_str(), shown, &report.advisories);
            Ok(())
        },
        Err(VaultError::SecurityBlock { name, version, reason }) => {
            let mut line = id;
            line.append(": ");
            line.append(reason.as_str());
            summary.blocked.push(line);
            assert(string_views(summary.blocked@) =~= string_views(old(summary).blocked@).push(
                line@,
            ));
            Ok(())
        },
        Err(e) => Err(e),
    }
}

/// In strict mode any advisory blocks: `n advisory/ies present and --strict
/// is set` is added to the blocked list when there are advisories.
pub fn apply_strict(summary: &mut InstallSummary, strict: bool)
    ensures
        final(summary).resolved == old(summary).resolved,
        final(summary).downloaded == old(summary).downloaded,
        final(summary).advisories == old(summary).advisories,
        final(summary).warnings == old(summary).warnings,
        if strict && old(summary).advisories > 0 {
            string_views(final(summary).blocked@) == string_views(old(summary).blocked@).push(
                decimal(old(summary).advisories as nat) + " advisory/ies present and --strict is set"@,
            )
        } else {
            final(summary).blocked == old(summary).blocked
        },
{
    if strict && summary.advisories > 0 {
        let mut line = u64_to_decimal(summary.advisories as u64);
        line.append(" advisory/ies present and --strict is set");
        summary.blocked.push(line);
        assert(string_views(summary.blocked@) =~= string_views(old(summary).blocked@).push(
            line@,
        ));
    }
}

/// The message of an install stopped by blocks.
pub open spec fn blocked_message(n: nat) -> Seq<char> {
    decimal(n) + " package(s) blocked (use --force to override)"@
}

/// Blocks stop the install unless it is forced.
pub fn enforce_blocks(summary: &InstallSummary, force: bool) -> (r: Result<(), VaultError>)
    ensures
        if summary.blocked@.len() > 0 && !force {
            r matches Err(VaultError::Blocked(m)) && m@ == blocked_message(
                summary.blocked@.len(),
            )
        } else {
            r is Ok
        },
{
    if summary.blocked.len() > 0 && !force {
        let mut m = u64_to_decimal(summary.blocked.len() as u64);
        m.append(" package(s) blocked (use --force to override)");
        return Err(VaultError::Blocked(m));
    }
    Ok(())
}

/// The stages of an install, in the order the pipeline runs them. Every
/// package is audited on its metadata before anything is downloaded.
#[derive(Debug, Clone, Copy, PartialEq, Eq, Structural)]
pub enum Stage {
    /// Resolve the graph, or take it from an up-to-date lockfile.
    Resolve,
    /// Audit every package on its metadata (advisories, scripts,
    /// reputation); nothing is downloaded.
    Audit,
    /// Apply strict mode and decide: a blocked package stops the install,
    /// unless forced.
    Verdict,
    /// Download, verify and extract the tarballs.
    Fetch,
    /// Link `node_modules`.
    Link,
    /// Write the lockfile.
    Lock,
    /// Finished.
    Done,
}

/// Whether the audit verdict lets an install through: nothing is blocked,
/// or the install is forced.
pub open spec fn verdict_allows(summary: InstallSummary, force: bool) -> bool {
    summary.blocked@.len() == 0 || force
}

/// The stage that follows `done` when the pipeline goes on; the lockfile is
/// written only when `write_lock` (the graph did not come from it).
pub open spec fn stage_after(done: Stage, write_lock: bool) -> Stage {
    match done {
        Stage::Resolve => Stage::Audit,
        Stage::Audit => Stage::Verdict,
        Stage::Verdict => Stage::Fetch,
        Stage::Fetch => Stage::Link,
        Stage::Link => if write_lock {
            Stage::Lock
        } else {
            Stage::Done
        },
        Stage::Lock => Stage::Done,
        Stage::Done => Stage::Done,
    }
}

/// Where an install goes after stage `done`: the next stage, or `None` when
/// the verdict refuses the install and it stops.
pub open spec fn stage_outcome(
    done: Stage,
    summary: InstallSummary,
    force: bool,
    write_lock: bool,
) -> Option<Stage> {
    if done == Stage::Verdict && !verdict_allows(summary, force) {
        None
    } else {
        Some(stage_after(done, write_lock))
    }
}

/// The stage after `done`. At the verdict, a blocked package stops the install
/// (unless forced) with the error of [`enforce_blocks`].
pub fn next_stage(done: Stage, summary: &InstallSummary, force: bool, write_lock: bool) -> (r:
    Result<Stage, VaultError>)
    ensures
        match stage_outcome(done, *summary, force, write_lock) {
            Some(next) => r == Ok::<Stage, VaultError>(next),
            None => r matches Err(VaultError::Blocked(m)) && m@ == blocked_message(
                summary.blocked@.len(),
            ),
        },
{
    match done {
        Stage::Resolve => Ok(Stage::Audit),
        Stage::Audit => Ok(Stage::Verdict),
        Stage::Verdict => {
            enforce_blocks(summary, force)?;
            Ok(Stage::Fetch)
        },
        Stage::Fetch => Ok(Stage::Link),
        Stage::Link => if write_lock {
            Ok(Stage::Lock)
        } else {
            Ok(Stage::Done)
        },
        Stage::Lock => Ok(Stage::Done),
        Stage::Done => Ok(Stage::Done),
    }
}

/// Audit first, install second: the fetch stage follows only the verdict,
/// and only a verdict that allows the install; the verdict follows only the
/// audit, and the audit only the resolution. So every run that starts at
/// `Resolve` audits the whole graph and is allowed through before any
/// tarball is downloaded.
pub proof fn lemma_audit_before_fetch(
    done: Stage,
    summary: InstallSummary,
    force: bool,
    write_lock: bool,
)
    ensures
        stage_outcome(done, summary, force, write_lock) == Some(Stage::Fetch) ==> done
            == Stage::Verdict && verdict_allows(summary, force),
        stage_outcome(done, summary, force, write_lock) == Some(Stage::Verdict) ==> done
            == Stage::Audit,
        stage_outcome(done, summary, force, write_lock) == Some(Stage::Audit) ==> done
            == Stage::Resolve,
{
}

/// The packages whose reputation is checked: every package when
/// `check_transitive` is set, else the packages the roots lead to.
pub open spec fn reputation_target_ids(res: Resolution, check_transitive: bool) -> Seq<Seq<char>> {
    if check_transitive {
        res.packages.pairs().map_values(|p: (Seq<char>, crate::resolver::ResolvedPackage)| p.0)
    } else {
        res.roots.pairs().map_values(|p: (Seq<char>, String)| p.1@).filter(
            |id: Seq<char>| res.packages@.contains_key(id),
        )
    }
}

/// The ids of the packages whose reputation is checked.
pub fn reputation_targets(res: &Resolution, check_transitive: bool) -> (ids: Vec<String>)
    ensures
        string_views(ids@) == reputation_target_ids(*res, check_transitive),
{
    let mut ids: Vec<String> = Vec::new();
    if check_transitive {
        let n = res.packages.len();
        let mut i: usize = 0;
        while i < n
            invariant
                i <= n == res.packages.pairs().len(),
                string_views(ids@) == res.packages.pairs().take(i as int).map_values(
                    |p: (Seq<char>, crate::resolver::ResolvedPackage)| p.0,
                ),
            decreases n - i,
        {
            let ghost before = ids@;
            let k = res.packages.key_at(i).clone();
            let ghost kv = k@;
            ids.push(k);
            assert(string_views(ids@) =~= string_views(before).push(kv));
            assert(string_views(ids@) =~= res.packages.pairs().take(i + 1).map_values(
                |p: (Seq<char>, crate::resolver::ResolvedPackage)| p.0,
            ));
            i += 1;
        }
        assert(res.packages.pairs().take(n as int) =~= res.packages.pairs());
    } else {
        let n = res.roots.len();
        let ghost all = res.roots.pairs().map_values(|p: (Seq<char>, String)| p.1@);
        let mut i: usize = 0;
        while i < n
            invariant
                i <= n == res.roots.pairs().len(),
                all == res.roots.pairs().map_values(|p: (Seq<char>, String)| p.1@),
                string_views(ids@) == all.take(i as int).filter(
                    |id: Seq<char>| res.packages@.contains_key(id),
                ),
            decreases n - i,
        {
            let id = res.roots.value_at(i);
            let ghost before = ids@;
            if res.packages.contains_key(id.as_str()) {
                ids.push(id.clone());
            }
            proof {
                let t = all.take(i + 1);
                assert(t.drop_last() =~= all.take(i as int));
                assert(t.last() == id@);
                reveal(Seq::filter);
                assert(string_views(ids@) =~= t.filter(
                    |id: Seq<char>| res.packages@.contains_key(id),
                ));
            }
            i += 1;
        }
        assert(all.take(n as int) =~= all);
    }
    ids
}

/// The reputation messages of one package: the assessment's warnings, then
/// the maintainer-change warning if any.
pub fn reputation_messages(warnings: Vec<RepWarning>, maintainer: Option<RepWarning>) -> (msgs:
    Vec<String>)
    ensures
        string_views(msgs@) == warnings@.map_values(|w: RepWarning| w.message@) + match maintainer {
            Some(w) => seq![w.message@],
            None => Seq::empty(),
        },
{
    let mut msgs: Vec<String> = Vec::new();
    let mut i: usize = 0;
    while i < warnings.len()
        invariant
            i <= warnings@.len(),
            string_views(msgs@) == warnings@.take(i as int).map_values(|w: RepWarning| w.message@),
        decreases warnings@.len() - i,
    {
        let ghost before = msgs@;
        let m = warnings[i].message.clone();
        let ghost mv = m@;
        msgs.push(m);
        assert(string_views(msgs@) =~= string_views(before).push(mv));
        assert(string_views(msgs@) =~= warnings@.take(i + 1).map_values(
            |w: RepWarning| w.message@,
        ));
        i += 1;
    }
    assert(warnings@.take(warnings@.len() as int) =~= warnings@);
    if let Some(w) = maintainer {
        let ghost before = string_views(msgs@);
        msgs.push(w.message);
        assert(string_views(msgs@) =~= before.push(w.message@));
    } else {
        assert(string_views(msgs@) =~= warnings@.map_values(|w: RepWarning| w.message@)
            + Seq::<Seq<char>>::empty());
    }
    msgs
}

/// The number of `true` among the first `n` outcomes.
pub open spec fn count_true(rs: Seq<Result<bool, VaultError>>, n: nat) -> nat
    decreases n,
{
    if n == 0 {
        0
    } else {
        count_true(rs, (n - 1) as nat) + if rs[n - 1] matches Ok(true) {
            1nat
        } else {
            0nat
        }
    }
}

/// The outcome of fetching every package: the first error in order, else
/// the number of packages that were downloaded.
pub fn count_downloads(results: Vec<Result<bool, VaultError>>) -> (r: Result<usize, VaultError>)
    ensures
        match r {
            Ok(n) => n == count_true(results@, results@.len()) && forall|i: int|
                0 <= i < results@.len() ==> results@[i] is Ok,
            Err(e) => exists|i: int|
                0 <= i < results@.len() && results@[i] == Err::<bool, VaultError>(e) && forall|j: int|
                    0 <= j < i ==> results@[j] is Ok,
        },
{
    let mut downloaded: usize = 0;
    let mut i: usize = 0;
    while i < results.len()
        invariant
            i <= results@.len(),
            downloaded == count_true(results@, i as nat),
            downloaded <= i,
            forall|j: int| 0 <= j < i ==> results@[j] is Ok,
        decreases results@.len() - i,
    {
        match &results[i] {
            Ok(true) => downloaded = downloaded + 1,
            Ok(false) => {},
            Err(_) => {
                let mut v = results;
                let first = v.remove(i);
                assert(first == results@[i as int]);
                return match first {
                    Err(e) => Err(e),
                    Ok(_) => Ok(downloaded),
                };
            },
        }
        i += 1;
    }
    Ok(downloaded)
}

} // verus!
