//! The security layer: integrity, advisories, lifecycle-script analysis and
//! reputation signals, all decided before a package is linked.
//!
//! Each package passes this gate before its files are linked into the
//! project: integrity (fail-closed), advisories from OSV.dev, and the static
//! scan of its lifecycle scripts.

pub mod cache;
pub mod integrity;
pub mod osv;
pub mod reputation;
pub mod static_scan;
pub mod typosquat;

use crate::audit::osv::{is_critical_severity, Advisory};
use crate::audit::static_scan::{
    any_block, finding_views, has_block, scan, scan_spec, Finding, FindingView, Severity,
    LIFECYCLE_SCRIPTS,
};
use crate::config::Config;
use crate::error::VaultError;
use crate::registry::VersionMeta;
use crate::text::{join, join_strings, str_eq, string_views};
use vstd::prelude::*;

verus! {

/// Aggregated audit outcome for one package.
#[derive(Debug, Clone)]
pub struct AuditReport {
    pub advisories: Vec<Advisory>,
    pub findings: Vec<Finding>,
    /// Lifecycle hooks present on the package (skipped, not executed).
    pub lifecycle_hooks: Vec<String>,
}

impl Default for AuditReport {
    fn default() -> (r: Self)
        ensures
            r.advisories@.len() == 0,
            r.findings@.len() == 0,
            r.lifecycle_hooks@.len() == 0,
    {
        AuditReport { advisories: Vec::new(), findings: Vec::new(), lifecycle_hooks: Vec::new() }
    }
}

/// Whether some advisory is critical or high.
pub open spec fn any_critical(advs: Seq<Advisory>) -> bool {
    exists|i: int| 0 <= i < advs.len() && is_critical_severity(#[trigger] advs[i].severity@)
}

impl AuditReport {
    /// Whether the package is clean of advisories and blocking findings (a
    /// report with warnings only is clean).
    pub fn is_clean(&self) -> (b: bool)
        ensures
            b == (self.advisories@.len() == 0 && !any_block(finding_views(self.findings@))),
    {
        self.advisories.len() == 0 && !has_block(self.findings.as_slice())
    }

    /// Whether some advisory is critical or high.
    pub fn has_critical_cve(&self) -> (b: bool)
        ensures
            b == any_critical(self.advisories@),
    {
        let mut i: usize = 0;
        while i < self.advisories.len()
            invariant
                i <= self.advisories@.len(),
                forall|k: int|
                    0 <= k < i ==> !is_critical_severity(#[trigger] self.advisories@[k].severity@),
            decreases self.advisories@.len() - i,
        {
            if self.advisories[i].is_critical() {
                return true;
            }
            i += 1;
        }
        false
    }
}

/// Whether the configuration lists OSV among its advisory sources.
pub open spec fn osv_source(cfg: Config) -> bool {
    exists|i: int| 0 <= i < cfg.audit.sources@.len() && #[trigger] cfg.audit.sources@[i]@ == "osv"@
}

/// Whether advisories are to be looked up on OSV at all.
pub fn osv_enabled(cfg: &Config) -> (b: bool)
    ensures
        b == osv_source(*cfg),
{
    let mut i: usize = 0;
    while i < cfg.audit.sources.len()
        invariant
            i <= cfg.audit.sources@.len(),
            forall|k: int| 0 <= k < i ==> #[trigger] cfg.audit.sources@[k]@ != "osv"@,
        decreases cfg.audit.sources@.len() - i,
    {
        if str_eq(cfg.audit.sources[i].as_str(), "osv") {
            return true;
        }
        i += 1;
    }
    false
}

/// The ids of the critical or high advisories among the first `n`, in order.
pub open spec fn critical_ids(advs: Seq<Advisory>, n: nat) -> Seq<Seq<char>>
    decreases n,
{
    if n == 0 {
        Seq::empty()
    } else {
        critical_ids(advs, (n - 1) as nat) + if is_critical_severity(advs[n - 1].severity@) {
            seq![advs[n - 1].id@]
        } else {
            Seq::empty()
        }
    }
}

/// `explanation (script)` for each blocking finding among the first `n`.
pub open spec fn block_reasons(fs: Seq<FindingView>, n: nat) -> Seq<Seq<char>>
    decreases n,
{
    if n == 0 {
        Seq::empty()
    } else {
        block_reasons(fs, (n - 1) as nat) + if fs[n - 1].severity == Severity::Block {
            seq![fs[n - 1].explanation + " ("@ + fs[n - 1].script + ")"@]
        } else {
            Seq::empty()
        }
    }
}

/// The lifecycle hooks among the first `n` that a scripts map defines.
pub open spec fn hooks_present(scripts: Map<Seq<char>, String>, n: nat) -> Seq<Seq<char>>
    decreases n,
{
    if n == 0 {
        Seq::empty()
    } else {
        hooks_present(scripts, (n - 1) as nat) + if scripts.contains_key(
            LIFECYCLE_SCRIPTS[n - 1]@,
        ) {
            seq![LIFECYCLE_SCRIPTS[n - 1]@]
        } else {
            Seq::empty()
        }
    }
}

/// The reason given when critical advisories block a package.
pub open spec fn cve_block_reason(advs: Seq<Advisory>) -> Seq<char> {
    "critical/high CVE(s): "@ + join(critical_ids(advs, advs.len()), ", "@)
}

/// The reason given when blocking findings stop a package.
pub open spec fn script_block_reason(fs: Seq<FindingView>) -> Seq<char> {
    "malicious lifecycle script: "@ + join(block_reasons(fs, fs.len()), "; "@)
}

/// Whether `e` is the security block of `meta` for `reason`.
pub open spec fn is_security_block(e: VaultError, meta: VersionMeta, reason: Seq<char>) -> bool {
    e matches VaultError::SecurityBlock { name, version, reason: r } && name@ == meta.name@
        && version@ == meta.version@ && r@ == reason
}

/// The advisories an audit takes into account: those looked up, when OSV is
/// an enabled source and a lookup was made.
pub open spec fn counted_advisories(cfg: Config, looked_up: Option<Vec<Advisory>>) -> Seq<
    Advisory,
> {
    if osv_source(cfg) {
        match looked_up {
            Some(v) => v@,
            None => Seq::empty(),
        }
    } else {
        Seq::empty()
    }
}

fn critical_id_list(advs: &Vec<Advisory>) -> (ids: Vec<String>)
    ensures
        string_views(ids@) == critical_ids(advs@, advs@.len()),
{
    let mut ids: Vec<String> = Vec::new();
    let mut i: usize = 0;
    while i < advs.len()
        invariant
            i <= advs@.len(),
            string_views(ids@) == critical_ids(advs@, i as nat),
        decreases advs@.len() - i,
    {
        if advs[i].is_critical() {
            ids.push(advs[i].id.clone());
        }
        assert(string_views(ids@) =~= critical_ids(advs@, (i + 1) as nat));
        i += 1;
    }
    ids
}

fn block_reason_list(fs: &Vec<Finding>) -> (rs: Vec<String>)
    ensures
        string_views(rs@) == block_reasons(finding_views(fs@), fs@.len()),
{
    let ghost views = finding_views(fs@);
    let mut rs: Vec<String> = Vec::new();
    let mut i: usize = 0;
    while i < fs.len()
        invariant
            i <= fs@.len(),
            views == finding_views(fs@),
            string_views(rs@) == block_reasons(views, i as nat),
        decreases fs@.len() - i,
    {
        assert(views[i as int] == fs@[i as int]@);
        if fs[i].severity == Severity::Block {
            let mut r = fs[i].explanation.clone();
            r.append(" (");
            r.append(fs[i].script.as_str());
            r.append(")");
            rs.push(r);
        }
        assert(string_views(rs@) =~= block_reasons(views, (i + 1) as nat));
        i += 1;
    }
    rs
}

/// The audit decision for one package version.
///
/// `looked_up` holds the advisories found for it (from the cache or from
/// OSV), when a lookup was made; they count only when OSV is an enabled
/// source. The report lists them, the findings of the static scan and the
/// lifecycle hooks present. The policy then refuses the package with a
/// [`VaultError::SecurityBlock`]: first for critical or high advisories
/// when `abort_on_critical_cve` is set, then for any blocking finding.
pub fn audit_package(cfg: &Config, meta: &VersionMeta, looked_up: Option<Vec<Advisory>>) -> (r:
    Result<AuditReport, VaultError>)
    ensures
        ({
            let advs = counted_advisories(*cfg, looked_up);
            let fs = scan_spec(meta.scripts@);
            if cfg.security.abort_on_critical_cve && any_critical(advs) {
                r matches Err(e) && is_security_block(e, *meta, cve_block_reason(advs))
            } else if any_block(fs) {
                r matches Err(e) && is_security_block(e, *meta, script_block_reason(fs))
            } else {
                r matches Ok(report) && report.advisories@ == advs && finding_views(
                    report.findings@,
                ) == fs && string_views(report.lifecycle_hooks@) == hooks_present(
                    meta.scripts@,
                    3,
                )
            }
        }),
{
    let mut report = AuditReport::default();
    if osv_enabled(cfg) {
        if let Some(advs) = looked_up {
            report.advisories = advs;
        }
    }
    assert(report.advisories@ == counted_advisories(*cfg, looked_up));

    report.findings = scan(&meta.scripts);
    for h in 0..3
        invariant
            string_views(report.lifecycle_hooks@) == hooks_present(meta.scripts@, h as nat),
            report.advisories@ == counted_advisories(*cfg, looked_up),
            finding_views(report.findings@) == scan_spec(meta.scripts@),
    {
        if meta.scripts.contains_key(LIFECYCLE_SCRIPTS[h]) {
            report.lifecycle_hooks.push(LIFECYCLE_SCRIPTS[h].to_owned());
        }
        assert(string_views(report.lifecycle_hooks@) =~= hooks_present(
            meta.scripts@,
            (h + 1) as nat,
        ));
    }

    if cfg.security.abort_on_critical_cve && report.has_critical_cve() {
        let ids = critical_id_list(&report.advisories);
        let mut reason = "critical/high CVE(s): ".to_owned();
        reason.append(join_strings(&ids, ", ").as_str());
        return Err(
            VaultError::SecurityBlock {
                name: meta.name.clone(),
                version: meta.version.clone(),
                reason,
            },
        );
    }
    if has_block(report.findings.as_slice()) {
        let reasons = block_reason_list(&report.findings);
        let mut reason = "malicious lifecycle script: ".to_owned();
        reason.append(join_strings(&reasons, "; ").as_str());
        return Err(
            VaultError::SecurityBlock {
                name: meta.name.clone(),
                version: meta.version.clone(),
                reason,
            },
        );
    }
    Ok(report)
}

} // verus!
