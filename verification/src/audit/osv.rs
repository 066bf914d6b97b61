//! Advisories from OSV.dev, normalized.
//!
//! The network query stays outside the library; here the raw advisory
//! records are turned into [`Advisory`] values: severity classification and
//! the recommended upgrade target.

use crate::semver::{
    compare_semver, compare_versions, parse_version, semver_version_parse, version_text,
    version_to_string, SemVersion, VersionView,
};
use crate::text::{has_prefix, str_eq, str_lowercase, str_starts_with, to_lowercase};
use vstd::prelude::*;

verus! {

/// A normalized advisory result.
#[derive(Debug, Clone)]
pub struct Advisory {
    pub id: String,
    pub summary: String,
    /// One of: critical / high / moderate / low / unknown.
    pub severity: String,
    /// The lowest version that fixes this advisory for the installed
    /// version's release line, if known.
    pub fixed: Option<String>,
}

/// Whether a severity text aborts a strict install.
pub open spec fn is_critical_severity(s: Seq<char>) -> bool {
    s == "critical"@ || s == "high"@
}

impl Advisory {
    /// Whether this advisory should abort a strict install.
    pub fn is_critical(&self) -> (b: bool)
        ensures
            b == is_critical_severity(self.severity@),
    {
        str_eq(self.severity.as_str(), "critical") || str_eq(self.severity.as_str(), "high")
    }
}

/// One OSV vulnerability record, as the query returns it.
#[derive(Debug, Clone)]
pub struct OsvVuln {
    pub id: String,
    pub summary: Option<String>,
    pub severity: Vec<OsvSeverity>,
    pub database_specific: Option<DatabaseSpecific>,
    pub affected: Vec<OsvAffected>,
}

/// The affected ranges of a vulnerability.
#[derive(Debug, Clone)]
pub struct OsvAffected {
    pub ranges: Vec<OsvRange>,
}

/// One affected range: a list of introduced/fixed events.
#[derive(Debug, Clone)]
pub struct OsvRange {
    pub events: Vec<OsvEvent>,
}

/// An event of a range.
#[derive(Debug, Clone)]
pub struct OsvEvent {
    pub introduced: Option<String>,
    pub fixed: Option<String>,
}

/// A scored severity entry (`type` and `score`).
#[derive(Debug, Clone)]
pub struct OsvSeverity {
    pub kind: String,
    pub score: String,
}

/// Database-specific fields; GitHub advisories carry a textual severity.
#[derive(Debug, Clone)]
pub struct DatabaseSpecific {
    pub severity: Option<String>,
}

/// The first severity entry whose type starts with `CVSS` and whose score
/// was bucketed, among the first `n` entries.
pub open spec fn first_cvss_bucket(
    sev: Seq<OsvSeverity>,
    buckets: Seq<Option<String>>,
    n: nat,
) -> Option<Seq<char>>
    decreases n,
{
    if n == 0 {
        None
    } else {
        match first_cvss_bucket(sev, buckets, (n - 1) as nat) {
            Some(b) => Some(b),
            None => if has_prefix(sev[n - 1].kind@, "CVSS"@) && n - 1 < buckets.len() && buckets[n
                - 1] is Some {
                Some(buckets[n - 1]->0@)
            } else {
                None
            },
        }
    }
}

/// The severity of a vulnerability: the lowercased database-specific text
/// when there is one; else the bucket of the first CVSS score that parses;
/// else `unknown`.
pub open spec fn severity_class(v: OsvVuln, buckets: Seq<Option<String>>) -> Seq<char> {
    if v.database_specific is Some && v.database_specific->0.severity is Some {
        str_lowercase(v.database_specific->0.severity->0@)
    } else {
        match first_cvss_bucket(v.severity@, buckets, v.severity@.len()) {
            Some(b) => b,
            None => "unknown"@,
        }
    }
}

/// Best-effort severity classification from OSV's heterogeneous fields.
///
/// `cvss_buckets[i]` is the bucket (`critical`, `high`, `moderate`, `low`
/// or `unknown`) of the numeric score of severity entry `i`, or `None` when
/// that score is not a plain number (or the entry has no bucket given).
pub fn classify_severity(v: &OsvVuln, cvss_buckets: &Vec<Option<String>>) -> (s: String)
    ensures
        s@ == severity_class(*v, cvss_buckets@),
{
    if let Some(ds) = &v.database_specific {
        if let Some(sev) = &ds.severity {
            return to_lowercase(sev.as_str());
        }
    }
    let mut i: usize = 0;
    while i < v.severity.len()
        invariant
            i <= v.severity@.len(),
            !(v.database_specific is Some && v.database_specific->0.severity is Some),
            first_cvss_bucket(v.severity@, cvss_buckets@, i as nat) is None,
        decreases v.severity@.len() - i,
    {
        if str_starts_with(v.severity[i].kind.as_str(), "CVSS") && i < cvss_buckets.len() {
            if let Some(b) = &cvss_buckets[i] {
                let r = b.clone();
                assert(first_cvss_bucket(v.severity@, cvss_buckets@, (i + 1) as nat) == Some(r@));
                proof {
                    lemma_first_cvss_stays(v.severity@, cvss_buckets@, (i + 1) as nat, v.severity@.len());
                }
                return r;
            }
        }
        i += 1;
    }
    "unknown".to_owned()
}

proof fn lemma_first_cvss_stays(sev: Seq<OsvSeverity>, buckets: Seq<Option<String>>, k: nat, n: nat)
    requires
        k <= n,
        first_cvss_bucket(sev, buckets, k) is Some,
    ensures
        first_cvss_bucket(sev, buckets, n) == first_cvss_bucket(sev, buckets, k),
    decreases n - k,
{
    if k < n {
        lemma_first_cvss_stays(sev, buckets, k, (n - 1) as nat);
    }
}

/// The views of an optional version.
pub open spec fn opt_view(o: Option<SemVersion>) -> Option<VersionView> {
    match o {
        Some(v) => Some(v@),
        None => None,
    }
}

/// The start of each range: the version `0.0.0` parses to.
pub open spec fn zero_version() -> Option<VersionView> {
    semver_version_parse("0.0.0"@)
}

/// The `introduced` version in force after an event: `0` means `0.0.0`.
pub open spec fn introduced_after(prev: Option<VersionView>, e: OsvEvent) -> Option<VersionView> {
    match e.introduced {
        Some(i) => if i@ == "0"@ {
            zero_version()
        } else {
            semver_version_parse(i@)
        },
        None => prev,
    }
}

/// Whether `current` lies on the line that starts at `introduced` (an
/// unparsable start puts every version on the line).
pub open spec fn on_line(current: VersionView, introduced: Option<VersionView>) -> bool {
    match introduced {
        Some(iv) => compare_versions(current, iv) >= 0,
        None => true,
    }
}

/// The best fix after an event: a parsable `fixed` above `current` on its
/// line replaces the best so far unless that one is no greater.
pub open spec fn best_after(
    current: VersionView,
    introduced: Option<VersionView>,
    best: Option<VersionView>,
    e: OsvEvent,
) -> Option<VersionView> {
    match e.fixed {
        Some(f) => match semver_version_parse(f@) {
            Some(fix) => if on_line(current, introduced) && compare_versions(current, fix) < 0 {
                match best {
                    Some(b) => if compare_versions(b, fix) <= 0 {
                        Some(b)
                    } else {
                        Some(fix)
                    },
                    None => Some(fix),
                }
            } else {
                best
            },
            None => best,
        },
        None => best,
    }
}

/// Walking the first `n` events of a range from `start` (the introduced
/// version in force and the best fix so far).
pub open spec fn events_walk(
    current: VersionView,
    events: Seq<OsvEvent>,
    n: nat,
    start: (Option<VersionView>, Option<VersionView>),
) -> (Option<VersionView>, Option<VersionView>)
    decreases n,
{
    if n == 0 {
        start
    } else {
        let (intro, best) = events_walk(current, events, (n - 1) as nat, start);
        let e = events[n - 1];
        let now = introduced_after(intro, e);
        (now, best_after(current, now, best, e))
    }
}

/// The best fix after the first `n` ranges, each walked from `0.0.0`.
pub open spec fn ranges_walk(
    current: VersionView,
    ranges: Seq<OsvRange>,
    n: nat,
    best: Option<VersionView>,
) -> Option<VersionView>
    decreases n,
{
    if n == 0 {
        best
    } else {
        let before = ranges_walk(current, ranges, (n - 1) as nat, best);
        let evs = ranges[n - 1].events@;
        events_walk(current, evs, evs.len(), (zero_version(), before)).1
    }
}

/// The best fix after the ranges of the first `n` affected entries.
pub open spec fn affected_walk(current: VersionView, affected: Seq<OsvAffected>, n: nat) -> Option<
    VersionView,
>
    decreases n,
{
    if n == 0 {
        None
    } else {
        let before = affected_walk(current, affected, (n - 1) as nat);
        let rs = affected[n - 1].ranges@;
        ranges_walk(current, rs, rs.len(), before)
    }
}

/// The recommended upgrade: the text of the lowest fix on the release line
/// of `current_version`, when that version parses and there is one.
pub open spec fn recommended_fix_spec(v: OsvVuln, current_version: Seq<char>) -> Option<Seq<char>> {
    match semver_version_parse(current_version) {
        Some(cur) => match affected_walk(cur, v.affected@, v.affected@.len()) {
            Some(b) => Some(version_text(b)),
            None => None,
        },
        None => None,
    }
}

/// The lowest `fixed` version on the release line that contains
/// `current_version`, i.e. the minimal upgrade that resolves the advisory.
pub fn recommended_fix(v: &OsvVuln, current_version: &str) -> (r: Option<String>)
    ensures
        match r {
            Some(t) => recommended_fix_spec(*v, current_version@) == Some(t@),
            None => recommended_fix_spec(*v, current_version@) is None,
        },
{
    let current = match parse_version(current_version) {
        Some(c) => c,
        None => return None,
    };
    let ghost cur = current@;
    let mut best: Option<SemVersion> = None;
    let mut i: usize = 0;
    while i < v.affected.len()
        invariant
            i <= v.affected@.len(),
            current@ == cur,
            opt_view(best) == affected_walk(cur, v.affected@, i as nat),
        decreases v.affected@.len() - i,
    {
        let ranges = &v.affected[i].ranges;
        let ghost before = opt_view(best);
        let mut j: usize = 0;
        while j < ranges.len()
            invariant
                j <= ranges@.len(),
                current@ == cur,
                opt_view(best) == ranges_walk(cur, ranges@, j as nat, before),
            decreases ranges@.len() - j,
        {
            let events = &ranges[j].events;
            let ghost start = (zero_version(), opt_view(best));
            let mut introduced = parse_version("0.0.0");
            let mut k: usize = 0;
            while k < events.len()
                invariant
                    k <= events@.len(),
                    current@ == cur,
                    (opt_view(introduced), opt_view(best)) == events_walk(
                        cur,
                        events@,
                        k as nat,
                        start,
                    ),
                decreases events@.len() - k,
            {
                let e = &events[k];
                if let Some(iv) = &e.introduced {
                    introduced = if str_eq(iv.as_str(), "0") {
                        parse_version("0.0.0")
                    } else {
                        parse_version(iv.as_str())
                    };
                }
                if let Some(f) = &e.fixed {
                    if let Some(fix) = parse_version(f.as_str()) {
                        let in_line = match &introduced {
                            Some(iv) => compare_semver(&current, iv) >= 0,
                            None => true,
                        };
                        if in_line && compare_semver(&current, &fix) < 0 {
                            let keep = match &best {
                                Some(b) => compare_semver(b, &fix) <= 0,
                                None => false,
                            };
                            if !keep {
                                best = Some(fix);
                            }
                        }
                    }
                }
                k += 1;
            }
            assert(events@ == ranges@[j as int].events@);
            j += 1;
        }
        assert(ranges@ == v.affected@[i as int].ranges@);
        i += 1;
    }
    match best {
        Some(b) => Some(version_to_string(&b)),
        None => None,
    }
}

/// The advisory a vulnerability record normalizes to.
pub open spec fn normalized(
    v: OsvVuln,
    current_version: Seq<char>,
    buckets: Seq<Option<String>>,
    a: Advisory,
) -> bool {
    &&& a.id@ == v.id@
    &&& a.summary@ == match v.summary {
        Some(s) => s@,
        None => "(no summary provided)"@,
    }
    &&& a.severity@ == severity_class(v, buckets)
    &&& match a.fixed {
        Some(t) => recommended_fix_spec(v, current_version) == Some(t@),
        None => recommended_fix_spec(v, current_version) is None,
    }
}

/// Turns an OSV record into an [`Advisory`] for the installed
/// `current_version`; `cvss_buckets` as for [`classify_severity`].
pub fn normalize(v: OsvVuln, current_version: &str, cvss_buckets: &Vec<Option<String>>) -> (a:
    Advisory)
    ensures
        normalized(v, current_version@, cvss_buckets@, a),
{
    let severity = classify_severity(&v, cvss_buckets);
    let fixed = recommended_fix(&v, current_version);
    let summary = match v.summary {
        Some(s) => s,
        None => "(no summary provided)".to_string(),
    };
    Advisory { id: v.id, summary, severity, fixed }
}

/// OSV caps batch queries at 1000; the batches stay well under.
pub const BATCH_SIZE: usize = 500;

/// The advisory ids of a batch answer, one list per query: the answer's
/// lists, cut or padded with empty lists to the number of queries.
pub fn fit_batch_results(results: Vec<Vec<String>>, n: usize) -> (r: Vec<Vec<String>>)
    ensures
        r@.len() == n,
        forall|i: int| 0 <= i < n ==> if i < results@.len() {
            #[trigger] r@[i] == results@[i]
        } else {
            r@[i]@.len() == 0
        },
{
    let mut results = results;
    let ghost given = results@;
    if results.len() > n {
        results.truncate(n);
        return results;
    }
    while results.len() < n
        invariant
            given.len() <= results@.len() <= n,
            results@.take(given.len() as int) == given,
            forall|i: int| given.len() <= i < results@.len() ==> (#[trigger] results@[i])@.len() == 0,
        decreases n - results@.len(),
    {
        let ghost before = results@;
        results.push(Vec::new());
        assert(results@.take(given.len() as int) =~= before.take(given.len() as int));
        assert(results@[results@.len() - 1]@.len() == 0);
    }
    results
}

proof fn lemma_events_walk_above(
    cur: VersionView,
    evs: Seq<OsvEvent>,
    n: nat,
    start: (Option<VersionView>, Option<VersionView>),
)
    requires
        start.1 matches Some(b) ==> compare_versions(cur, b) < 0,
    ensures
        events_walk(cur, evs, n, start).1 matches Some(b) ==> compare_versions(cur, b) < 0,
    decreases n,
{
    if n > 0 {
        lemma_events_walk_above(cur, evs, (n - 1) as nat, start);
    }
}

proof fn lemma_ranges_walk_above(
    cur: VersionView,
    ranges: Seq<OsvRange>,
    n: nat,
    best: Option<VersionView>,
)
    requires
        best matches Some(b) ==> compare_versions(cur, b) < 0,
    ensures
        ranges_walk(cur, ranges, n, best) matches Some(b) ==> compare_versions(cur, b) < 0,
    decreases n,
{
    if n > 0 {
        lemma_ranges_walk_above(cur, ranges, (n - 1) as nat, best);
        let before = ranges_walk(cur, ranges, (n - 1) as nat, best);
        let evs = ranges[n - 1].events@;
        lemma_events_walk_above(cur, evs, evs.len(), (zero_version(), before));
    }
}

proof fn lemma_affected_walk_above(cur: VersionView, affected: Seq<OsvAffected>, n: nat)
    ensures
        affected_walk(cur, affected, n) matches Some(b) ==> compare_versions(cur, b) < 0,
    decreases n,
{
    if n > 0 {
        lemma_affected_walk_above(cur, affected, (n - 1) as nat);
        let before = affected_walk(cur, affected, (n - 1) as nat);
        let rs = affected[n - 1].ranges@;
        lemma_ranges_walk_above(cur, rs, rs.len(), before);
    }
}

/// The recommended fix is an upgrade: when the installed version parses and
/// a fix is recommended, the fix is the text of a version above it.
pub proof fn lemma_fix_is_upgrade(v: OsvVuln, current_version: Seq<char>)
    ensures
        recommended_fix_spec(v, current_version) is Some ==> (semver_version_parse(
            current_version,
        ) matches Some(cur) && affected_walk(cur, v.affected@, v.affected@.len()) matches Some(b)
            && recommended_fix_spec(v, current_version) == Some(version_text(b))
            && compare_versions(cur, b) < 0),
{
    if let Some(cur) = semver_version_parse(current_version) {
        lemma_affected_walk_above(cur, v.affected@, v.affected@.len());
    }
}

/// The `introduced` version in force after the first `n` events of a
/// range that starts from `start`.
pub open spec fn intro_state(events: Seq<OsvEvent>, n: nat, start: Option<VersionView>) -> Option<
    VersionView,
>
    decreases n,
{
    if n == 0 {
        start
    } else {
        introduced_after(intro_state(events, (n - 1) as nat, start), events[n - 1])
    }
}

/// The fix that event `k` of a range offers to `current`: its `fixed`
/// version, when it parses, lies above `current`, and `current` is on the
/// line introduced so far.
pub open spec fn event_fix(current: VersionView, events: Seq<OsvEvent>, k: int) -> Option<VersionView> {
    let intro = intro_state(events, (k + 1) as nat, zero_version());
    match events[k].fixed {
        Some(f) => match semver_version_parse(f@) {
            Some(fix) => if on_line(current, intro) && compare_versions(current, fix) < 0 {
                Some(fix)
            } else {
                None
            },
            None => None,
        },
        None => None,
    }
}

/// Whether some event of the record offers `fix` to `current`.
pub open spec fn offered_fix(v: OsvVuln, current: VersionView, fix: VersionView) -> bool {
    exists|a: int, r: int, k: int|
        0 <= a < v.affected@.len() && 0 <= r < v.affected@[a].ranges@.len() && 0 <= k
            < v.affected@[a].ranges@[r].events@.len() && #[trigger] event_fix(
            current,
            v.affected@[a].ranges@[r].events@,
            k,
        ) == Some(fix)
}

proof fn lemma_compare_refl(a: VersionView)
    ensures
        compare_versions(a, a) == 0,
{
    crate::semver::lemma_version_antisymmetric(a, a);
}

proof fn lemma_events_walk_least(
    cur: VersionView,
    evs: Seq<OsvEvent>,
    n: nat,
    b0: Option<VersionView>,
)
    requires
        n <= evs.len(),
    ensures
        events_walk(cur, evs, n, (zero_version(), b0)).0 == intro_state(evs, n, zero_version()),
        forall|k: int|
            0 <= k < n && #[trigger] event_fix(cur, evs, k) is Some ==> (events_walk(
                cur,
                evs,
                n,
                (zero_version(), b0),
            ).1 matches Some(b) && compare_versions(b, event_fix(cur, evs, k)->0) <= 0),
        b0 matches Some(x) ==> (events_walk(cur, evs, n, (zero_version(), b0)).1 matches Some(b)
            && compare_versions(b, x) <= 0),
        events_walk(cur, evs, n, (zero_version(), b0)).1 matches Some(y) ==> (b0 == Some(y)
            || exists|k: int| 0 <= k < n && #[trigger] event_fix(cur, evs, k) == Some(y)),
    decreases n,
{
    if n > 0 {
        let m = (n - 1) as nat;
        lemma_events_walk_least(cur, evs, m, b0);
        let prev = events_walk(cur, evs, m, (zero_version(), b0));
        let now = events_walk(cur, evs, n, (zero_version(), b0));
        let e = evs[m as int];
        assert(now.0 == introduced_after(prev.0, e));
        assert(now.1 == best_after(cur, now.0, prev.1, e));
        let ef = event_fix(cur, evs, m as int);
        if let Some(fix) = ef {
            lemma_compare_refl(fix);
            if let Some(pb) = prev.1 {
                crate::semver::lemma_version_antisymmetric(pb, fix);
            }
        }
        // every earlier bound still holds: the best only goes down
        if let (Some(pb), Some(nb)) = (prev.1, now.1) {
            assert(compare_versions(nb, pb) <= 0) by {
                lemma_compare_refl(pb);
                crate::semver::lemma_version_antisymmetric(pb, nb);
            }
            assert forall|k: int|
                0 <= k < n && #[trigger] event_fix(cur, evs, k) is Some implies compare_versions(
                nb,
                event_fix(cur, evs, k)->0,
            ) <= 0 by {
                if k < m {
                    crate::semver::lemma_version_transitive(nb, pb, event_fix(cur, evs, k)->0);
                }
            }
            if let Some(x) = b0 {
                crate::semver::lemma_version_transitive(nb, pb, x);
            }
        }
        if let Some(y) = now.1 {
            if !(prev.1 == Some(y)) {
                assert(event_fix(cur, evs, m as int) == Some(y));
            }
        }
    } else if let Some(x) = b0 {
        lemma_compare_refl(x);
    }
}

proof fn lemma_ranges_walk_least(
    cur: VersionView,
    ranges: Seq<OsvRange>,
    n: nat,
    b0: Option<VersionView>,
)
    requires
        n <= ranges.len(),
    ensures
        forall|j: int, k: int|
            0 <= j < n && 0 <= k < ranges[j].events@.len() && #[trigger] event_fix(
                cur,
                ranges[j].events@,
                k,
            ) is Some ==> (ranges_walk(cur, ranges, n, b0) matches Some(b) && compare_versions(
                b,
                event_fix(cur, ranges[j].events@, k)->0,
            ) <= 0),
        b0 matches Some(x) ==> (ranges_walk(cur, ranges, n, b0) matches Some(b)
            && compare_versions(b, x) <= 0),
        ranges_walk(cur, ranges, n, b0) matches Some(y) ==> (b0 == Some(y) || exists|j: int, k: int|
            0 <= j < n && 0 <= k < ranges[j].events@.len() && #[trigger] event_fix(
                cur,
                ranges[j].events@,
                k,
            ) == Some(y)),
    decreases n,
{
    if n > 0 {
        let m = (n - 1) as nat;
        lemma_ranges_walk_least(cur, ranges, m, b0);
        let before = ranges_walk(cur, ranges, m, b0);
        let evs = ranges[m as int].events@;
        lemma_events_walk_least(cur, evs, evs.len(), before);
        let after = ranges_walk(cur, ranges, n, b0);
        assert(after == events_walk(cur, evs, evs.len(), (zero_version(), before)).1);
        if let (Some(pb), Some(nb)) = (before, after) {
            assert forall|j: int, k: int|
                0 <= j < n && 0 <= k < ranges[j].events@.len() && #[trigger] event_fix(
                    cur,
                    ranges[j].events@,
                    k,
                ) is Some implies compare_versions(nb, event_fix(cur, ranges[j].events@, k)->0)
                <= 0 by {
                if j < m {
                    crate::semver::lemma_version_transitive(
                        nb,
                        pb,
                        event_fix(cur, ranges[j].events@, k)->0,
                    );
                }
            }
            if let Some(x) = b0 {
                crate::semver::lemma_version_transitive(nb, pb, x);
            }
        }
        if let Some(y) = after {
            if !(before == Some(y)) {
                let k = choose|k: int| 0 <= k < evs.len() && #[trigger] event_fix(cur, evs, k) == Some(y);
                assert(event_fix(cur, ranges[m as int].events@, k) == Some(y));
            }
        }
    } else if let Some(x) = b0 {
        lemma_compare_refl(x);
    }
}

proof fn lemma_affected_walk_least(cur: VersionView, affected: Seq<OsvAffected>, n: nat)
    requires
        n <= affected.len(),
    ensures
        forall|a: int, j: int, k: int|
            0 <= a < n && 0 <= j < affected[a].ranges@.len() && 0 <= k
                < affected[a].ranges@[j].events@.len() && #[trigger] event_fix(
                cur,
                affected[a].ranges@[j].events@,
                k,
            ) is Some ==> (affected_walk(cur, affected, n) matches Some(b) && compare_versions(
                b,
                event_fix(cur, affected[a].ranges@[j].events@, k)->0,
            ) <= 0),
        affected_walk(cur, affected, n) matches Some(y) ==> exists|a: int, j: int, k: int|
            0 <= a < n && 0 <= j < affected[a].ranges@.len() && 0 <= k
                < affected[a].ranges@[j].events@.len() && #[trigger] event_fix(
                cur,
                affected[a].ranges@[j].events@,
                k,
            ) == Some(y),
    decreases n,
{
    if n > 0 {
        let m = (n - 1) as nat;
        lemma_affected_walk_least(cur, affected, m);
        let before = affected_walk(cur, affected, m);
        let rs = affected[m as int].ranges@;
        lemma_ranges_walk_least(cur, rs, rs.len(), before);
        let after = affected_walk(cur, affected, n);
        if let (Some(pb), Some(nb)) = (before, after) {
            assert forall|a: int, j: int, k: int|
                0 <= a < n && 0 <= j < affected[a].ranges@.len() && 0 <= k
                    < affected[a].ranges@[j].events@.len() && #[trigger] event_fix(
                    cur,
                    affected[a].ranges@[j].events@,
                    k,
                ) is Some implies compare_versions(
                nb,
                event_fix(cur, affected[a].ranges@[j].events@, k)->0,
            ) <= 0 by {
                if a < m {
                    crate::semver::lemma_version_transitive(
                        nb,
                        pb,
                        event_fix(cur, affected[a].ranges@[j].events@, k)->0,
                    );
                }
            }
        }
        if let Some(y) = after {
            if !(before == Some(y)) {
                let (j, k) = choose|j: int, k: int|
                    0 <= j < rs.len() && 0 <= k < rs[j].events@.len() && #[trigger] event_fix(
                        cur,
                        rs[j].events@,
                        k,
                    ) == Some(y);
                assert(event_fix(cur, affected[m as int].ranges@[j].events@, k) == Some(y));
            }
        }
    }
}

/// The recommended fix is the lowest fix on offer: when the installed
/// version parses, the recommendation is the text of a version that some
/// event of the record offers (a parsable `fixed` above the installed
/// version, on the line introduced so far), no higher than any version on
/// offer; and nothing is recommended when nothing is on offer.
pub proof fn lemma_fix_is_least(v: OsvVuln, current_version: Seq<char>)
    ensures
        semver_version_parse(current_version) matches Some(cur) ==> match recommended_fix_spec(
            v,
            current_version,
        ) {
            Some(t) => exists|b: VersionView|
                t == version_text(b) && #[trigger] offered_fix(v, cur, b) && forall|f: VersionView|
                    #[trigger] offered_fix(v, cur, f) ==> compare_versions(b, f) <= 0,
            None => forall|f: VersionView| !#[trigger] offered_fix(v, cur, f),
        },
{
    if let Some(cur) = semver_version_parse(current_version) {
        let aff = v.affected@;
        lemma_affected_walk_least(cur, aff, aff.len());
        match affected_walk(cur, aff, aff.len()) {
            Some(b) => {
                assert(offered_fix(v, cur, b));
                assert forall|f: VersionView| #[trigger] offered_fix(v, cur, f) implies compare_versions(
                    b,
                    f,
                ) <= 0 by {
                    let (a, j, k) = choose|a: int, j: int, k: int|
                        0 <= a < v.affected@.len() && 0 <= j < v.affected@[a].ranges@.len() && 0
                            <= k < v.affected@[a].ranges@[j].events@.len() && #[trigger] event_fix(
                            cur,
                            v.affected@[a].ranges@[j].events@,
                            k,
                        ) == Some(f);
                    assert(event_fix(cur, aff[a].ranges@[j].events@, k) is Some);
                }
            },
            None => {
                assert forall|f: VersionView| !#[trigger] offered_fix(v, cur, f) by {
                    if offered_fix(v, cur, f) {
                        let (a, j, k) = choose|a: int, j: int, k: int|
                            0 <= a < v.affected@.len() && 0 <= j < v.affected@[a].ranges@.len()
                                && 0 <= k < v.affected@[a].ranges@[j].events@.len()
                                && #[trigger] event_fix(cur, v.affected@[a].ranges@[j].events@, k)
                                == Some(f);
                        assert(event_fix(cur, aff[a].ranges@[j].events@, k) is Some);
                    }
                }
            },
        }
    }
}

/// A version at or above the introduced version of a range is on that
/// range's line, the introduced version itself included: when at some
/// event of the record the introduced version in force parses and is no
/// higher than the installed version, and the event's `fixed` version
/// parses and lies above the installed version, a fix is recommended; it
/// is above the installed version and no higher than that fixed version.
pub proof fn lemma_on_line_fix_is_recommended(
    v: OsvVuln,
    current_version: Seq<char>,
    cur: VersionView,
    a: int,
    rg: int,
    k: int,
    iv: VersionView,
    fix: VersionView,
)
    requires
        semver_version_parse(current_version) == Some(cur),
        0 <= a < v.affected@.len(),
        0 <= rg < v.affected@[a].ranges@.len(),
        0 <= k < v.affected@[a].ranges@[rg].events@.len(),
        intro_state(v.affected@[a].ranges@[rg].events@, (k + 1) as nat, zero_version()) == Some(iv),
        compare_versions(cur, iv) >= 0,
        v.affected@[a].ranges@[rg].events@[k].fixed matches Some(f) && semver_version_parse(f@)
            == Some(fix),
        compare_versions(cur, fix) < 0,
    ensures
        recommended_fix_spec(v, current_version) matches Some(t) && exists|b: VersionView|
            t == version_text(b) && compare_versions(cur, b) < 0 && compare_versions(b, fix) <= 0,
{
    let evs = v.affected@[a].ranges@[rg].events@;
    assert(event_fix(cur, evs, k) == Some(fix));
    assert(offered_fix(v, cur, fix));
    lemma_fix_is_least(v, current_version);
    let t = recommended_fix_spec(v, current_version)->0;
    let b2 = choose|b2: VersionView|
        t == version_text(b2) && #[trigger] offered_fix(v, cur, b2) && forall|f: VersionView|
            #[trigger] offered_fix(v, cur, f) ==> compare_versions(b2, f) <= 0;
    assert(compare_versions(b2, fix) <= 0);
    assert(compare_versions(cur, b2) < 0) by {
        let (a2, r2, k2) = choose|a2: int, r2: int, k2: int|
            0 <= a2 < v.affected@.len() && 0 <= r2 < v.affected@[a2].ranges@.len() && 0 <= k2
                < v.affected@[a2].ranges@[r2].events@.len() && #[trigger] event_fix(
                cur,
                v.affected@[a2].ranges@[r2].events@,
                k2,
            ) == Some(b2);
    }
}

} // verus!
