//! Static analysis of lifecycle scripts.
//!
//! The `preinstall` / `install` / `postinstall` script strings are lowercased,
//! their whitespace is taken out, and they are searched for known malicious
//! patterns (remote payloads, `eval`/`atob`/`Function`/`fromCharCode`,
//! `process.binding`, credential files such as `~/.ssh`, `~/.aws` and
//! `~/.npmrc`). A body dense with `\x`/`\u` escapes is flagged as likely
//! obfuscated. Each rule that matches a hook yields one finding; findings of
//! severity `Block` stop the install.

use crate::strmap::StrMap;
use crate::text::{chars_of, contains_chars, contains_seq, str_lowercase, to_lowercase};
use vstd::prelude::*;

verus! {

/// Severity of a static-analysis finding.
#[derive(Debug, Clone, Copy, PartialEq, Eq, Structural)]
pub enum Severity {
    /// Hard block: refuse to install unless the user overrides.
    Block,
    /// Soft warning: surface to the user but continue.
    Warn,
}

/// A single finding from the static scan.
#[derive(Debug, Clone)]
pub struct Finding {
    pub script: String,
    pub severity: Severity,
    pub pattern: String,
    pub explanation: String,
}

/// A finding with its texts taken by their characters.
pub struct FindingView {
    pub script: Seq<char>,
    pub severity: Severity,
    pub pattern: Seq<char>,
    pub explanation: Seq<char>,
}

impl View for Finding {
    type V = FindingView;

    open spec fn view(&self) -> FindingView {
        FindingView {
            script: self.script@,
            severity: self.severity,
            pattern: self.pattern@,
            explanation: self.explanation@,
        }
    }
}

/// The lifecycle scripts treated as security-sensitive, in scan order.
pub const LIFECYCLE_SCRIPTS: [&'static str; 3] = ["preinstall", "install", "postinstall"];

/// The number of pattern rules.
pub const RULE_COUNT: usize = 15;

/// The pattern of each rule, lowercase, in rule order. A script matches a
/// rule when the pattern with its whitespace taken out occurs in the
/// script's lowercased body with its whitespace taken out, so spacing and
/// line breaks do not hide a pattern.
pub const RULE_NEEDLES: [&'static str; 15] = [
    "curl http",
    "wget http",
    "eval(",
    "base64",
    ".ssh",
    ".aws",
    "child_process",
    "process.env",
    "require('net')",
    "require(\"net\")",
    ".npmrc",
    "atob(",
    "new function(",
    "process.binding",
    "fromcharcode",
];

/// The human explanation of each rule, in rule order.
pub const RULE_EXPLANATIONS: [&'static str; 15] = [
    "downloads a remote payload with curl during install",
    "downloads a remote payload with wget during install",
    "uses eval() — a common way to execute hidden code",
    "decodes base64 — frequently used to hide malicious payloads",
    "references ~/.ssh — possible credential theft",
    "references ~/.aws — possible cloud credential theft",
    "spawns external processes during install",
    "reads environment variables — verify it does not exfiltrate secrets",
    "opens raw network sockets",
    "opens raw network sockets",
    "references ~/.npmrc — possible registry token theft",
    "decodes base64 with atob() — frequently used to hide malicious payloads",
    "builds code with the Function constructor — a way to execute hidden code",
    "calls process.binding — reaches Node internals directly",
    "assembles text with String.fromCharCode — a common obfuscation",
];

/// Whether each rule blocks (else it warns), in rule order.
pub const RULE_BLOCKS: [bool; 15] = [
    true, true, true, true, true, true, true, false, false, false, true, true, true, true, false,
];

/// The pattern reported by the escape-density heuristic.
pub const ESCAPE_PATTERN: &'static str = "\\x / \\u escapes";

/// The explanation of the escape-density heuristic.
pub const ESCAPE_EXPLANATION: &'static str = "dense hex/unicode escapes — likely obfuscated code";

/// The severity of rule `j`.
pub open spec fn rule_severity(j: int) -> Severity {
    if RULE_BLOCKS[j] {
        Severity::Block
    } else {
        Severity::Warn
    }
}

fn severity_of_rule(j: usize) -> (s: Severity)
    requires
        j < 15,
    ensures
        s == rule_severity(j as int),
{
    if RULE_BLOCKS[j] {
        Severity::Block
    } else {
        Severity::Warn
    }
}

/// The finding that rule `j` produces on hook `h`.
pub open spec fn rule_finding(h: int, j: int) -> FindingView {
    FindingView {
        script: LIFECYCLE_SCRIPTS[h]@,
        severity: rule_severity(j),
        pattern: RULE_NEEDLES[j]@,
        explanation: RULE_EXPLANATIONS[j]@,
    }
}

/// The finding of the escape-density heuristic on hook `h`.
pub open spec fn escape_finding(h: int) -> FindingView {
    FindingView {
        script: LIFECYCLE_SCRIPTS[h]@,
        severity: Severity::Warn,
        pattern: ESCAPE_PATTERN@,
        explanation: ESCAPE_EXPLANATION@,
    }
}

/// Whitespace: space, tab, line feed, vertical tab, form feed, carriage
/// return.
pub open spec fn is_space(c: char) -> bool {
    c == ' ' || c == '\t' || c == '\n' || c == '\x0B' || c == '\x0C' || c == '\r'
}

/// `s` with its whitespace taken out.
pub open spec fn strip_space(s: Seq<char>) -> Seq<char>
    decreases s.len(),
{
    if s.len() == 0 {
        Seq::empty()
    } else {
        strip_space(s.drop_last()) + if is_space(s.last()) {
            Seq::empty()
        } else {
            seq![s.last()]
        }
    }
}

/// The number of escapes `\x` or `\u` among the first `n` characters of `s`.
pub open spec fn escape_count(s: Seq<char>, n: nat) -> nat
    decreases n,
{
    if n < 2 {
        0
    } else {
        escape_count(s, (n - 1) as nat) + if s[n - 2] == '\\' && (s[n - 1] == 'x' || s[n - 1]
            == 'u') {
            1nat
        } else {
            0nat
        }
    }
}

/// Whether a (lowercased) script body is dense with escapes: at least four
/// `\x`/`\u` escapes, and at least one per ten characters.
pub open spec fn escape_dense(hay: Seq<char>) -> bool {
    let c = escape_count(hay, hay.len());
    c >= 4 && c * 10 >= hay.len()
}

/// The findings of the first `n` rules on hook `h` whose lowercased body is
/// `hay`, in rule order.
pub open spec fn body_findings(h: int, hay: Seq<char>, n: nat) -> Seq<FindingView>
    decreases n,
{
    if n == 0 {
        Seq::empty()
    } else {
        body_findings(h, hay, (n - 1) as nat) + if contains_seq(
            strip_space(hay),
            strip_space(RULE_NEEDLES[n - 1]@),
        ) {
            seq![rule_finding(h, n - 1)]
        } else {
            Seq::empty()
        }
    }
}

/// All findings on hook `h` whose lowercased body is `hay`: the rules in
/// order, then the escape-density heuristic.
pub open spec fn body_scan(h: int, hay: Seq<char>) -> Seq<FindingView> {
    body_findings(h, hay, 15) + if escape_dense(hay) {
        seq![escape_finding(h)]
    } else {
        Seq::empty()
    }
}

/// The findings on hook `h` of a scripts map: none when the hook is absent.
pub open spec fn hook_findings(scripts: Map<Seq<char>, String>, h: int) -> Seq<FindingView> {
    if scripts.contains_key(LIFECYCLE_SCRIPTS[h]@) {
        body_scan(h, str_lowercase(scripts[LIFECYCLE_SCRIPTS[h]@]@))
    } else {
        Seq::empty()
    }
}

/// The findings on the first `n` lifecycle hooks, in hook order.
pub open spec fn hooks_findings(scripts: Map<Seq<char>, String>, n: nat) -> Seq<FindingView>
    decreases n,
{
    if n == 0 {
        Seq::empty()
    } else {
        hooks_findings(scripts, (n - 1) as nat) + hook_findings(scripts, n - 1)
    }
}

/// All findings of a scripts map.
pub open spec fn scan_spec(scripts: Map<Seq<char>, String>) -> Seq<FindingView> {
    hooks_findings(scripts, 3)
}

fn strip_spaces(v: &Vec<char>) -> (r: Vec<char>)
    ensures
        r@ == strip_space(v@),
{
    let mut r: Vec<char> = Vec::new();
    let mut i: usize = 0;
    while i < v.len()
        invariant
            i <= v.len(),
            r@ == strip_space(v@.take(i as int)),
        decreases v.len() - i,
    {
        let c = v[i];
        assert(v@.take(i + 1).drop_last() =~= v@.take(i as int));
        if !(c == ' ' || c == '\t' || c == '\n' || c == '\x0B' || c == '\x0C' || c == '\r') {
            r.push(c);
            assert(r@ =~= strip_space(v@.take(i + 1)));
        } else {
            assert(r@ =~= strip_space(v@.take(i + 1)));
        }
        i += 1;
    }
    assert(v@.take(v.len() as int) =~= v@);
    r
}

proof fn lemma_escape_count_bound(s: Seq<char>, n: nat)
    ensures
        escape_count(s, n) <= n,
    decreases n,
{
    if n >= 2 {
        lemma_escape_count_bound(s, (n - 1) as nat);
    }
}

fn count_escapes(v: &Vec<char>) -> (c: usize)
    ensures
        c == escape_count(v@, v@.len()),
{
    let mut c: usize = 0;
    let mut i: usize = 0;
    while i < v.len()
        invariant
            i <= v.len(),
            c == escape_count(v@, i as nat),
            c <= i,
        decreases v.len() - i,
    {
        if i >= 1 && v[i - 1] == '\\' && (v[i] == 'x' || v[i] == 'u') {
            c = c + 1;
        }
        i += 1;
    }
    c
}

fn is_escape_dense(v: &Vec<char>) -> (b: bool)
    ensures
        b == escape_dense(v@),
{
    let c = count_escapes(v);
    proof {
        lemma_escape_count_bound(v@, v@.len());
    }
    c >= 4 && (c as u128) * 10 >= (v.len() as u128)
}

/// The views of a sequence of findings.
pub open spec fn finding_views(fs: Seq<Finding>) -> Seq<FindingView> {
    fs.map_values(|f: Finding| f@)
}

/// Scan a package's `scripts` map and return the findings in its lifecycle
/// hooks: for each hook in order, for each rule in order, one finding when
/// the rule's pattern occurs in the lowercased script body, whitespace
/// taken out of both; then one finding when the body is dense with escapes.
pub fn scan(scripts: &StrMap<String>) -> (findings: Vec<Finding>)
    ensures
        finding_views(findings@) == scan_spec(scripts@),
{
    let mut findings: Vec<Finding> = Vec::new();
    for h in 0..3
        invariant
            finding_views(findings@) == hooks_findings(scripts@, h as nat),
    {
        let hook = LIFECYCLE_SCRIPTS[h];
        match scripts.get(hook) {
            None => {
                assert(finding_views(findings@) =~= hooks_findings(scripts@, (h + 1) as nat));
            },
            Some(body) => {
                let lowered = to_lowercase(body.as_str());
                let hay = chars_of(lowered.as_str());
                let stripped = strip_spaces(&hay);
                let ghost before = finding_views(findings@);
                for j in 0..RULE_COUNT
                    invariant
                        hay@ == str_lowercase(body@),
                        stripped@ == strip_space(hay@),
                        h < 3,
                        hook@ == LIFECYCLE_SCRIPTS[h as int]@,
                        finding_views(findings@) == before + body_findings(
                            h as int,
                            hay@,
                            j as nat,
                        ),
                {
                    let key = strip_spaces(&chars_of(RULE_NEEDLES[j]));
                    let ghost prev = finding_views(findings@);
                    assert(body_findings(h as int, hay@, (j + 1) as nat) == body_findings(
                        h as int,
                        hay@,
                        j as nat,
                    ) + if contains_seq(strip_space(hay@), strip_space(RULE_NEEDLES[j as int]@)) {
                        seq![rule_finding(h as int, j as int)]
                    } else {
                        Seq::<FindingView>::empty()
                    });
                    if contains_chars(&stripped, &key) {
                        let f = Finding {
                            script: hook.to_owned(),
                            severity: severity_of_rule(j),
                            pattern: RULE_NEEDLES[j].to_owned(),
                            explanation: RULE_EXPLANATIONS[j].to_owned(),
                        };
                        assert(f@ == rule_finding(h as int, j as int));
                        findings.push(f);
                        assert(finding_views(findings@) =~= prev.push(f@));
                    }
                    assert(finding_views(findings@) =~= before + body_findings(
                        h as int,
                        hay@,
                        (j + 1) as nat,
                    ));
                }
                if is_escape_dense(&hay) {
                    let f = Finding {
                        script: hook.to_owned(),
                        severity: Severity::Warn,
                        pattern: ESCAPE_PATTERN.to_owned(),
                        explanation: ESCAPE_EXPLANATION.to_owned(),
                    };
                    let ghost prev = finding_views(findings@);
                    assert(f@ == escape_finding(h as int));
                    findings.push(f);
                    assert(finding_views(findings@) =~= prev.push(f@));
                }
                assert(finding_views(findings@) =~= before + body_scan(h as int, hay@));
                assert(finding_views(findings@) =~= hooks_findings(scripts@, (h + 1) as nat));
            },
        }
    }
    findings
}

/// Whether some finding has severity `Block`.
pub open spec fn any_block(fs: Seq<FindingView>) -> bool {
    exists|i: int| 0 <= i < fs.len() && fs[i].severity == Severity::Block
}

/// Whether any finding is a hard block.
pub fn has_block(findings: &[Finding]) -> (b: bool)
    ensures
        b == any_block(finding_views(findings@)),
{
    let mut i: usize = 0;
    while i < findings.len()
        invariant
            i <= findings@.len(),
            forall|k: int| 0 <= k < i ==> findings@[k].severity != Severity::Block,
        decreases findings.len() - i,
    {
        if findings[i].severity == Severity::Block {
            assert(finding_views(findings@)[i as int].severity == Severity::Block);
            return true;
        }
        i += 1;
    }
    assert forall|k: int| 0 <= k < finding_views(findings@).len() implies finding_views(
        findings@,
    )[k].severity != Severity::Block by {
        assert(finding_views(findings@)[k] == findings@[k]@);
    }
    false
}

/// Whether hook `h` of `scripts` is present and matches rule `j`: the
/// rule's pattern occurs in the hook's lowercased body, whitespace taken
/// out of both.
pub open spec fn rule_hits(scripts: Map<Seq<char>, String>, h: int, j: int) -> bool {
    &&& scripts.contains_key(LIFECYCLE_SCRIPTS[h]@)
    &&& contains_seq(
        strip_space(str_lowercase(scripts[LIFECYCLE_SCRIPTS[h]@]@)),
        strip_space(RULE_NEEDLES[j]@),
    )
}

proof fn lemma_any_block_concat(a: Seq<FindingView>, b: Seq<FindingView>)
    ensures
        any_block(a + b) == (any_block(a) || any_block(b)),
{
    let c = a + b;
    if any_block(a) {
        let i = choose|i: int| 0 <= i < a.len() && a[i].severity == Severity::Block;
        assert(c[i] == a[i]);
    }
    if any_block(b) {
        let i = choose|i: int| 0 <= i < b.len() && b[i].severity == Severity::Block;
        assert(c[a.len() + i] == b[i]);
    }
    if any_block(c) {
        let i = choose|i: int| 0 <= i < c.len() && c[i].severity == Severity::Block;
        if i < a.len() {
            assert(c[i] == a[i]);
        } else {
            assert(c[i] == b[i - a.len()]);
        }
    }
}

proof fn lemma_rule_blocks_table(j: int)
    requires
        0 <= j < 15,
    ensures
        RULE_BLOCKS[j] == !(j == 7 || j == 8 || j == 9 || j == 14),
{
}

proof fn lemma_body_blocks(h: int, hay: Seq<char>, n: nat)
    requires
        n <= 15,
    ensures
        any_block(body_findings(h, hay, n)) == exists|j: int|
            0 <= j < n && !(j == 7 || j == 8 || j == 9 || j == 14) && #[trigger] contains_seq(
                strip_space(hay),
                strip_space(RULE_NEEDLES[j]@),
            ),
    decreases n,
{
    if n > 0 {
        let m = (n - 1) as nat;
        lemma_body_blocks(h, hay, m);
        let tail = if contains_seq(strip_space(hay), strip_space(RULE_NEEDLES[m as int]@)) {
            seq![rule_finding(h, m as int)]
        } else {
            Seq::<FindingView>::empty()
        };
        lemma_any_block_concat(body_findings(h, hay, m), tail);
        lemma_rule_blocks_table(m as int);
        if any_block(tail) {
            assert(tail[0] == rule_finding(h, m as int));
        }
        if contains_seq(strip_space(hay), strip_space(RULE_NEEDLES[m as int]@)) && !(m == 7 || m == 8
            || m == 9 || m == 14) {
            assert(tail[0].severity == Severity::Block);
        }
    }
}

proof fn lemma_hooks_block(scripts: Map<Seq<char>, String>, n: nat)
    requires
        n <= 3,
    ensures
        any_block(hooks_findings(scripts, n)) == exists|h: int, j: int|
            0 <= h < n && 0 <= j < 15 && !(j == 7 || j == 8 || j == 9 || j == 14)
                && #[trigger] rule_hits(scripts, h, j),
    decreases n,
{
    if n > 0 {
        let m = (n - 1) as nat;
        lemma_hooks_block(scripts, m);
        let h = m as int;
        lemma_any_block_concat(hooks_findings(scripts, m), hook_findings(scripts, h));
        if scripts.contains_key(LIFECYCLE_SCRIPTS[h]@) {
            let hay = str_lowercase(scripts[LIFECYCLE_SCRIPTS[h]@]@);
            lemma_body_blocks(h, hay, 15);
            let esc = if escape_dense(hay) {
                seq![escape_finding(h)]
            } else {
                Seq::<FindingView>::empty()
            };
            lemma_any_block_concat(body_findings(h, hay, 15), esc);
            if any_block(esc) {
                assert(esc[0] == escape_finding(h));
            }
            if any_block(hook_findings(scripts, h)) {
                let j = choose|j: int|
                    0 <= j < 15 && !(j == 7 || j == 8 || j == 9 || j == 14) && #[trigger] contains_seq(
                        strip_space(hay),
                        strip_space(RULE_NEEDLES[j]@),
                    );
                assert(rule_hits(scripts, h, j));
            }
            if exists|j: int| 0 <= j < 15 && !(j == 7 || j == 8 || j == 9 || j == 14) && #[trigger] rule_hits(scripts, h, j) {
                let j = choose|j: int|
                    0 <= j < 15 && !(j == 7 || j == 8 || j == 9 || j == 14) && #[trigger] rule_hits(
                        scripts,
                        h,
                        j,
                    );
                assert(contains_seq(strip_space(hay), strip_space(RULE_NEEDLES[j]@)));
            }
        } else {
            assert(hook_findings(scripts, h) =~= Seq::<FindingView>::empty());
            assert forall|j: int| !rule_hits(scripts, h, j) by {}
        }
        if exists|h2: int, j: int|
            0 <= h2 < n && 0 <= j < 15 && !(j == 7 || j == 8 || j == 9 || j == 14)
                && #[trigger] rule_hits(scripts, h2, j) {
            let (h2, j) = choose|h2: int, j: int|
                0 <= h2 < n && 0 <= j < 15 && !(j == 7 || j == 8 || j == 9 || j == 14)
                    && #[trigger] rule_hits(scripts, h2, j);
            if h2 < m {
                assert(exists|h3: int, j3: int|
                    0 <= h3 < m && 0 <= j3 < 15 && !(j3 == 7 || j3 == 8 || j3 == 9 || j3 == 14)
                        && #[trigger] rule_hits(scripts, h3, j3));
            }
        }
    }
}

/// Which scripts the scan blocks: a package's scan holds a blocking finding
/// exactly when one of its lifecycle hooks matches a rule other than the
/// warning-only ones (rules 7, 8, 9 and 14: `process.env`,
/// `require('net')`, `require("net")`, `fromcharcode`). So downloading a
/// payload with curl or wget, `eval(`, `base64`, `~/.ssh`, `~/.aws`,
/// `child_process`, `~/.npmrc`, `atob(`, `new Function(` and
/// `process.binding` always block; the escape-density heuristic never does.
pub proof fn lemma_scan_blocks_exactly(scripts: Map<Seq<char>, String>)
    ensures
        any_block(scan_spec(scripts)) == exists|h: int, j: int|
            0 <= h < 3 && 0 <= j < 15 && !(j == 7 || j == 8 || j == 9 || j == 14)
                && #[trigger] rule_hits(scripts, h, j),
        RULE_NEEDLES[6]@ == "child_process"@,
{
    lemma_hooks_block(scripts, 3);
    reveal_strlit("child_process");
}

} // verus!
