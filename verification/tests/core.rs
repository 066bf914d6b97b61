use vault_core::audit::AuditReport;
use vault_core::config::Config;
use vault_core::error::VaultError;
use vault_core::fetcher::{
    is_executable, keep_member, next_tarball_step, package_index, strip_package_prefix, TarballStep,
};
use vault_core::linker::{link_plan, sanitize};
use vault_core::lockfile::{
    civil_from_days, iso8601_at, now_iso8601, LockedPackage, Lockfile, LOCKFILE_VERSION,
};
use vault_core::package_json::{named_script, PackageJson, Section};
use vault_core::pipeline::{
    apply_strict, choose_lockfile, count_downloads, default_range, enforce_blocks, next_stage,
    record_install_audit, reputation_targets, start_audit_summary, start_summary, Stage,
};
use vault_core::registry::{packument_url, registry_base, Dist, Packument, VersionMeta};
use vault_core::resolver::{
    apply_dependency, apply_root, check_peers, level_requests, next_frontier, parse_dep_spec,
    pick_version, root_requests, Resolution, ResolvedPackage,
};
use vault_core::sandbox::Policy;
use vault_core::script::{build_env, build_policy, node_install_root, parent_of, split_path_list};
use vault_core::store::{store_root, store_root_with, Store};
use vault_core::strmap::StrMap;
use vault_core::{parse_spec, InstallOptions, InstallSummary};

fn map_of(entries: &[(&str, &str)]) -> StrMap<String> {
    let mut m = StrMap::new();
    for (k, v) in entries {
        m.insert(k.to_string(), v.to_string());
    }
    m
}

fn meta(name: &str, version: &str, deps: &[(&str, &str)]) -> VersionMeta {
    VersionMeta {
        name: name.into(),
        version: version.into(),
        dependencies: map_of(deps),
        optional_dependencies: StrMap::new(),
        peer_dependencies: StrMap::new(),
        scripts: StrMap::new(),
        dist: Dist {
            tarball: format!("https://example/{name}-{version}.tgz"),
            shasum: None,
            integrity: None,
        },
    }
}

fn packument(name: &str, versions: &[&str], latest: Option<&str>) -> Packument {
    let mut vs = StrMap::new();
    for v in versions {
        vs.insert(v.to_string(), meta(name, v, &[]));
    }
    let mut tags = StrMap::new();
    if let Some(l) = latest {
        tags.insert("latest".to_string(), l.to_string());
    }
    Packument {
        name: name.into(),
        dist_tags: tags,
        versions: vs,
        time: StrMap::new(),
        maintainers: vec![],
    }
}

// ---- fetcher ----

#[test]
fn strips_leading_package_dir() {
    assert_eq!(strip_package_prefix("package/lib/index.js"), "lib/index.js");
    assert_eq!(strip_package_prefix("package/package.json"), "package.json");
}

#[test]
fn strip_edge_cases() {
    assert_eq!(strip_package_prefix("package"), "");
    assert_eq!(strip_package_prefix("/abs/x"), "abs/x");
    assert_eq!(strip_package_prefix("other//a\\b"), "a/b");
    assert!(is_executable(0o755));
    assert!(!is_executable(0o644));
    assert_eq!(keep_member(true, "package/bin/cli", Some(0o755)), Some(("bin/cli".to_string(), true)));
    assert_eq!(keep_member(true, "package/", None), None);
    assert_eq!(keep_member(false, "package/dir", Some(0o755)), None);
    assert_eq!(keep_member(true, "package/a.js", None), Some(("a.js".to_string(), false)));
}

#[test]
fn stripped_paths_follow_path_components() {
    assert_eq!(strip_package_prefix("package/./x"), "x");
    assert_eq!(strip_package_prefix("package/a/"), "a");
    assert_eq!(strip_package_prefix("package/a/."), "a");
    assert_eq!(strip_package_prefix("package/a//./b/./"), "a//./b");
    assert_eq!(strip_package_prefix("./package/x"), "package/x");
    assert_eq!(strip_package_prefix("package/."), "");
    assert_eq!(strip_package_prefix("package/.\\x"), "./x");
    assert_eq!(strip_package_prefix("package/a/.."), "a/..");
    assert_eq!(keep_member(true, "package/./", Some(0o644)), None);
}

fn std_stripped(path: &str) -> String {
    let mut comps = std::path::Path::new(path).components();
    comps.next();
    comps.as_path().to_string_lossy().replace('\\', "/").trim_start_matches('/').to_string()
}

#[test]
fn stripped_paths_agree_with_std_path() {
    for p in [
        "package/lib/index.js",
        "package",
        "/abs/x",
        "//abs//x/",
        "other//a\\b",
        "package/./x",
        "package/a/",
        "package/a/.",
        "package/a//./b/./",
        "./package/x",
        "./",
        ".",
        "./.",
        "package/.",
        "package/.\\x",
        "package/a/..",
        "package/..",
        "package/\\a",
        "package/a\\",
        "package/././/x/./y//",
        "",
        "/",
        "/./a",
    ] {
        assert_eq!(strip_package_prefix(p), std_stripped(p), "path {p:?}");
    }
}

#[test]
fn empty_tarball_is_an_error() {
    let mut res = Resolution::default();
    let p = packument("demo", &["1.0.0"], None);
    vault_core::resolver::insert_node(&mut res, "demo", "1.0.0", &p).unwrap();
    let pkg = res.packages.get("demo@1.0.0").unwrap();
    match package_index(pkg, vec![]) {
        Err(VaultError::Resolution { name, reason }) => {
            assert_eq!(name, "demo@1.0.0");
            assert_eq!(reason, "tarball contained no files");
        }
        other => panic!("unexpected {other:?}"),
    }
}

// ---- lib ----

#[test]
fn parse_plain_spec() {
    assert_eq!(parse_spec("lodash"), ("lodash".into(), None));
    assert_eq!(
        parse_spec("lodash@4.17.21"),
        ("lodash".into(), Some("4.17.21".into()))
    );
}

#[test]
fn parse_scoped_spec() {
    assert_eq!(parse_spec("@types/node"), ("@types/node".into(), None));
    assert_eq!(
        parse_spec("@types/node@20.0.0"),
        ("@types/node".into(), Some("20.0.0".into()))
    );
}

#[test]
fn install_options_defaults() {
    let o = InstallOptions::new(std::path::PathBuf::from("/p"));
    assert!(o.include_dev && !o.force && !o.strict && !o.frozen);
    assert_eq!(default_range(Some(&"4.17.21".to_string())), "^4.17.21");
    assert_eq!(default_range(Some(&"*".to_string())), "*");
    assert_eq!(default_range(None), "*");
}

#[test]
fn summary_decisions() {
    let mut s = InstallSummary::default();
    let mut reports: StrMap<AuditReport> = StrMap::new();
    let report = AuditReport {
        advisories: vec![vault_core::audit::osv::Advisory {
            id: "GHSA-1".into(),
            summary: "bad".into(),
            severity: "low".into(),
            fixed: Some("1.0.1".into()),
        }],
        findings: vec![],
        lifecycle_hooks: vec!["install".into(), "postinstall".into()],
    };
    record_install_audit(&mut s, &mut reports, "a@1.0.0".into(), Ok(report), &vec!["GHSA-1".into()]).unwrap();
    assert_eq!(s.advisories, 1);
    assert_eq!(
        s.warnings,
        vec![
            "a@1.0.0: GHSA-1 [low] bad — fix: upgrade to >= 1.0.1".to_string(),
            "a@1.0.0: has lifecycle scripts (install, postinstall) — run them sandboxed with `vault run`".to_string(),
        ]
    );
    assert!(reports.contains_key("a@1.0.0"));
    let block = VaultError::SecurityBlock { name: "b".into(), version: "1".into(), reason: "why".into() };
    record_install_audit(&mut s, &mut reports, "b@1".into(), Err(block), &vec![]).unwrap();
    assert_eq!(s.blocked, vec!["b@1: why".to_string()]);
    let other = VaultError::Config("x".into());
    assert!(record_install_audit(&mut s, &mut reports, "c@1".into(), Err(other), &vec![]).is_err());
    apply_strict(&mut s, true);
    assert_eq!(s.blocked[1], "1 advisory/ies present and --strict is set");
    match enforce_blocks(&s, false) {
        Err(VaultError::Blocked(m)) => assert_eq!(m, "2 package(s) blocked (use --force to override)"),
        other => panic!("unexpected {other:?}"),
    }
    assert!(enforce_blocks(&s, true).is_ok());
    assert_eq!(count_downloads(vec![Ok(true), Ok(false), Ok(true)]).unwrap(), 2);
    assert!(matches!(
        count_downloads(vec![Ok(true), Err(VaultError::Io("disk".into())), Err(VaultError::Config("z".into()))]),
        Err(VaultError::Io(_))
    ));
}

// ---- lockfile ----

fn locked(resolved: &str) -> LockedPackage {
    LockedPackage {
        resolved: resolved.into(),
        integrity: "sha512-abc".into(),
        shasum: None,
        dependencies: StrMap::new(),
        scripts: StrMap::new(),
        audited_at: now_iso8601(),
        audit_sources: vec!["osv".into()],
        cve_status: "clean".into(),
        sandboxed: false,
    }
}

#[test]
fn timestamp_is_well_formed() {
    let ts = now_iso8601();
    assert_eq!(ts.len(), 20, "YYYY-MM-DDTHH:MM:SSZ");
    assert!(ts.ends_with('Z'));
}

#[test]
fn timestamps_and_civil_dates() {
    assert_eq!(iso8601_at(0), "1970-01-01T00:00:00Z");
    assert_eq!(iso8601_at(951_782_400 + 3661), "2000-02-29T01:01:01Z");
    assert_eq!(civil_from_days(10957), (2000, 1, 1));
    assert_eq!(civil_from_days(-1), (1969, 12, 31));
}

#[test]
fn manifest_match_and_roundtrip() {
    let mut roots = StrMap::new();
    roots.insert("lodash".to_string(), "lodash@4.17.21".to_string());
    let mut packages = StrMap::new();
    packages.insert("lodash@4.17.21".to_string(), locked("https://example/lodash.tgz"));
    let lock = Lockfile {
        lockfile_version: LOCKFILE_VERSION,
        roots,
        packages,
    };

    let mut manifest = StrMap::new();
    manifest.insert("lodash".to_string(), "^4.17.0".to_string());
    assert!(lock.matches_manifest(&manifest));

    manifest.insert("lodash".to_string(), "^5.0.0".to_string());
    assert!(!lock.matches_manifest(&manifest));

    let res = lock.to_resolution();
    assert_eq!(res.packages.len(), 1);
    assert_eq!(res.roots.get("lodash").unwrap(), "lodash@4.17.21");
    assert_eq!(
        res.packages.get("lodash@4.17.21").unwrap().meta.dist.tarball,
        "https://example/lodash.tgz"
    );
}

#[test]
fn lockfile_roundtrips_a_resolution() {
    let mut res = Resolution::default();
    let p = packument("@s/a", &["1.0.0"], None);
    vault_core::resolver::insert_node(&mut res, "@s/a", "1.0.0", &p).unwrap();
    res.roots.insert("a".into(), "@s/a@1.0.0".into());
    let lock = Lockfile::from_resolution_at(&res, &StrMap::new(), &["osv".to_string()], "T");
    let back = lock.to_resolution();
    let pkg = back.packages.get("@s/a@1.0.0").unwrap();
    assert_eq!(pkg.name, "@s/a");
    assert_eq!(pkg.version, "1.0.0");
    assert_eq!(pkg.meta.dist.tarball, "https://example/@s/a-1.0.0.tgz");
    assert_eq!(pkg.meta.dist.integrity, None);
    assert_eq!(back.roots.get("a").unwrap(), "@s/a@1.0.0");
    let l = lock.packages.get("@s/a@1.0.0").unwrap();
    assert_eq!(l.cve_status, "unknown");
    assert_eq!(l.audited_at, "T");
}

#[test]
fn frozen_install_needs_a_lockfile() {
    let roots = map_of(&[("x", "^1")]);
    assert!(matches!(choose_lockfile(None, &roots, false), Ok(None)));
    match choose_lockfile(None, &roots, true) {
        Err(VaultError::Config(m)) => assert_eq!(m, "--frozen-lockfile: vault.lock is missing or out of date"),
        other => panic!("unexpected {:?}", other.map(|_| ())),
    }
}

// ---- resolver ----

#[test]
fn parses_npm_aliases() {
    assert_eq!(
        parse_dep_spec("wrap-ansi-cjs", "npm:wrap-ansi@^7.0.0"),
        ("wrap-ansi".to_string(), "^7.0.0".to_string())
    );
    assert_eq!(
        parse_dep_spec("x", "npm:@scope/pkg@^1.2.3"),
        ("@scope/pkg".to_string(), "^1.2.3".to_string())
    );
    assert_eq!(
        parse_dep_spec("lodash", "^4.17.21"),
        ("lodash".to_string(), "^4.17.21".to_string())
    );
}

fn range_satisfied(range_str: &str, version: &str) -> bool {
    match (
        node_semver::Range::parse(range_str),
        node_semver::Version::parse(version),
    ) {
        (Ok(r), Ok(v)) => r.satisfies(&v),
        _ => false,
    }
}

#[test]
fn caret_range_is_satisfied() {
    assert!(range_satisfied("^1.2.0", "1.5.1"));
    assert!(!range_satisfied("^1.2.0", "2.0.0"));
}

#[test]
fn picks_highest_satisfying_version() {
    let p = packument("demo", &["1.0.0", "1.2.0", "1.9.3", "2.0.0"], None);
    assert_eq!(pick_version("demo", "^1.0.0", &p).unwrap(), "1.9.3");
    assert_eq!(pick_version("demo", "1.2.0", &p).unwrap(), "1.2.0");
}

#[test]
fn pick_honours_tags_and_reports_errors() {
    let p = packument("demo", &["1.0.0", "1.1.0-beta.1", "1.1.0"], Some("1.0.0"));
    assert_eq!(pick_version("demo", "latest", &p).unwrap(), "1.0.0");
    assert_eq!(pick_version("demo", "*", &p).unwrap(), "1.0.0");
    assert_eq!(pick_version("demo", ">=1.0.0-0", &p).unwrap(), "1.1.0");
    match pick_version("demo", "^9", &p) {
        Err(VaultError::Resolution { name, reason }) => {
            assert_eq!(name, "demo");
            assert_eq!(reason, "no published version satisfies `^9`");
        }
        other => panic!("unexpected {other:?}"),
    }
    match pick_version("demo", "not a range!", &p) {
        Err(VaultError::Resolution { reason, .. }) => {
            assert!(reason.starts_with("invalid version range `not a range!`: "))
        }
        other => panic!("unexpected {other:?}"),
    }
}

#[test]
fn resolution_steps_build_the_graph() {
    let mut res = Resolution::default();
    let roots = map_of(&[("a", "^1")]);
    let reqs = root_requests(&roots);
    let mut frontier = Vec::new();
    let mut pa = packument("a", &["1.0.0", "1.5.0"], None);
    pa.versions.insert("1.5.0".into(), meta("a", "1.5.0", &[("b", "^2"), ("c", "npm:b@^2")]));
    apply_root(&mut res, &mut frontier, &reqs[0], Ok(pa)).unwrap();
    assert_eq!(frontier, vec!["a@1.5.0".to_string()]);
    assert_eq!(res.roots.get("a").unwrap(), "a@1.5.0");

    let level = level_requests(&res, &frontier);
    assert_eq!(level.len(), 2);
    assert_eq!(level[1].alias, "c");
    assert_eq!(level[1].real_name, "b");
    let mut next = Vec::new();
    for req in &level {
        let pb = packument("b", &["2.0.0", "2.1.0"], None);
        apply_dependency(&mut res, &mut next, req, Ok(pb)).unwrap();
    }
    assert_eq!(next_frontier(next), vec!["b@2.1.0".to_string()]);
    let a = res.packages.get("a@1.5.0").unwrap();
    assert_eq!(a.deps.get("b").unwrap(), "b@2.1.0");
    assert_eq!(a.deps.get("c").unwrap(), "b@2.1.0");
    assert_eq!(res.packages.len(), 2);
    assert!(check_peers(&res).is_empty());
}

#[test]
fn optional_dependencies_are_skipped_with_a_warning() {
    let mut res = Resolution::default();
    let roots = map_of(&[("a", "*")]);
    let mut frontier = Vec::new();
    let pa = packument("a", &["1.0.0"], Some("1.0.0"));
    apply_root(&mut res, &mut frontier, &root_requests(&roots)[0], Ok(pa)).unwrap();
    let mut req = level_requests(&res, &frontier);
    assert!(req.is_empty());
    req.push(vault_core::resolver::DepReq {
        parent: Some("a@1.0.0".into()),
        alias: "opt".into(),
        real_name: "opt".into(),
        real_range: "^1".into(),
        optional: true,
    });
    let mut next = Vec::new();
    apply_dependency(&mut res, &mut next, &req[0], Err(VaultError::Http("down".into()))).unwrap();
    assert_eq!(res.warnings[0].name, "opt");
    assert_eq!(res.warnings[0].message, "optional dependency skipped (could not resolve)");
    let mut tagged = packument("opt", &[], None);
    tagged.dist_tags.insert("^1".into(), "9.9.9".into());
    apply_dependency(&mut res, &mut next, &req[0], Ok(tagged)).unwrap();
    assert_eq!(
        res.warnings[1].message,
        "optional dependency skipped (could not resolve `opt`: version 9.9.9 missing from packument)"
    );
    req[0].optional = false;
    assert!(apply_dependency(&mut res, &mut next, &req[0], Err(VaultError::Http("down".into()))).is_err());
    assert!(next.is_empty());
    assert_eq!(start_summary(&res).warnings.len(), 2);
    assert_eq!(reputation_targets(&res, false), vec!["a@1.0.0".to_string()]);
}

#[test]
fn unmet_peers_are_reported() {
    let mut res = Resolution::default();
    let mut p = packument("plugin", &["1.0.0"], None);
    let mut m = meta("plugin", "1.0.0", &[]);
    m.peer_dependencies = map_of(&[("host", "^2"), ("absent", "^1")]);
    p.versions.insert("1.0.0".into(), m);
    vault_core::resolver::insert_node(&mut res, "plugin", "1.0.0", &p).unwrap();
    let h = packument("host", &["1.0.0"], None);
    vault_core::resolver::insert_node(&mut res, "host", "1.0.0", &h).unwrap();
    assert_eq!(
        check_peers(&res),
        vec![
            "unmet peer dependency: plugin@1.0.0 wants absent@^1 (not installed)".to_string(),
            "unmet peer dependency: plugin@1.0.0 wants host@^2, but a different version is installed".to_string(),
        ]
    );
}

// ---- store, linker, registry ----

#[test]
fn store_paths() {
    let s = Store::at("/home/u/.vault/store".into());
    assert_eq!(s.files_dir(), "/home/u/.vault/store/v1/files");
    assert_eq!(
        s.index_path("@types/node", "20.0.0"),
        "/home/u/.vault/store/v1/index/@types+node@20.0.0.json"
    );
    assert_eq!(s.object_path("abcdef"), "/home/u/.vault/store/v1/files/ab/cdef");
    assert_eq!(s.object_path("\u{e9}ab"), "/home/u/.vault/store/v1/files/\u{e9}/ab");
    assert_eq!(store_root_with(Some("~/x"), Some("/h".into())), "/h/x");
    assert_eq!(store_root_with(Some("/abs"), Some("/h".into())), "/abs");
    assert_eq!(store_root_with(None, None), "./.vault/store");
    assert!(store_root(None).ends_with(".vault/store"));
}

#[test]
fn content_hash_is_sha256_hex() {
    let h1 = Store::content_hash(b"hello world");
    assert_eq!(h1, "b94d27b9934d3e08a52e52d7da7dabfac484efe37a5380ee9088f7ace2efcde9");
    assert_eq!(Store::content_hash(b"hello world"), h1);
    assert_ne!(Store::content_hash(b"hello world!"), h1);
    let s = Store::at("/s".into());
    assert_eq!(
        s.object_path(&h1),
        "/s/v1/files/b9/4d27b9934d3e08a52e52d7da7dabfac484efe37a5380ee9088f7ace2efcde9"
    );
}

#[test]
fn alias_links_point_at_the_real_package() {
    let mut res = Resolution::default();
    let y = packument("y", &["1.0.0"], None);
    vault_core::resolver::insert_node(&mut res, "y", "1.0.0", &y).unwrap();
    let mut deps = StrMap::new();
    deps.insert("x".to_string(), "y@1.0.0".to_string());
    res.packages.insert(
        "p@1.0.0".to_string(),
        ResolvedPackage { name: "p".into(), version: "1.0.0".into(), meta: meta("p", "1.0.0", &[]), deps },
    );
    res.roots.insert("x".into(), "y@1.0.0".into());
    let plan = link_plan("/n", &res);
    assert_eq!(plan.links.len(), 2);
    assert_eq!(plan.links[0].target, "/n/.vault/y@1.0.0/node_modules/y");
    assert_eq!(plan.links[0].link, "/n/.vault/p@1.0.0/node_modules/x");
    assert_eq!(plan.links[1].target, "/n/.vault/y@1.0.0/node_modules/y");
    assert_eq!(plan.links[1].link, "/n/x");
}

#[test]
fn link_plan_layout() {
    let mut res = Resolution::default();
    let p = packument("@s/a", &["1.0.0"], None);
    vault_core::resolver::insert_node(&mut res, "@s/a", "1.0.0", &p).unwrap();
    res.roots.insert("a".into(), "@s/a@1.0.0".into());
    let plan = link_plan("/p/node_modules", &res);
    assert_eq!(plan.dirs[0].dir, "/p/node_modules/.vault/@s+a@1.0.0/node_modules/@s/a");
    assert_eq!(plan.links.len(), 1);
    assert_eq!(plan.links[0].target, "/p/node_modules/.vault/@s+a@1.0.0/node_modules/@s/a");
    assert_eq!(plan.links[0].link, "/p/node_modules/a");
    assert_eq!(sanitize("@scope/name@1.0.0"), "@scope+name@1.0.0");
}

#[test]
fn registry_urls() {
    assert_eq!(registry_base("https://r.example//"), "https://r.example");
    assert_eq!(packument_url("https://r.example", "@s/a"), "https://r.example/@s/a");
}

// ---- sandbox, scripts, package.json ----

#[test]
fn policy_builder_collects_paths() {
    let mut p = Policy::default();
    p.allow_read("/usr").allow_write("/tmp/x");
    assert_eq!(p.read, vec!["/usr".to_string()]);
    assert_eq!(p.write, vec!["/tmp/x".to_string()]);
}

#[test]
fn script_policy_and_environment() {
    let present = vec![true, true, false, false, true, false, false, false, false];
    let p = build_policy(&present, Some("/opt/node"), None, "/proj");
    assert_eq!(p.read, vec!["/usr", "/bin", "/etc", "/opt/node"]);
    assert_eq!(p.write, vec!["/proj", "/tmp"]);
    let env = build_env("/proj", Some("/usr/bin"), &vec![Some("/home/u".into()), None, None, Some("u".into())]);
    assert_eq!(
        env,
        vec![
            ("PATH".to_string(), "/proj/node_modules/.bin:/usr/bin".to_string()),
            ("HOME".to_string(), "/home/u".to_string()),
            ("USER".to_string(), "u".to_string()),
        ]
    );
    assert_eq!(split_path_list("/a::/b"), vec!["/a", "", "/b"]);
    assert_eq!(parent_of("/usr/local/bin/"), Some("/usr/local".to_string()));
    assert_eq!(parent_of("/bin"), Some("/".to_string()));
    assert_eq!(parent_of("bin"), Some("".to_string()));
    assert_eq!(parent_of("/"), None);
    let dirs = vec!["/x/bin".to_string(), "/usr/local/bin".to_string()];
    assert_eq!(node_install_root(&dirs, &vec![false, true]), Some("/usr/local".to_string()));
    assert_eq!(node_install_root(&dirs, &vec![false, false]), None);
}

fn sec(entries: &[(&str, Option<&str>)]) -> Section {
    let mut m = StrMap::new();
    for (k, v) in entries {
        m.insert(k.to_string(), v.map(|s| s.to_string()));
    }
    Section::Object(m)
}

#[test]
fn package_json_sections() {
    let mut pj = PackageJson {
        is_object: true,
        name: Some("app".into()),
        dependencies: sec(&[("a", Some("^1")), ("weird", None)]),
        optional_dependencies: sec(&[("b", Some("^2"))]),
        dev_dependencies: sec(&[("a", Some("^3")), ("c", Some("^4"))]),
        scripts: sec(&[("build", Some("tsc"))]),
    };
    let prod = pj.all_dependencies(false);
    assert_eq!(prod.len(), 2);
    assert_eq!(prod.get("a").unwrap(), "^1");
    let all = pj.all_dependencies(true);
    assert_eq!(all.get("a").unwrap(), "^3");
    assert_eq!(all.len(), 3);
    assert_eq!(pj.script("build"), Some("tsc".to_string()));
    assert_eq!(named_script(&pj, "build").unwrap(), "tsc");
    match named_script(&pj, "test") {
        Err(VaultError::Config(m)) => assert_eq!(m, "no script named `test` in package.json"),
        other => panic!("unexpected {other:?}"),
    }
    pj.set_dependency("d", "^5");
    assert!(pj.all_dependencies(false).contains_key("d"));
    assert!(pj.remove_dependency("a"));
    assert!(!pj.remove_dependency("zzz"));
    assert!(!pj.all_dependencies(true).contains_key("a"));
    assert_eq!(pj.name().unwrap(), "app");
}

#[test]
fn defaults_are_secure() {
    let cfg = Config::default();
    assert!(cfg.security.abort_on_critical_cve);
    assert!(cfg.security.block_postinstall_network);
    assert_eq!(cfg.audit.sources, vec!["osv".to_string()]);
}

#[test]
fn error_texts() {
    let e = VaultError::Resolution { name: "x".into(), reason: "y".into() };
    assert_eq!(e.message(), "could not resolve `x`: y");
    let e = VaultError::Integrity { name: "p".into(), version: "1".into(), expected: "e".into(), actual: "a".into() };
    assert_eq!(e.message(), "integrity check failed for p@1: expected e, got a");
}

#[test]
fn install_stages_audit_before_fetch() {
    let mut s = InstallSummary::default();
    assert_eq!(next_stage(Stage::Resolve, &s, false, true).unwrap(), Stage::Audit);
    assert_eq!(next_stage(Stage::Audit, &s, false, true).unwrap(), Stage::Verdict);
    assert_eq!(next_stage(Stage::Verdict, &s, false, true).unwrap(), Stage::Fetch);
    assert_eq!(next_stage(Stage::Fetch, &s, false, true).unwrap(), Stage::Link);
    assert_eq!(next_stage(Stage::Link, &s, false, true).unwrap(), Stage::Lock);
    assert_eq!(next_stage(Stage::Link, &s, false, false).unwrap(), Stage::Done);
    assert_eq!(next_stage(Stage::Lock, &s, false, true).unwrap(), Stage::Done);
    s.blocked.push("x@1: bad".into());
    match next_stage(Stage::Verdict, &s, false, true) {
        Err(VaultError::Blocked(m)) => assert_eq!(m, "1 package(s) blocked (use --force to override)"),
        other => panic!("unexpected {other:?}"),
    }
    assert_eq!(next_stage(Stage::Verdict, &s, true, true).unwrap(), Stage::Fetch);
}

#[test]
fn tarball_steps_verify_before_extract() {
    assert_eq!(next_tarball_step(TarballStep::Download, false), Some(TarballStep::Verify));
    assert_eq!(next_tarball_step(TarballStep::Verify, false), None);
    assert_eq!(next_tarball_step(TarballStep::Verify, true), Some(TarballStep::Extract));
    assert_eq!(next_tarball_step(TarballStep::Extract, true), Some(TarballStep::Index));
    assert_eq!(next_tarball_step(TarballStep::Index, true), None);
}

#[test]
fn audit_summary_starts_empty() {
    let mut res = Resolution::default();
    let p = packument("a", &["1.0.0"], None);
    vault_core::resolver::insert_node(&mut res, "a", "1.0.0", &p).unwrap();
    res.warnings.push(vault_core::resolver::ResolutionWarning { name: "a".into(), message: "m".into() });
    let s = start_audit_summary(&res);
    assert_eq!(s.resolved, 1);
    assert!(s.warnings.is_empty());
    assert_eq!(start_summary(&res).warnings, vec!["a: m".to_string()]);
}
