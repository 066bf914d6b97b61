# vault

A security-first package manager for npm packages: it resolves a dependency
graph, audits every package before any of its code runs (advisories,
typosquatting, publisher reputation, install-script scanning), verifies
tarball integrity fail-closed, keeps files in a content-addressed store and
links an isolated `node_modules`, and runs scripts in a sandbox.

## Layout

- `src/` — the library `vault_core`, verified with Verus. Public functions
  carry `requires`/`ensures` contracts over spec models (`Seq`, `Map`, views
  of the library's types); the clock readings (`clock::now_secs` and what is
  built on it) claim only what holds of every reading. The laws that span
  several functions are public proof functions:
  - `resolver` — version picking, alias specs, peer checks, and the steps of
    graph construction (each step keeps the graph consistent);
  - `lockfile` — lockfile from and to a resolution (round trip), manifest
    matching, timestamps;
  - `audit/` — integrity (SRI and shasum), advisories (severity, recommended
    fix: the lowest fix on the installed line), the advisory cache,
    reputation, typosquatting, install-script scanning;
  - `pipeline` — the stages of an install: the audit of every package and
    its verdict come before any tarball is fetched
    (`lemma_audit_before_fetch`);
  - `fetcher` — per tarball, extraction comes only after an integrity check
    that succeeded (`lemma_extract_only_after_verify`);
  - `store`, `linker`, `script`, `sandbox`, `package_json`, `config`,
    `registry`, `semver`, `strmap`, `text`.
  Calls into outside crates (`node-semver`, `sha2`, `sha1`, `base64`, `hex`,
  `dirs`) go through small trusted wrappers whose doc comments say what is
  assumed of them.
- `app/` — the `vt` command line: file, network and process work, the
  install loop, and the serde/clap copies of library types.
- `tests/` — tests of the library on concrete values.
