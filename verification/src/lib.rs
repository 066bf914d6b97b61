//! Vault core: secure, pnpm-style package management for Node.js.
//!
//! The library holds the decisions of the install pipeline (resolve, audit,
//! fetch and verify, link, lock) as verified functions over plain values:
//! the network, the store on disk and the terminal belong to the caller.
//! The security audit comes before any tarball is downloaded or extracted,
//! so a malicious package is refused on its metadata alone whenever
//! possible.

pub mod audit;
pub mod clock;
pub mod config;
pub mod error;
pub mod fetcher;
pub mod linker;
pub mod lockfile;
pub mod package_json;
pub mod pipeline;
pub mod registry;
pub mod resolver;
pub mod sandbox;
pub mod script;
pub mod semver;
pub mod store;
pub mod strmap;
pub mod text;

pub use pipeline::{parse_spec, InstallOptions, InstallSummary};
