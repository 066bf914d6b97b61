//! Project configuration (`vault.toml`): every section is optional and falls
//! back to secure defaults.

use vstd::prelude::*;

verus! {

/// Top-level Vault configuration.
#[derive(Debug, Clone)]
pub struct Config {
    pub security: SecurityConfig,
    pub audit: AuditConfig,
    pub sandbox: SandboxConfig,
    pub store: StoreConfig,
}

/// Security policy knobs.
#[derive(Debug, Clone)]
pub struct SecurityConfig {
    /// Block lifecycle scripts that reach out to the network.
    pub block_postinstall_network: bool,
    /// Warn when a version was published within this many days.
    pub warn_new_maintainer_days: u32,
    /// Warn for packages below this weekly-download threshold.
    pub min_weekly_downloads: u64,
    /// Abort the install if a critical CVE is found.
    pub abort_on_critical_cve: bool,
    /// Require Sigstore provenance (strict mode).
    pub require_provenance: bool,
    /// Run reputation checks on transitive dependencies too.
    pub check_transitive: bool,
}

/// Advisory lookup settings.
#[derive(Debug, Clone)]
pub struct AuditConfig {
    /// CVE sources to query (currently: "osv").
    pub sources: Vec<String>,
    /// How long an audit result stays valid in the store.
    pub cache_ttl_hours: u64,
}

/// Sandbox grants for lifecycle scripts.
#[derive(Debug, Clone)]
pub struct SandboxConfig {
    pub enabled: bool,
    pub allow_fs_read: Vec<String>,
    pub allow_fs_write: Vec<String>,
    pub allow_net: Vec<String>,
}

/// Store location override.
#[derive(Debug, Clone)]
pub struct StoreConfig {
    /// Override the global store path. `None` means `~/.vault/store`.
    pub path: Option<String>,
}

impl Default for SecurityConfig {
    fn default() -> (c: Self)
        ensures
            c.block_postinstall_network,
            c.warn_new_maintainer_days == 30,
            c.min_weekly_downloads == 100,
            c.abort_on_critical_cve,
            !c.require_provenance,
            !c.check_transitive,
    {
        SecurityConfig {
            block_postinstall_network: true,
            warn_new_maintainer_days: 30,
            min_weekly_downloads: 100,
            abort_on_critical_cve: true,
            require_provenance: false,
            check_transitive: false,
        }
    }
}

impl Default for AuditConfig {
    fn default() -> (c: Self)
        ensures
            c.sources@.len() == 1,
            c.sources@[0]@ == "osv"@,
            c.cache_ttl_hours == 24,
    {
        let mut sources: Vec<String> = Vec::new();
        sources.push("osv".to_owned());
        AuditConfig { sources, cache_ttl_hours: 24 }
    }
}

impl Default for SandboxConfig {
    fn default() -> (c: Self)
        ensures
            c.enabled,
            c.allow_fs_read@.len() == 1,
            c.allow_fs_read@[0]@ == "./node_modules"@,
            c.allow_fs_write@.len() == 1,
            c.allow_fs_write@[0]@ == "./node_modules"@,
            c.allow_net@.len() == 0,
    {
        let mut read: Vec<String> = Vec::new();
        read.push("./node_modules".to_owned());
        let mut write: Vec<String> = Vec::new();
        write.push("./node_modules".to_owned());
        SandboxConfig { enabled: true, allow_fs_read: read, allow_fs_write: write, allow_net: Vec::new() }
    }
}

impl Default for StoreConfig {
    fn default() -> (c: Self)
        ensures
            c.path is None,
    {
        StoreConfig { path: None }
    }
}

/// Whether a configuration holds the secure defaults of every section.
pub open spec fn is_default_config(c: Config) -> bool {
    &&& c.security.block_postinstall_network
    &&& c.security.warn_new_maintainer_days == 30
    &&& c.security.min_weekly_downloads == 100
    &&& c.security.abort_on_critical_cve
    &&& !c.security.require_provenance
    &&& !c.security.check_transitive
    &&& c.audit.sources@.len() == 1
    &&& c.audit.sources@[0]@ == "osv"@
    &&& c.audit.cache_ttl_hours == 24
    &&& c.sandbox.enabled
    &&& c.sandbox.allow_fs_read@.len() == 1
    &&& c.sandbox.allow_fs_read@[0]@ == "./node_modules"@
    &&& c.sandbox.allow_fs_write@.len() == 1
    &&& c.sandbox.allow_fs_write@[0]@ == "./node_modules"@
    &&& c.sandbox.allow_net@.len() == 0
    &&& c.store.path is None
}

impl Default for Config {
    fn default() -> (c: Self)
        ensures
            is_default_config(c),
    {
        Config {
            security: SecurityConfig::default(),
            audit: AuditConfig::default(),
            sandbox: SandboxConfig::default(),
            store: StoreConfig::default(),
        }
    }
}

} // verus!
