//! The advisory cache.
//!
//! Advisory lookups are cached per `name@version` in the global store. A
//! cached verdict is reused while it is no older than the configured number
//! of hours, so repeated installs do not query OSV again for packages that
//! were already vetted. Reading and writing the entries is the store's I/O;
//! here are the key, the entries and the freshness rule.

use crate::audit::osv::Advisory;
use crate::clock::now_secs;
use crate::text::push_char;
use vstd::prelude::*;

verus! {

/// The kind under which cache entries are kept in the store's metadata.
pub const KIND: &'static str = "audit";

/// A cached advisory verdict.
#[derive(Debug, Clone)]
pub struct CacheEntry {
    /// Unix epoch seconds at which the audit ran.
    pub audited_at: u64,
    pub advisories: Vec<Advisory>,
}

/// The cache key of a package version: `name@version`.
pub fn cache_key(name: &str, version: &str) -> (k: String)
    ensures
        k@ == name@ + seq!['@'] + version@,
{
    let mut k = name.to_owned();
    push_char(&mut k, '@');
    k.append(version);
    k
}

/// `a - b`, or 0 when `b > a`.
pub open spec fn saturating_sub(a: int, b: int) -> int {
    if a >= b {
        a - b
    } else {
        0
    }
}

/// `a * b`, or `u64::MAX` when the product does not fit.
pub open spec fn saturating_mul(a: int, b: int) -> int {
    if a * b > u64::MAX {
        u64::MAX as int
    } else {
        a * b
    }
}

/// Whether an entry audited at `audited_at` is still fresh at `now` for a
/// time-to-live of `ttl_hours`: its age is at most the TTL, where an entry
/// from the future has age 0 and a TTL too large for `u64` seconds is
/// unbounded.
pub open spec fn is_fresh(now: u64, audited_at: u64, ttl_hours: u64) -> bool {
    saturating_sub(now as int, audited_at as int) <= saturating_mul(ttl_hours as int, 3600)
}

/// What the cache gives for `entry` at time `now`: its advisories while it
/// is fresh, else nothing.
pub open spec fn cached_at(entry: Option<CacheEntry>, now: u64, ttl_hours: u64) -> Option<
    Vec<Advisory>,
> {
    match entry {
        Some(e) => if is_fresh(now, e.audited_at, ttl_hours) {
            Some(e.advisories)
        } else {
            None
        },
        None => None,
    }
}

/// The cached advisories of `entry` at time `now`: present while fresh.
pub fn lookup(entry: Option<CacheEntry>, now: u64, ttl_hours: u64) -> (r: Option<Vec<Advisory>>)
    ensures
        match entry {
            Some(e) => if is_fresh(now, e.audited_at, ttl_hours) {
                r == Some(e.advisories)
            } else {
                r is None
            },
            None => r is None,
        },
{
    let e = entry?;
    let age = now.saturating_sub(e.audited_at);
    let ttl_secs = if ttl_hours > u64::MAX / 3600 {
        u64::MAX
    } else {
        ttl_hours * 3600
    };
    if age <= ttl_secs {
        Some(e.advisories)
    } else {
        None
    }
}

/// The cached advisories of `entry` now, by the system clock: what the
/// cache gives at some reading of the clock. So there is nothing without an
/// entry, and an entry that is fresh at every reading is always returned.
pub fn get(entry: Option<CacheEntry>, ttl_hours: u64) -> (r: Option<Vec<Advisory>>)
    ensures
        exists|now: u64| r == #[trigger] cached_at(entry, now, ttl_hours),
{
    let now = now_secs();
    let ghost e0 = entry;
    let r = lookup(entry, now, ttl_hours);
    assert(r == cached_at(e0, now, ttl_hours));
    r
}

/// The entry that records `advisories` as audited at `now`.
pub fn entry_at(advisories: Vec<Advisory>, now: u64) -> (e: CacheEntry)
    ensures
        e.audited_at == now,
        e.advisories == advisories,
{
    CacheEntry { audited_at: now, advisories }
}

/// The entry that records `advisories` as audited now, by the system clock.
pub fn put(advisories: Vec<Advisory>) -> (e: CacheEntry)
    ensures
        e.advisories == advisories,
{
    entry_at(advisories, now_secs())
}

} // verus!
