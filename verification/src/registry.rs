//! The subset of npm registry metadata (the "packument") that resolution and
//! auditing read.

use crate::strmap::StrMap;
use crate::script::trim_trailing_slashes;
use crate::text::{chars_of, clone_opt_string, slice_chars, string_of};
use vstd::prelude::*;

verus! {

/// A package document from the registry.
pub struct Packument {
    pub name: String,
    /// `dist-tags`, e.g. `latest -> 4.17.21`.
    pub dist_tags: StrMap<String>,
    /// Metadata of every published version, keyed by version string.
    pub versions: StrMap<VersionMeta>,
    /// `time[version] = ISO timestamp`; also has `created` / `modified`.
    pub time: StrMap<String>,
    pub maintainers: Vec<Maintainer>,
}

/// A package maintainer.
#[derive(Debug, Clone)]
pub struct Maintainer {
    pub name: String,
    pub email: Option<String>,
}

/// Per-version metadata from the packument.
pub struct VersionMeta {
    pub name: String,
    pub version: String,
    pub dependencies: StrMap<String>,
    pub optional_dependencies: StrMap<String>,
    pub peer_dependencies: StrMap<String>,
    pub scripts: StrMap<String>,
    pub dist: Dist,
}

/// The `dist` block carrying the tarball URL and integrity hashes.
#[derive(Debug, Clone)]
pub struct Dist {
    pub tarball: String,
    pub shasum: Option<String>,
    pub integrity: Option<String>,
}

/// Whether two version metadata records hold the same data.
pub open spec fn same_meta(a: VersionMeta, b: VersionMeta) -> bool {
    &&& a.name == b.name
    &&& a.version == b.version
    &&& a.dependencies@ == b.dependencies@
    &&& a.optional_dependencies@ == b.optional_dependencies@
    &&& a.peer_dependencies@ == b.peer_dependencies@
    &&& a.scripts@ == b.scripts@
    &&& a.dist == b.dist
}

impl Dist {
    /// A copy of the dist block.
    pub fn duplicate(&self) -> (r: Self)
        ensures
            r == *self,
    {
        Dist {
            tarball: self.tarball.clone(),
            shasum: clone_opt_string(&self.shasum),
            integrity: clone_opt_string(&self.integrity),
        }
    }
}

impl VersionMeta {
    /// A copy of the metadata.
    pub fn duplicate(&self) -> (r: Self)
        ensures
            same_meta(r, *self),
    {
        VersionMeta {
            name: self.name.clone(),
            version: self.version.clone(),
            dependencies: self.dependencies.duplicate(),
            optional_dependencies: self.optional_dependencies.duplicate(),
            peer_dependencies: self.peer_dependencies.duplicate(),
            scripts: self.scripts.duplicate(),
            dist: self.dist.duplicate(),
        }
    }
}

/// The default npm registry.
pub const DEFAULT_REGISTRY: &'static str = "https://registry.npmjs.org";

/// The base URL of a registry: the given URL without trailing `/`.
pub fn registry_base(url: &str) -> (r: String)
    ensures
        r@ == trim_trailing_slashes(url@),
{
    let v = chars_of(url);
    let mut e = v.len();
    assert(v@.subrange(0, e as int) =~= url@);
    while e > 0 && v[e - 1] == '/'
        invariant
            e <= v@.len(),
            v@ == url@,
            trim_trailing_slashes(v@.subrange(0, e as int)) == trim_trailing_slashes(url@),
        decreases e,
    {
        assert(v@.subrange(0, e as int).drop_last() =~= v@.subrange(0, e - 1));
        e -= 1;
    }
    string_of(&slice_chars(&v, 0, e))
}

/// The URL of a package document: `<base>/<name>`, a scoped name keeping
/// its `/` unencoded.
pub fn packument_url(base: &str, name: &str) -> (r: String)
    ensures
        r@ == base@ + "/"@ + name@,
{
    let mut r = base.to_owned();
    r.append("/");
    r.append(name);
    r
}

} // verus!
