//! The layout of an isolated, pnpm-style `node_modules`.
//!
//! ```text
//! node_modules/
//! ├── .vault/                          ← virtual store
//! │   └── <name>@<ver>/node_modules/
//! │       ├── <name>/                  ← real files (hard-linked from the store)
//! │       └── <dep>  → ../../<dep>@<ver>/node_modules/<dep>   (symlink)
//! └── <root>  → .vault/<root>@<ver>/node_modules/<root>       (symlink)
//! ```
//!
//! A link always points at the directory that holds the package's files,
//! named by the package's real name, also where it is installed under an npm
//! alias (`"x": "npm:y@1.0.0"` links `node_modules/x` to
//! `.vault/y@1.0.0/node_modules/y`).
//!
//! Node resolves a package's dependencies relative to its real path, so each
//! package can only `require` what it declared. The plan computed here is
//! carried out by the caller on the file system.

use crate::resolver::{package_id, Resolution, ResolvedPackage};
use crate::strmap::StrMap;
use crate::text::{join_path, path_join, replace_char, replace_chars};
use vstd::prelude::*;

verus! {

/// The directory key of a package id: `@scope/name@1.0.0` becomes
/// `@scope+name@1.0.0`.
pub fn sanitize(id: &str) -> (r: String)
    ensures
        r@ == replace_char(id@, '/', '+'),
{
    replace_chars(id, '/', '+')
}

/// `<node_modules>/.vault/<sanitized id>/node_modules`: where the
/// dependencies of the package `id` are seen.
pub open spec fn deps_base(node_modules: Seq<char>, id: Seq<char>) -> Seq<char> {
    join_path(join_path(join_path(node_modules, ".vault"@), replace_char(id, '/', '+')), "node_modules"@)
}

/// The directory holding the files of package `id`, under the name `name`.
pub open spec fn package_dir(node_modules: Seq<char>, id: Seq<char>, name: Seq<char>) -> Seq<char> {
    join_path(deps_base(node_modules, id), name)
}

/// A package to materialize: its directory and the name and version whose
/// store index lists its files.
pub struct PackageDir {
    pub dir: String,
    pub name: String,
    pub version: String,
}

/// A symbolic link at `link` pointing to `target`.
pub struct Symlink {
    pub target: String,
    pub link: String,
}

/// What linking a resolved graph does: materialize each package, then
/// create the dependency links, then the links of the direct dependencies.
pub struct LinkPlan {
    pub dirs: Vec<PackageDir>,
    pub links: Vec<Symlink>,
}

/// Whether `d` is the directory entry of package `pkg`.
pub open spec fn is_package_dir(d: PackageDir, node_modules: Seq<char>, pkg: ResolvedPackage) -> bool {
    &&& d.dir@ == package_dir(node_modules, package_id(pkg.name@, pkg.version@), pkg.name@)
    &&& d.name@ == pkg.name@
    &&& d.version@ == pkg.version@
}

/// The directory a link to package `id` (seen as `alias`) points at: the
/// package's own directory, under its real name, which differs from the
/// alias for npm aliases. An id outside the graph keeps the alias.
pub open spec fn link_target(
    node_modules: Seq<char>,
    packages: Map<Seq<char>, ResolvedPackage>,
    id: Seq<char>,
    alias: Seq<char>,
) -> Seq<char> {
    if packages.contains_key(id) {
        package_dir(node_modules, id, packages[id].name@)
    } else {
        package_dir(node_modules, id, alias)
    }
}

/// The (target, link) pairs of the dependencies of a package.
pub open spec fn dep_links(
    node_modules: Seq<char>,
    packages: Map<Seq<char>, ResolvedPackage>,
    pkg: ResolvedPackage,
) -> Seq<(Seq<char>, Seq<char>)> {
    let id = package_id(pkg.name@, pkg.version@);
    pkg.deps.pairs().map_values(
        |e: (Seq<char>, String)|
            (
                link_target(node_modules, packages, e.1@, e.0),
                join_path(deps_base(node_modules, id), e.0),
            ),
    )
}

/// The dependency links of the first `n` packages, in order.
pub open spec fn all_dep_links(
    node_modules: Seq<char>,
    packages: Map<Seq<char>, ResolvedPackage>,
    pkgs: Seq<(Seq<char>, ResolvedPackage)>,
    n: nat,
) -> Seq<(Seq<char>, Seq<char>)>
    decreases n,
{
    if n == 0 {
        Seq::empty()
    } else {
        all_dep_links(node_modules, packages, pkgs, (n - 1) as nat) + dep_links(
            node_modules,
            packages,
            pkgs[n - 1].1,
        )
    }
}

/// The links of the direct dependencies.
pub open spec fn root_links(
    node_modules: Seq<char>,
    packages: Map<Seq<char>, ResolvedPackage>,
    roots: Seq<(Seq<char>, String)>,
) -> Seq<(Seq<char>, Seq<char>)> {
    roots.map_values(
        |e: (Seq<char>, String)|
            (link_target(node_modules, packages, e.1@, e.0), join_path(node_modules, e.0)),
    )
}

/// The views of a list of links.
pub open spec fn link_views(ls: Seq<Symlink>) -> Seq<(Seq<char>, Seq<char>)> {
    ls.map_values(|l: Symlink| (l.target@, l.link@))
}

fn package_dir_string(node_modules: &str, id: &str, name: &str) -> (r: String)
    ensures
        r@ == package_dir(node_modules@, id@, name@),
{
    let base = deps_base_string(node_modules, id);
    path_join(base.as_str(), name)
}

fn link_target_string(
    node_modules: &str,
    packages: &StrMap<ResolvedPackage>,
    id: &str,
    alias: &str,
) -> (r: String)
    ensures
        r@ == link_target(node_modules@, packages@, id@, alias@),
{
    match packages.get(id) {
        Some(p) => package_dir_string(node_modules, id, p.name.as_str()),
        None => package_dir_string(node_modules, id, alias),
    }
}

fn deps_base_string(node_modules: &str, id: &str) -> (r: String)
    ensures
        r@ == deps_base(node_modules@, id@),
{
    let vs = path_join(node_modules, ".vault");
    let key = sanitize(id);
    path_join(path_join(vs.as_str(), key.as_str()).as_str(), "node_modules")
}

fn push_links(
    links: &mut Vec<Symlink>,
    node_modules: &str,
    packages: &StrMap<ResolvedPackage>,
    pkg: &ResolvedPackage,
)
    ensures
        link_views(final(links)@) == link_views(old(links)@) + dep_links(
            node_modules@,
            packages@,
            *pkg,
        ),
{
    let id = pkg.id();
    let base = deps_base_string(node_modules, id.as_str());
    let n = pkg.deps.len();
    let ghost start = link_views(links@);
    let ghost all = dep_links(node_modules@, packages@, *pkg);
    let mut i: usize = 0;
    while i < n
        invariant
            i <= n == pkg.deps.pairs().len(),
            base@ == deps_base(node_modules@, id@),
            id@ == package_id(pkg.name@, pkg.version@),
            all == dep_links(node_modules@, packages@, *pkg),
            link_views(links@) == start + all.take(i as int),
        decreases n - i,
    {
        let alias = pkg.deps.key_at(i);
        let dep_id = pkg.deps.value_at(i);
        let target = link_target_string(node_modules, packages, dep_id.as_str(), alias.as_str());
        let link = path_join(base.as_str(), alias.as_str());
        let ghost before = links@;
        let l = Symlink { target, link };
        let ghost lv = (l.target@, l.link@);
        links.push(l);
        assert(link_views(links@) =~= link_views(before).push(lv));
        assert(all.take(i + 1) =~= all.take(i as int).push(lv));
        i += 1;
    }
    assert(all.take(n as int) =~= all);
}

/// The plan that materializes the resolved graph under `node_modules`.
pub fn link_plan(node_modules: &str, res: &Resolution) -> (plan: LinkPlan)
    ensures
        plan.dirs@.len() == res.packages.pairs().len(),
        forall|i: int|
            0 <= i < plan.dirs@.len() ==> is_package_dir(
                #[trigger] plan.dirs@[i],
                node_modules@,
                res.packages.pairs()[i].1,
            ),
        link_views(plan.links@) == all_dep_links(
            node_modules@,
            res.packages@,
            res.packages.pairs(),
            res.packages.pairs().len(),
        ) + root_links(node_modules@, res.packages@, res.roots.pairs()),
{
    let ghost pairs = res.packages.pairs();
    let n = res.packages.len();
    let mut dirs: Vec<PackageDir> = Vec::new();
    let mut links: Vec<Symlink> = Vec::new();
    let mut i: usize = 0;
    while i < n
        invariant
            i <= n == pairs.len(),
            pairs == res.packages.pairs(),
            dirs@.len() == i,
            forall|j: int| 0 <= j < i ==> is_package_dir(#[trigger] dirs@[j], node_modules@, pairs[j].1),
            link_views(links@) == all_dep_links(node_modules@, res.packages@, pairs, i as nat),
        decreases n - i,
    {
        let pkg = res.packages.value_at(i);
        let id = pkg.id();
        let dir = package_dir_string(node_modules, id.as_str(), pkg.name.as_str());
        dirs.push(PackageDir { dir, name: pkg.name.clone(), version: pkg.version.clone() });
        push_links(&mut links, node_modules, &res.packages, pkg);
        i += 1;
    }
    let rn = res.roots.len();
    let ghost start = link_views(links@);
    let ghost all = root_links(node_modules@, res.packages@, res.roots.pairs());
    let mut k: usize = 0;
    while k < rn
        invariant
            k <= rn == res.roots.pairs().len(),
            all == root_links(node_modules@, res.packages@, res.roots.pairs()),
            link_views(links@) == start + all.take(k as int),
        decreases rn - k,
    {
        let alias = res.roots.key_at(k);
        let id = res.roots.value_at(k);
        let target = link_target_string(node_modules, &res.packages, id.as_str(), alias.as_str());
        let link = path_join(node_modules, alias.as_str());
        let ghost before = links@;
        let l = Symlink { target, link };
        let ghost lv = (l.target@, l.link@);
        links.push(l);
        assert(link_views(links@) =~= link_views(before).push(lv));
        assert(all.take(k + 1) =~= all.take(k as int).push(lv));
        k += 1;
    }
    assert(all.take(rn as int) =~= all);
    LinkPlan { dirs, links }
}

} // verus!
