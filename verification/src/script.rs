//! What a sandboxed `package.json` script may touch, and the environment it
//! runs with.
//!
//! Scripts may read the system runtime, the Node.js install and the store,
//! and write the project and `/tmp`; `~/.ssh`, `~/.aws`, `~/.npmrc` and the
//! rest of `$HOME` stay out of reach. Probing the file system and the
//! environment, and running the process, are the caller's.

use crate::sandbox::Policy;
use crate::text::{
    chars_of, join_path, last_index_of, path_join, push_char, slice_chars, string_of,
    string_views,
};
use vstd::prelude::*;

verus! {

/// The system runtime directories granted read-only access, when they
/// exist.
pub const SYSTEM_DIRS: [&'static str; 9] = [
    "/usr",
    "/bin",
    "/lib",
    "/lib64",
    "/etc",
    "/proc",
    "/dev",
    "/opt",
    "/sbin",
];

/// The environment variables passed through to scripts, besides `PATH`.
pub const PASSED_VARS: [&'static str; 4] = ["HOME", "LANG", "TERM", "USER"];

/// The system directories among the first `n` that are present.
pub open spec fn present_system_dirs(present: Seq<bool>, n: nat) -> Seq<Seq<char>>
    decreases n,
{
    if n == 0 {
        Seq::empty()
    } else {
        present_system_dirs(present, (n - 1) as nat) + if present[n - 1] {
            seq![SYSTEM_DIRS[n - 1]@]
        } else {
            Seq::empty()
        }
    }
}

/// An optional path as a sequence of zero or one paths.
pub open spec fn opt_seq(o: Option<&str>) -> Seq<Seq<char>> {
    match o {
        Some(p) => seq![p@],
        None => Seq::empty(),
    }
}

/// Assemble the file-system policy of a project script: the system
/// directories that exist (`system_present[i]` for `SYSTEM_DIRS[i]`), the
/// Node.js install root and the store read-only; the project and `/tmp`
/// read-write.
pub fn build_policy(
    system_present: &Vec<bool>,
    node_root: Option<&str>,
    store_root: Option<&str>,
    project_dir: &str,
) -> (p: Policy)
    requires
        system_present@.len() == 9,
    ensures
        string_views(p.read@) == present_system_dirs(system_present@, 9) + opt_seq(node_root)
            + opt_seq(store_root),
        string_views(p.write@) == seq![project_dir@, "/tmp"@],
{
    let mut p = Policy::default();
    for i in 0..9
        invariant
            system_present@.len() == 9,
            string_views(p.read@) == present_system_dirs(system_present@, i as nat),
            p.write@.len() == 0,
    {
        if system_present[i] {
            p.allow_read(SYSTEM_DIRS[i]);
        }
    }
    let ghost sys = string_views(p.read@);
    if let Some(r) = node_root {
        p.allow_read(r);
    }
    if let Some(s) = store_root {
        p.allow_read(s);
    }
    assert(string_views(p.read@) =~= sys + opt_seq(node_root) + opt_seq(store_root));
    p.allow_write(project_dir);
    p.allow_write("/tmp");
    assert(string_views(p.write@) =~= seq![project_dir@, "/tmp"@]);
    p
}

/// The `PATH` of a script: the project's `node_modules/.bin` first, then
/// the inherited `PATH` (empty when unset).
pub open spec fn script_path(project_dir: Seq<char>, inherited: Option<Seq<char>>) -> Seq<char> {
    join_path(join_path(project_dir, "node_modules"@), ".bin"@) + ":"@ + match inherited {
        Some(p) => p,
        None => Seq::empty(),
    }
}

/// The passed-through variables among the first `n` that are set.
pub open spec fn passed_vars(values: Seq<Option<String>>, n: nat) -> Seq<(Seq<char>, Seq<char>)>
    decreases n,
{
    if n == 0 {
        Seq::empty()
    } else {
        passed_vars(values, (n - 1) as nat) + match values[n - 1] {
            Some(v) => seq![(PASSED_VARS[n - 1]@, v@)],
            None => Seq::empty(),
        }
    }
}

/// The views of an environment.
pub open spec fn env_views(env: Seq<(String, String)>) -> Seq<(Seq<char>, Seq<char>)> {
    env.map_values(|e: (String, String)| (e.0@, e.1@))
}

/// The environment of a script: `PATH` with the project's binaries first,
/// then the passed-through variables that are set (`values[i]` for
/// `PASSED_VARS[i]`).
pub fn build_env(project_dir: &str, inherited_path: Option<&str>, values: &Vec<Option<String>>) -> (env:
    Vec<(String, String)>)
    requires
        values@.len() == 4,
    ensures
        env_views(env@) == seq![
            ("PATH"@, script_path(project_dir@, match inherited_path {
                Some(p) => Some(p@),
                None => None,
            })),
        ] + passed_vars(values@, 4),
{
    let bin = path_join(path_join(project_dir, "node_modules").as_str(), ".bin");
    let mut path = bin;
    path.append(":");
    match inherited_path {
        Some(p) => path.append(p),
        None => {},
    }
    let mut env: Vec<(String, String)> = Vec::new();
    env.push(("PATH".to_owned(), path));
    let ghost first = env_views(env@);
    assert(first =~= seq![
        ("PATH"@, script_path(project_dir@, match inherited_path {
            Some(p) => Some(p@),
            None => None,
        })),
    ]);
    for i in 0..4
        invariant
            values@.len() == 4,
            env_views(env@) == first + passed_vars(values@, i as nat),
    {
        let ghost before = env@;
        match &values[i] {
            Some(v) => {
                env.push((PASSED_VARS[i].to_owned(), v.clone()));
                assert(env_views(env@) =~= env_views(before).push((PASSED_VARS[i as int]@, v@)));
            },
            None => {},
        }
        assert(env_views(env@) =~= first + passed_vars(values@, (i + 1) as nat));
    }
    env
}

/// The parts of a `PATH` list, split at every `:` (each `:` starts a new,
/// possibly empty, part).
pub open spec fn path_list(s: Seq<char>) -> Seq<Seq<char>>
    decreases s.len(),
{
    if s.len() == 0 {
        seq![Seq::empty()]
    } else {
        let rest = path_list(s.drop_last());
        if s.last() == ':' {
            rest.push(Seq::empty())
        } else {
            rest.update(rest.len() - 1, rest.last().push(s.last()))
        }
    }
}

proof fn lemma_path_list_nonempty(s: Seq<char>)
    ensures
        path_list(s).len() >= 1,
    decreases s.len(),
{
    if s.len() > 0 {
        lemma_path_list_nonempty(s.drop_last());
    }
}

/// Split a `PATH` list at every `:` (`std::env::split_paths` on Unix).
pub fn split_path_list(s: &str) -> (parts: Vec<String>)
    ensures
        string_views(parts@) == path_list(s@),
{
    let v = chars_of(s);
    let mut parts: Vec<String> = Vec::new();
    let mut cur = String::new();
    let mut i: usize = 0;
    assert(s@.take(0) =~= Seq::<char>::empty());
    assert(string_views(parts@).push(cur@) =~= path_list(s@.take(0)));
    while i < v.len()
        invariant
            i <= v@.len(),
            v@ == s@,
            string_views(parts@).push(cur@) == path_list(s@.take(i as int)),
        decreases v@.len() - i,
    {
        let ghost before = string_views(parts@).push(cur@);
        assert(s@.take(i + 1).drop_last() =~= s@.take(i as int));
        proof {
            lemma_path_list_nonempty(s@.take(i as int));
        }
        if v[i] == ':' {
            let done = cur;
            parts.push(done);
            cur = String::new();
            assert(string_views(parts@).push(cur@) =~= before.push(Seq::<char>::empty()));
        } else {
            let ghost old_parts = parts@;
            push_char(&mut cur, v[i]);
            assert(string_views(parts@).push(cur@) =~= before.update(
                before.len() - 1,
                before.last().push(v@[i as int]),
            ));
        }
        i += 1;
    }
    assert(s@.take(v@.len() as int) =~= s@);
    let ghost before = parts@;
    parts.push(cur);
    assert(string_views(parts@) =~= string_views(before).push(cur@));
    parts
}

/// The path without its trailing `/` characters.
pub open spec fn trim_trailing_slashes(p: Seq<char>) -> Seq<char>
    decreases p.len(),
{
    if p.len() > 0 && p.last() == '/' {
        trim_trailing_slashes(p.drop_last())
    } else {
        p
    }
}

/// The parent of a path, as `Path::parent` gives it for paths without `.`
/// or `..` components: `None` for the root and the empty path; the empty
/// path for a single relative component; else the path up to its last
/// component.
pub open spec fn path_parent(p: Seq<char>) -> Option<Seq<char>> {
    let t = trim_trailing_slashes(p);
    if t.len() == 0 {
        None
    } else {
        match last_index_of(t, '/') {
            None => Some(Seq::empty()),
            Some(i) => {
                let u = trim_trailing_slashes(t.subrange(0, i));
                if u.len() == 0 {
                    Some("/"@)
                } else {
                    Some(u)
                }
            },
        }
    }
}

fn trim_end_slashes(v: &Vec<char>, to: usize) -> (end: usize)
    requires
        to <= v@.len(),
    ensures
        end <= to,
        v@.subrange(0, end as int) == trim_trailing_slashes(v@.subrange(0, to as int)),
{
    let mut e = to;
    while e > 0 && v[e - 1] == '/'
        invariant
            e <= to <= v@.len(),
            trim_trailing_slashes(v@.subrange(0, e as int)) == trim_trailing_slashes(
                v@.subrange(0, to as int),
            ),
        decreases e,
    {
        assert(v@.subrange(0, e as int).drop_last() =~= v@.subrange(0, e - 1));
        e -= 1;
    }
    e
}

/// The parent of a path.
pub fn parent_of(p: &str) -> (r: Option<String>)
    ensures
        match r {
            Some(q) => path_parent(p@) == Some(q@),
            None => path_parent(p@) is None,
        },
{
    let v = chars_of(p);
    assert(v@.subrange(0, v@.len() as int) =~= p@);
    let t = trim_end_slashes(&v, v.len());
    if t == 0 {
        return None;
    }
    let tv = slice_chars(&v, 0, t);
    match crate::text::rfind_char(&tv, '/') {
        None => Some(String::new()),
        Some(i) => {
            let u = trim_end_slashes(&tv, i);
            assert(tv@.subrange(0, i as int) =~= v@.subrange(0, t as int).subrange(0, i as int));
            if u == 0 {
                proof {
                    reveal_strlit("/");
                }
                Some("/".to_owned())
            } else {
                Some(string_of(&slice_chars(&tv, 0, u)))
            }
        },
    }
}

/// The Node.js install root: for the first `PATH` directory holding
/// `node` (`has_node[i]` for `dirs[i]`), its parent (the directory itself
/// when it has none).
pub open spec fn node_root_of(dirs: Seq<String>, has_node: Seq<bool>) -> Option<Seq<char>> {
    if exists|i: int| 0 <= i < dirs.len() && has_node[i] {
        let i = choose|i: int|
            0 <= i < dirs.len() && has_node[i] && forall|j: int| 0 <= j < i ==> !has_node[j];
        match path_parent(dirs[i]@) {
            Some(q) => Some(q),
            None => Some(dirs[i]@),
        }
    } else {
        None
    }
}

/// Find the Node.js install root from the `PATH` directories.
pub fn node_install_root(dirs: &Vec<String>, has_node: &Vec<bool>) -> (r: Option<String>)
    requires
        has_node@.len() == dirs@.len(),
    ensures
        match r {
            Some(q) => node_root_of(dirs@, has_node@) == Some(q@),
            None => node_root_of(dirs@, has_node@) is None,
        },
{
    let mut i: usize = 0;
    while i < dirs.len()
        invariant
            i <= dirs@.len() == has_node@.len(),
            forall|j: int| 0 <= j < i ==> !has_node@[j],
        decreases dirs@.len() - i,
    {
        if has_node[i] {
            proof {
                let k = choose|k: int|
                    0 <= k < dirs@.len() && has_node@[k] && forall|j: int| 0 <= j < k ==> !has_node@[j];
                assert(k == i) by {
                    if k < i {
                    } else if k > i {
                    }
                }
            }
            return match parent_of(dirs[i].as_str()) {
                Some(q) => Some(q),
                None => Some(dirs[i].clone()),
            };
        }
        i += 1;
    }
    None
}

} // verus!
