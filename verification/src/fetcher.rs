//! What the fetcher decides while bringing a tarball into the store.
//!
//! The tarball is streamed to a temporary file while its SHA-512 and SHA-1
//! are computed; integrity is verified before extraction (see
//! [`crate::audit::integrity::verify_precomputed`]), so nothing is extracted
//! until the bytes are proven authentic. Then each regular file of the
//! archive is stored under its path without the archive's top directory.

use crate::error::VaultError;
use crate::resolver::{package_id, ResolvedPackage};
use crate::store::{FileEntry, PackageIndex};
use crate::text::{
    chars_of, first_index_of, replace_char, replace_chars, slice_chars, string_of,
};
use vstd::prelude::*;

verus! {

/// The path without its first component: a leading root, or the first
/// segment and the `/` after it (nothing when there is no `/`).
pub open spec fn drop_first_component(p: Seq<char>) -> Seq<char> {
    if p.len() > 0 && p[0] == '/' {
        p
    } else {
        match first_index_of(p, '/') {
            Some(i) => p.subrange(i + 1, p.len() as int),
            None => Seq::empty(),
        }
    }
}

/// The path without its leading `/` characters.
pub open spec fn trim_leading_slashes(p: Seq<char>) -> Seq<char>
    decreases p.len(),
{
    if p.len() > 0 && p[0] == '/' {
        trim_leading_slashes(p.drop_first())
    } else {
        p
    }
}

/// The path with the empty and `.` components at its front taken out, as
/// `Path::components` skips them: leading `/`, leading `./`, or a lone `.`.
pub open spec fn trim_front_dots(s: Seq<char>) -> Seq<char>
    decreases s.len(),
{
    if s.len() > 0 && s[0] == '/' {
        trim_front_dots(s.drop_first())
    } else if s.len() == 1 && s[0] == '.' {
        Seq::empty()
    } else if s.len() >= 2 && s[0] == '.' && s[1] == '/' {
        trim_front_dots(s.subrange(2, s.len() as int))
    } else {
        s
    }
}

/// The path with the empty and `.` components at its end taken out: a
/// trailing `/`, a trailing `/.`, or a lone `.`.
pub open spec fn trim_back_dots(s: Seq<char>) -> Seq<char>
    decreases s.len(),
{
    if s.len() > 0 && s.last() == '/' {
        trim_back_dots(s.drop_last())
    } else if s.len() == 1 && s[0] == '.' {
        Seq::empty()
    } else if s.len() >= 2 && s.last() == '.' && s[s.len() - 2] == '/' {
        trim_back_dots(s.subrange(0, s.len() - 2))
    } else {
        s
    }
}

/// The stored path of an archive member: its first component dropped
/// (`package/` by npm's convention), the rest taken as `Path` gives it back
/// (no empty or `.` components at either end; those inside stay),
/// backslashes made `/`, and no leading `/`.
pub open spec fn stripped_path(p: Seq<char>) -> Seq<char> {
    trim_leading_slashes(
        replace_char(trim_back_dots(trim_front_dots(drop_first_component(p))), '\\', '/'),
    )
}

fn trim_dot_components(v: &Vec<char>) -> (r: Vec<char>)
    ensures
        r@ == trim_back_dots(trim_front_dots(v@)),
{
    let n = v.len();
    let mut i: usize = 0;
    assert(v@.subrange(0, n as int) =~= v@);
    while i < n && (v[i] == '/' || (v[i] == '.' && (i + 1 == n || v[i + 1] == '/')))
        invariant
            i <= n == v@.len(),
            trim_front_dots(v@) == trim_front_dots(v@.subrange(i as int, n as int)),
        decreases n - i,
    {
        let ghost sub = v@.subrange(i as int, n as int);
        if v[i] == '/' {
            assert(sub.drop_first() =~= v@.subrange(i + 1, n as int));
            i += 1;
        } else if i + 1 == n {
            assert(v@.subrange(n as int, n as int) =~= Seq::<char>::empty());
            i = n;
        } else {
            assert(sub.subrange(2, sub.len() as int) =~= v@.subrange(i + 2, n as int));
            i += 2;
        }
    }
    let front = slice_chars(v, i, n);
    let mut j: usize = front.len();
    assert(front@.subrange(0, j as int) =~= front@);
    while j > 0 && (front[j - 1] == '/' || (front[j - 1] == '.' && (j == 1 || front[j - 2] == '/')))
        invariant
            j <= front@.len(),
            trim_back_dots(front@) == trim_back_dots(front@.subrange(0, j as int)),
        decreases j,
    {
        let ghost sub = front@.subrange(0, j as int);
        if front[j - 1] == '/' {
            assert(sub.drop_last() =~= front@.subrange(0, j - 1));
            j -= 1;
        } else if j == 1 {
            assert(front@.subrange(0, 0) =~= Seq::<char>::empty());
            j = 0;
        } else {
            assert(sub.subrange(0, sub.len() - 2) =~= front@.subrange(0, j - 2));
            j -= 2;
        }
    }
    slice_chars(&front, 0, j)
}

fn trim_slashes(s: &str) -> (r: String)
    ensures
        r@ == trim_leading_slashes(s@),
{
    let v = chars_of(s);
    let mut i: usize = 0;
    assert(s@.subrange(0, s@.len() as int) =~= s@);
    while i < v.len() && v[i] == '/'
        invariant
            i <= v@.len(),
            v@ == s@,
            trim_leading_slashes(s@) == trim_leading_slashes(s@.subrange(i as int, s@.len() as int)),
        decreases v@.len() - i,
    {
        assert(s@.subrange(i as int, s@.len() as int).drop_first() =~= s@.subrange(i + 1, s@.len() as int));
        i += 1;
    }
    let r = string_of(&slice_chars(&v, i, v.len()));
    r
}

/// Strip the leading `package/` segment that npm tarballs use. Some
/// packages use another top-level directory, so whatever the first
/// component is goes.
pub fn strip_package_prefix(path: &str) -> (r: String)
    ensures
        r@ == stripped_path(path@),
{
    let v = chars_of(path);
    let rest = if v.len() > 0 && v[0] == '/' {
        path.to_owned()
    } else {
        let mut i: usize = 0;
        while i < v.len() && v[i] != '/'
            invariant
                i <= v@.len(),
                v@ == path@,
                forall|j: int| 0 <= j < i ==> v@[j] != '/',
            decreases v@.len() - i,
        {
            i += 1;
        }
        if i < v.len() {
            proof {
                assert(first_index_of(path@, '/') == Some(i as int)) by {
                    let k = choose|k: int|
                        0 <= k < path@.len() && path@[k] == '/' && forall|j: int|
                            0 <= j < k ==> path@[j] != '/';
                    if k < i {
                    } else if k > i {
                    }
                }
            }
            string_of(&slice_chars(&v, i + 1, v.len()))
        } else {
            assert(first_index_of(path@, '/') is None);
            String::new()
        }
    };
    let trimmed = string_of(&trim_dot_components(&chars_of(rest.as_str())));
    let replaced = replace_chars(trimmed.as_str(), '\\', '/');
    trim_slashes(replaced.as_str())
}

/// Whether a file mode has an execute bit.
pub fn is_executable(mode: u32) -> (b: bool)
    ensures
        b == (mode & 0o111 != 0),
{
    mode & 0o111 != 0
}

/// What is kept of an archive member: for a regular file with a non-empty
/// stored path, that path and whether it is executable (a member without
/// a mode counts as `0o644`).
pub open spec fn member_kept(is_file: bool, path: Seq<char>, mode: Option<u32>) -> Option<(Seq<char>, bool)> {
    if !is_file || stripped_path(path).len() == 0 {
        None
    } else {
        Some((stripped_path(path), match mode {
            Some(m) => m & 0o111 != 0,
            None => false,
        }))
    }
}

/// Decide whether an archive member is stored, and under which path.
pub fn keep_member(is_file: bool, path: &str, mode: Option<u32>) -> (r: Option<(String, bool)>)
    ensures
        match r {
            Some((p, x)) => member_kept(is_file, path@, mode) == Some((p@, x)),
            None => member_kept(is_file, path@, mode) is None,
        },
{
    if !is_file {
        return None;
    }
    let rel = strip_package_prefix(path);
    if rel.as_str().is_empty() {
        return None;
    }
    let m = match mode {
        Some(m) => m,
        None => 0o644,
    };
    assert(0o644u32 & 0o111u32 == 0) by (bit_vector);
    Some((rel, is_executable(m)))
}

/// The steps of bringing one tarball into the store, in order.
#[derive(Debug, Clone, Copy, PartialEq, Eq, Structural)]
pub enum TarballStep {
    /// Stream the tarball to a temporary file, computing its digests.
    Download,
    /// Check the digests against the registry's integrity metadata.
    Verify,
    /// Extract the regular files into the store.
    Extract,
    /// Write the package's index.
    Index,
}

/// The step after `done`, or `None` when the work stops: after a download
/// comes the integrity check; extraction follows only a check that passed
/// (`verified`); the index follows extraction, and nothing follows it.
pub open spec fn tarball_after(done: TarballStep, verified: bool) -> Option<TarballStep> {
    match done {
        TarballStep::Download => Some(TarballStep::Verify),
        TarballStep::Verify => if verified {
            Some(TarballStep::Extract)
        } else {
            None
        },
        TarballStep::Extract => Some(TarballStep::Index),
        TarballStep::Index => None,
    }
}

/// The step after `done`; `verified` is whether the integrity check passed.
pub fn next_tarball_step(done: TarballStep, verified: bool) -> (r: Option<TarballStep>)
    ensures
        r == tarball_after(done, verified),
{
    match done {
        TarballStep::Download => Some(TarballStep::Verify),
        TarballStep::Verify => if verified {
            Some(TarballStep::Extract)
        } else {
            None
        },
        TarballStep::Extract => Some(TarballStep::Index),
        TarballStep::Index => None,
    }
}

/// Nothing is extracted before integrity passes: extraction follows only
/// an integrity check that passed, and the check only a download.
pub proof fn lemma_extract_only_after_verify(done: TarballStep, verified: bool)
    ensures
        tarball_after(done, verified) == Some(TarballStep::Extract) ==> done
            == TarballStep::Verify && verified,
        tarball_after(done, verified) == Some(TarballStep::Verify) ==> done
            == TarballStep::Download,
{
}

/// The index of an extracted package, or an error when the archive held no
/// files.
pub fn package_index(pkg: &ResolvedPackage, files: Vec<FileEntry>) -> (r: Result<
    PackageIndex,
    VaultError,
>)
    ensures
        match r {
            Ok(index) => files@.len() > 0 && index.name@ == pkg.name@ && index.version@
                == pkg.version@ && index.files@ == files@,
            Err(VaultError::Resolution { name, reason }) => files@.len() == 0 && name@
                == package_id(pkg.name@, pkg.version@) && reason@ == "tarball contained no files"@,
            Err(_) => false,
        },
{
    if files.len() == 0 {
        return Err(
            VaultError::Resolution { name: pkg.id(), reason: "tarball contained no files".to_owned() },
        );
    }
    Ok(PackageIndex { name: pkg.name.clone(), version: pkg.version.clone(), files })
}

/// The error of an extraction that did not finish, with the text of its
/// failure.
pub fn extraction_failed(pkg: &ResolvedPackage, failure: &str) -> (e: VaultError)
    ensures
        e matches VaultError::Resolution { name, reason } && name@ == package_id(
            pkg.name@,
            pkg.version@,
        ) && reason@ == "extraction task failed: "@ + failure@,
{
    let mut reason = "extraction task failed: ".to_owned();
    reason.append(failure);
    VaultError::Resolution { name: pkg.id(), reason }
}

} // verus!
