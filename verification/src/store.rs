//! The global content-addressable store (`~/.vault/store`).
//!
//! Every file of every package is stored once, keyed by the SHA-256 of its
//! contents. A package's layout is recorded in an index that maps each
//! relative path to the hash of its bytes; materializing a package into a
//! project is then a set of hard links from the store. Here are the layout
//! and the paths of the store; reading and writing them is the caller's
//! file-system work. Paths are texts with `/` separators.

use crate::audit::integrity::{hex_encode, hex_text, lemma_hex_text_shape};
use crate::text::{
    chars_of, has_prefix, join_path, opt_str_view, path_join, replace_char, replace_chars, slice_chars,
    str_starts_with, string_of,
};
use vstd::prelude::*;

verus! {

/// Layout version of the on-disk store.
pub const STORE_VERSION: &'static str = "v1";

/// A single file entry within a package index.
#[derive(Debug, Clone)]
pub struct FileEntry {
    /// Path relative to the package root (the tarball's leading directory
    /// stripped).
    pub path: String,
    /// SHA-256 hex digest of the file contents (the CAS key).
    pub hash: String,
    /// Whether the file is executable.
    pub executable: bool,
}

/// The recorded layout of one extracted package.
#[derive(Debug, Clone)]
pub struct PackageIndex {
    pub name: String,
    pub version: String,
    pub files: Vec<FileEntry>,
}

/// Handle to the on-disk store, by its root directory.
#[derive(Debug, Clone)]
pub struct Store {
    root: String,
}

/// The user's home directory as `dirs::home_dir` finds it, as text; `None`
/// when there is none. It depends on the environment: nothing is claimed of
/// it.
#[verifier::external_body]
fn home_dir() -> Option<String> {
    dirs::home_dir().map(|p| p.to_string_lossy().into_owned())
}

/// The store root: an override with a leading `~/` taken from the home
/// directory, else `<home>/.vault/store` (`./.vault/store` without a home).
pub open spec fn store_root_text(override_path: Option<Seq<char>>, home: Option<Seq<char>>) -> Seq<
    char,
> {
    match override_path {
        Some(p) => if has_prefix(p, "~/"@) && home is Some {
            join_path(home->0, p.subrange(2, p.len() as int))
        } else {
            p
        },
        None => join_path(
            join_path(
                match home {
                    Some(h) => h,
                    None => "."@,
                },
                ".vault"@,
            ),
            "store"@,
        ),
    }
}

/// The store root for an override path and a home directory.
pub fn store_root_with(override_path: Option<&str>, home: Option<String>) -> (r: String)
    ensures
        r@ == store_root_text(
            match override_path {
                Some(p) => Some(p@),
                None => None,
            },
            match home {
                Some(h) => Some(h@),
                None => None,
            },
        ),
{
    match override_path {
        Some(p) => {
            if str_starts_with(p, "~/") {
                if let Some(h) = home {
                    let v = chars_of(p);
                    proof {
                        reveal_strlit("~/");
                    }
                    let rest = string_of(&slice_chars(&v, 2, v.len()));
                    return path_join(h.as_str(), rest.as_str());
                }
            }
            p.to_owned()
        },
        None => {
            let h = match home {
                Some(h) => h,
                None => ".".to_owned(),
            };
            path_join(path_join(h.as_str(), ".vault").as_str(), "store")
        },
    }
}

/// The store root for an override path, with the home directory of this
/// environment.
pub fn store_root(override_path: Option<&str>) -> (r: String)
    ensures
        exists|home: Option<Seq<char>>|
            r@ == #[trigger] store_root_text(opt_str_view(override_path), home),
{
    let home = home_dir();
    let ghost hv = match &home {
        Some(h) => Some(h@),
        None => None::<Seq<char>>,
    };
    let r = store_root_with(override_path, home);
    assert(r@ == store_root_text(opt_str_view(override_path), hv));
    r
}

/// The SHA-256 digest of some bytes (`sha2::Sha256::digest`).
pub uninterp spec fn sha256_digest(data: Seq<u8>) -> Seq<u8>;

/// Computes the SHA-256 digest with `sha2::Sha256::digest`; named by
/// `sha256_digest`, and 32 bytes long.
#[verifier::external_body]
fn sha256(data: &[u8]) -> (d: Vec<u8>)
    ensures
        d@ == sha256_digest(data@),
        d@.len() == 32,
{
    <sha2::Sha256 as sha2::Digest>::digest(data).to_vec()
}

/// The key of some bytes in the store: the lowercase hex of their SHA-256
/// digest.
pub open spec fn content_key(bytes: Seq<u8>) -> Seq<char> {
    hex_text(sha256_digest(bytes))
}

/// The index file name of `name@version`: scoped names contain `/`, which
/// becomes `+` to keep one directory level.
pub open spec fn index_file_name(name: Seq<char>, version: Seq<char>) -> Seq<char> {
    replace_char(name + seq!['@'] + version, '/', '+') + ".json"@
}

impl Store {
    /// The store rooted at `root`.
    pub fn at(root: String) -> (s: Self)
        ensures
            s.root() == root@,
    {
        Store { root }
    }

    /// The root directory.
    pub closed spec fn root(&self) -> Seq<char> {
        self.root@
    }

    /// The root directory, as text.
    pub fn root_path(&self) -> (r: &String)
        ensures
            r@ == self.root(),
    {
        &self.root
    }

    /// The directory of the content-addressed objects.
    pub fn files_dir(&self) -> (p: String)
        ensures
            p@ == join_path(join_path(self.root(), "v1"@), "files"@),
    {
        path_join(path_join(self.root.as_str(), STORE_VERSION).as_str(), "files")
    }

    /// The directory of the package indexes.
    pub fn index_dir(&self) -> (p: String)
        ensures
            p@ == join_path(join_path(self.root(), "v1"@), "index"@),
    {
        path_join(path_join(self.root.as_str(), STORE_VERSION).as_str(), "index")
    }

    /// The index file of `name@version`.
    pub fn index_path(&self, name: &str, version: &str) -> (p: String)
        ensures
            p@ == join_path(
                join_path(join_path(self.root(), "v1"@), "index"@),
                index_file_name(name@, version@),
            ),
    {
        let mut id = name.to_owned();
        id.append("@");
        id.append(version);
        let mut file = replace_chars(id.as_str(), '/', '+');
        file.append(".json");
        proof {
            reveal_strlit("@");
            assert(id@ =~= name@ + seq!['@'] + version@);
        }
        path_join(self.index_dir().as_str(), file.as_str())
    }

    /// The key under which the store keeps some bytes: 64 lowercase hex
    /// digits of their SHA-256 digest, so equal contents share one object.
    pub fn content_hash(bytes: &[u8]) -> (h: String)
        ensures
            h@ == content_key(bytes@),
            h@.len() == 64,
            forall|i: int| 0 <= i < h@.len() ==> (#[trigger] h@[i] as u32) < 128,
    {
        let d = sha256(bytes);
        proof {
            lemma_hex_text_shape(d@);
        }
        hex_encode(d.as_slice())
    }

    /// The object file of a content hash, sharded by its first two bytes
    /// (two ASCII characters, as in a hex digest, or one character of two
    /// bytes in UTF-8).
    pub fn object_path(&self, hash: &str) -> (p: String)
        requires
            shard_ok(hash@),
        ensures
            p@ == join_path(
                join_path(
                    join_path(join_path(self.root(), "v1"@), "files"@),
                    hash@.subrange(0, shard_len(hash@)),
                ),
                hash@.subrange(shard_len(hash@), hash@.len() as int),
            ),
    {
        let v = chars_of(hash);
        let cut: usize = if (v[0] as u32) < 128 { 2 } else { 1 };
        let shard = string_of(&slice_chars(&v, 0, cut));
        let rest = string_of(&slice_chars(&v, cut, v.len()));
        path_join(path_join(self.files_dir().as_str(), shard.as_str()).as_str(), rest.as_str())
    }
}

/// Whether the first two bytes of `hash` in UTF-8 end on a character
/// boundary: two ASCII characters, or one character of two bytes.
pub open spec fn shard_ok(hash: Seq<char>) -> bool {
    ||| hash.len() >= 2 && (hash[0] as u32) < 128 && (hash[1] as u32) < 128
    ||| hash.len() >= 1 && 128 <= (hash[0] as u32) < 0x800
}

/// How many characters the first two bytes of `hash` hold.
pub open spec fn shard_len(hash: Seq<char>) -> int {
    if hash.len() >= 1 && (hash[0] as u32) < 128 {
        2
    } else {
        1
    }
}

} // verus!
