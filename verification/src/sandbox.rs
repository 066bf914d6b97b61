//! The file-system policy of the script sandbox.
//!
//! The model is default-deny: a sandboxed process may only read or write
//! the paths granted in its [`Policy`]; `~/.ssh`, `~/.aws`, `~/.npmrc` and
//! the rest of `$HOME` stay invisible to it. Enforcing the policy (Linux
//! Landlock) is the caller's; when the kernel lacks Landlock the command
//! still runs and the [`Status`] says so.

use crate::text::string_views;
use vstd::prelude::*;

verus! {

/// File-system grants for a sandboxed process.
#[derive(Debug, Clone)]
pub struct Policy {
    /// Paths the process may read (and execute).
    pub read: Vec<String>,
    /// Paths the process may read and write.
    pub write: Vec<String>,
}

impl Default for Policy {
    fn default() -> (p: Self)
        ensures
            p.read@.len() == 0,
            p.write@.len() == 0,
    {
        Policy { read: Vec::new(), write: Vec::new() }
    }
}

impl Policy {
    /// Grant read (and exec) access to a path.
    pub fn allow_read(&mut self, p: &str) -> (r: &mut Self)
        ensures
            string_views(r.read@) == string_views(old(self).read@).push(p@),
            r.write == old(self).write,
            *final(self) == *final(r),
    {
        let ghost before = self.read@;
        self.read.push(p.to_owned());
        assert(string_views(self.read@) =~= string_views(before).push(p@));
        self
    }

    /// Grant read and write access to a path.
    pub fn allow_write(&mut self, p: &str) -> (r: &mut Self)
        ensures
            string_views(r.write@) == string_views(old(self).write@).push(p@),
            r.read == old(self).read,
            *final(self) == *final(r),
    {
        let ghost before = self.write@;
        self.write.push(p.to_owned());
        assert(string_views(self.write@) =~= string_views(before).push(p@));
        self
    }
}

/// Whether the sandbox was enforced for a run.
#[derive(Debug, Clone, Copy, PartialEq, Eq, Structural)]
pub enum Status {
    /// Landlock restrictions were applied to the child process.
    Enforced,
    /// Landlock is unavailable; the command ran unsandboxed.
    Unavailable,
}

} // verus!
