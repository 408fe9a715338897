//! The state a render consults.
//!
//! A `Context` is built once per render by the caller, from plain values:
//! the working directory, the home directory, what the version-control
//! repository reports, the environment, the last command's exit status and
//! the background-job indicator. Component handlers only read it (the
//! caller has already done every external read), so a render is a pure
//! function of its template and its context.

use vstd::prelude::*;

use crate::shell::Shell;
use crate::utility::str_opt_view;

verus! {

/// What the repository's status entries showed, folded over all entries.
#[derive(Debug, Clone, Copy, PartialEq, Eq, Structural)]
pub struct StatusFlags {
    /// A file is modified in the working tree.
    pub wt_modified: bool,
    /// A file is new in the working tree.
    pub wt_new: bool,
    /// A file is deleted from the working tree.
    pub wt_deleted: bool,
    /// Some change is staged in the index.
    pub index_changed: bool,
}

/// The session state a render reads.
pub struct Context {
    pub shell: Shell,
    /// The last command's exit status.
    pub last_command_status: u64,
    /// The background-job indicator, if any.
    pub backgrounded_jobs: Option<String>,
    /// The working directory.
    pub current_dir: String,
    /// The home directory, or empty when unknown.
    pub home_dir: String,
    /// The repository's `.git` directory, when inside one.
    pub repo_root: Option<String>,
    /// The symbolic name of the current branch, when resolvable.
    pub git_branch: Option<String>,
    /// The hex id of the current commit, when one exists.
    pub git_commit: Option<String>,
    /// How many stash entries the repository holds, when inside one.
    pub git_stash_count: Option<u64>,
    /// The folded status flags, when inside a repository.
    pub git_status: Option<StatusFlags>,
    /// The machine's hostname, when available.
    pub hostname: Option<String>,
    /// The current user's name, when available.
    pub user: Option<String>,
    /// The environment, as name/value pairs.
    pub env: Vec<(String, String)>,
}

/// The value of the first environment entry named `name`.
pub open spec fn spec_env_lookup(env: Seq<(String, String)>, name: Seq<char>) -> Option<Seq<char>>
    decreases env.len(),
{
    if env.len() == 0 {
        None
    } else if env[0].0@ == name {
        Some(env[0].1@)
    } else {
        spec_env_lookup(env.drop_first(), name)
    }
}

impl Context {
    /// A context that knows the shell, the exit status and the jobs
    /// indicator, and nothing of the outside world yet: the caller fills
    /// the remaining fields from what it has read.
    pub fn new(shell: Shell, last_command_status: u64, backgrounded_jobs: Option<String>) -> (r:
        Context)
        ensures
            r.shell == shell,
            r.last_command_status == last_command_status,
            r.backgrounded_jobs == backgrounded_jobs,
            r.current_dir@ == Seq::<char>::empty(),
            r.home_dir@ == Seq::<char>::empty(),
            r.repo_root is None,
            r.git_branch is None,
            r.git_commit is None,
            r.git_stash_count is None,
            r.git_status is None,
            r.hostname is None,
            r.user is None,
            r.env@ == Seq::<(String, String)>::empty(),
    {
        Context {
            shell,
            last_command_status,
            backgrounded_jobs,
            current_dir: String::new(),
            home_dir: String::new(),
            repo_root: None,
            git_branch: None,
            git_commit: None,
            git_stash_count: None,
            git_status: None,
            hostname: None,
            user: None,
            env: Vec::new(),
        }
    }

    /// The value of the named environment variable, if it is set.
    pub fn env_var(&self, name: &str) -> (r: Option<String>)
        ensures
            str_opt_view(r) == spec_env_lookup(self.env@, name@),
    {
        let mut i: usize = 0;
        proof {
            assert(self.env@.skip(0) =~= self.env@);
        }
        while i < self.env.len()
            invariant
                i <= self.env@.len(),
                spec_env_lookup(self.env@.skip(i as int), name@) == spec_env_lookup(
                    self.env@,
                    name@,
                ),
            decreases self.env@.len() - i,
        {
            let pair = &self.env[i];
            proof {
                assert(self.env@.skip(i as int)[0] == self.env@[i as int]);
                assert(self.env@.skip(i as int).drop_first() =~= self.env@.skip(i as int + 1));
            }
            if crate::utility::str_eq(pair.0.as_str(), name) {
                return Some(pair.1.clone());
            }
            i = i + 1;
        }
        None
    }
}

} // verus!
