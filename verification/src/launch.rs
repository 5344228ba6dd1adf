//! Helpers of the launcher that builds and starts a server with its clients.

use std::path::Path;
use vstd::prelude::*;
use vstd::string::*;

verus! {

/// Whether two string slices hold the same characters.
pub fn same_text(a: &str, b: &str) -> (same: bool)
    ensures
        same == (a@ == b@),
{
    let n: usize = a.unicode_len();
    if b.unicode_len() != n {
        return false;
    }
    let mut i: usize = 0;
    while i < n
        invariant
            i <= n,
            n == a@.len(),
            n == b@.len(),
            forall|k: int| 0 <= k < i ==> a@[k] == b@[k],
        decreases n - i,
    {
        if a.get_char(i) != b.get_char(i) {
            return false;
        }
        i += 1;
    }
    assert(a@ =~= b@);
    true
}

/// The characters of the build flag for `profile`: two dashes, followed by
/// the profile's name unless the profile is the default `debug` one.
pub open spec fn format_arg_text(profile: Seq<char>) -> Seq<char> {
    if profile == "debug"@ {
        "--"@
    } else {
        "--"@ + profile
    }
}

/// The flag that selects `profile` when the game's programs are built.
pub fn format_arg(profile: &str) -> (flag: String)
    ensures
        flag@ == format_arg_text(profile@),
{
    let flag = String::from_str("--");
    if same_text(profile, "debug") {
        flag
    } else {
        flag.concat(profile)
    }
}


/// Whether `parent` is `path` cut short: what `path` begins with, and
/// shorter.
pub open spec fn cut_short(parent: Seq<char>, path: Seq<char>) -> bool {
    parent.len() < path.len() && parent == path.subrange(0, parent.len() as int)
}

/// `std::path::Path::parent`, on text: the path without its last component.
/// Where components end depends on the platform, so the contract states only
/// what holds on every platform: a parent is the path cut short, and so the
/// empty path has none.
#[verifier::external_body]
fn parent_of(path: &str) -> (parent: Option<String>)
    ensures
        path@.len() == 0 ==> parent is None,
        parent matches Some(p) ==> cut_short(p@, path@),
{
    match Path::new(path).parent() {
        Some(parent) => Some(parent.to_string_lossy().into_owned()),
        None => None,
    }
}

/// The directory that holds the whole project: the one above the directory
/// `manifest_dir` of the launcher's own package. `None` if `manifest_dir`
/// has no directory above it, as the empty path has none; a root that comes
/// back is `manifest_dir` cut short.
pub fn project_root(manifest_dir: &str) -> (root: Option<String>)
    ensures
        manifest_dir@.len() == 0 ==> root is None,
        root matches Some(r) ==> cut_short(r@, manifest_dir@),
{
    parent_of(manifest_dir)
}

/// What the launcher was asked to do.
#[derive(Clone, Copy, Debug, PartialEq, Eq, Structural)]
pub enum Task {
    /// Build, then run a server alone.
    Blitz,
    /// Build, then run a server and a number of clients that the next
    /// argument gives.
    BlitzX,
    /// Print how to use the launcher.
    Help,
}

impl Task {
    /// The task that the first argument names; anything that names no task
    /// asks for help.
    pub open spec fn spec_named(name: Option<Seq<char>>) -> Task {
        match name {
            Some(text) => if text == "blitz"@ {
                Task::Blitz
            } else if text == "blitz_x"@ {
                Task::BlitzX
            } else {
                Task::Help
            },
            None => Task::Help,
        }
    }

    /// The task that the launcher's first argument asks for.
    pub fn named(name: Option<&str>) -> (task: Task)
        ensures
            task == Task::spec_named(
                match name {
                    Some(text) => Some(text@),
                    None => None,
                },
            ),
    {
        match name {
            Some(text) => {
                if same_text(text, "blitz") {
                    Task::Blitz
                } else if same_text(text, "blitz_x") {
                    Task::BlitzX
                } else {
                    Task::Help
                }
            },
            None => Task::Help,
        }
    }
}

/// What the launcher learns when it asks after one of its processes.
#[derive(Clone, Copy, Debug, PartialEq, Eq, Structural)]
pub enum ProcessState {
    /// The process has ended.
    Exited,
    /// The process is still at work.
    Running,
    /// The system could not say.
    Unknown,
}

/// Whether the launcher may end: no process is known to be still at work.
pub fn all_done(states: &Vec<ProcessState>) -> (done: bool)
    ensures
        done == forall|i: int| 0 <= i < states@.len() ==> states@[i] != ProcessState::Running,
{
    let n: usize = states.len();
    let mut i: usize = 0;
    while i < n
        invariant
            i <= n,
            n == states@.len(),
            forall|k: int| 0 <= k < i ==> states@[k] != ProcessState::Running,
        decreases n - i,
    {
        if states[i] == ProcessState::Running {
            return false;
        }
        i += 1;
    }
    true
}

} // verus!
