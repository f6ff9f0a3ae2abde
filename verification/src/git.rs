//! Git queries and worktrees: the arguments handed to `git`, and what its
//! answers mean.

use vstd::prelude::*;
use vstd::utf8::{valid_utf8, decode_utf8};
use crate::config::strings_view;
use crate::paths::{path_join, path_parent, join, parent};
use crate::text::{trim, trimmed};

verus! {

/// `String::from_utf8`: the text the bytes encode, when they are valid
/// UTF-8.
#[verifier::external_body]
fn string_from_utf8(bytes: Vec<u8>) -> (r: Option<String>)
    ensures
        r is Some <==> valid_utf8(bytes@),
        r matches Some(s) ==> s@ == decode_utf8(bytes@),
{
    String::from_utf8(bytes).ok()
}

/// The arguments for `git` that print the repository's common git
/// directory (the main repository's, also from inside a worktree).
pub fn common_dir_args(path: &str) -> (r: Vec<String>)
    ensures
        strings_view(r@) == seq![
            "-C"@,
            path@,
            "rev-parse"@,
            "--path-format=absolute"@,
            "--git-common-dir"@,
        ],
{
    let mut r: Vec<String> = Vec::new();
    r.push("-C".to_owned());
    r.push(path.to_owned());
    r.push("rev-parse".to_owned());
    r.push("--path-format=absolute".to_owned());
    r.push("--git-common-dir".to_owned());
    assert(strings_view(r@) =~= seq![
        "-C"@,
        path@,
        "rev-parse"@,
        "--path-format=absolute"@,
        "--git-common-dir"@,
    ]);
    r
}

/// The repository root that `git rev-parse --git-common-dir` answered, from
/// its exit status and output: the parent of the printed directory; nothing
/// when git failed or printed something that is not UTF-8.
pub open spec fn root_from_answer(success: bool, stdout: Seq<u8>) -> Option<Seq<char>> {
    if !success || !valid_utf8(stdout) {
        None
    } else {
        path_parent(trim(decode_utf8(stdout)))
    }
}

pub fn repo_root(success: bool, stdout: Vec<u8>) -> (r: Option<String>)
    ensures
        crate::config::opt_view(r) == root_from_answer(success, stdout@),
{
    if !success {
        return None;
    }
    match string_from_utf8(stdout) {
        Some(s) => {
            let t = trimmed(s.as_str());
            parent(t.as_str())
        },
        None => None,
    }
}

/// Where worktree `name` of the repository at `root` lives.
pub open spec fn worktree_path(root: Seq<char>, name: Seq<char>) -> Seq<char> {
    path_join(path_join(root, ".worktrees"@), name)
}

/// The directory holding a repository's worktrees.
pub fn worktrees_dir(root: &str) -> (r: String)
    ensures
        r@ == path_join(root@, ".worktrees"@),
{
    join(root, ".worktrees")
}

pub fn worktree_target(root: &str, name: &str) -> (r: String)
    ensures
        r@ == worktree_path(root@, name@),
{
    join(worktrees_dir(root).as_str(), name)
}

/// The arguments for `git` that add worktree `name` (on a new branch of the
/// same name) at `target`.
pub fn worktree_add_args(root: &str, name: &str, target: &str) -> (r: Vec<String>)
    ensures
        strings_view(r@) == seq!["-C"@, root@, "worktree"@, "add"@, "-b"@, name@, target@],
{
    let mut r: Vec<String> = Vec::new();
    r.push("-C".to_owned());
    r.push(root.to_owned());
    r.push("worktree".to_owned());
    r.push("add".to_owned());
    r.push("-b".to_owned());
    r.push(name.to_owned());
    r.push(target.to_owned());
    assert(strings_view(r@) =~= seq!["-C"@, root@, "worktree"@, "add"@, "-b"@, name@, target@]);
    r
}

/// What making sure a worktree exists takes.
pub enum WorktreeStep {
    /// Its directory is already there: use it as it is.
    Reuse(String),
    /// Create the directory `holder`, then run `git` with `args`, which adds
    /// the worktree at `target`.
    Add { holder: Option<String>, args: Vec<String>, target: String },
}

/// How to make sure worktree `name` of the repository at `root` exists,
/// given whether its directory is already there.
pub fn ensure_worktree(root: &str, name: &str, exists: bool) -> (r: WorktreeStep)
    ensures
        match r {
            WorktreeStep::Reuse(t) => exists && t@ == worktree_path(root@, name@),
            WorktreeStep::Add { holder, args, target } => {
                &&& !exists
                &&& target@ == worktree_path(root@, name@)
                &&& crate::config::opt_view(holder) == path_parent(target@)
                &&& strings_view(args@) == seq!["-C"@, root@, "worktree"@, "add"@, "-b"@, name@, target@]
            },
        },
{
    let target = worktree_target(root, name);
    if exists {
        WorktreeStep::Reuse(target)
    } else {
        let holder = parent(target.as_str());
        let args = worktree_add_args(root, name, target.as_str());
        WorktreeStep::Add { holder, args, target }
    }
}

} // verus!
