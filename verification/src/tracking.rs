//! The project's git repository, which BitForge needs to tell what changed.

use vstd::prelude::*;

verus! {

/// Why BitForge refuses to work in a directory.
pub open spec fn not_tracked_message(root: Seq<char>) -> Seq<char> {
    "BitForge only works inside a git-tracked project. It uses git to detect which files changed since the last commit so it can decide what work to redo. No git repository was found at "@
        + root
        + ". Run `git init` here and commit your BitForge.toml before continuing."@
}

/// Commands that work on a project need it to be in a git repository;
/// `repository_found` tells whether one was found at or above `root`.
pub fn require_git_project(repository_found: bool, root: &str) -> (r: Result<(), String>)
    ensures
        repository_found ==> r is Ok,
        !repository_found ==> (r matches Err(e) && e@ == not_tracked_message(root@)),
{
    if repository_found {
        return Ok(());
    }
    let mut s = String::from_str(
        "BitForge only works inside a git-tracked project. It uses git to detect which files changed since the last commit so it can decide what work to redo. No git repository was found at ",
    );
    s.append(root);
    s.append(". Run `git init` here and commit your BitForge.toml before continuing.");
    Err(s)
}

/// `--init` makes the project a git repository unless it is in one; the
/// result tells whether a repository must be created.
pub fn ensure_git_project(repository_found: bool) -> (r: bool)
    ensures
        r == !repository_found,
{
    !repository_found
}

} // verus!
