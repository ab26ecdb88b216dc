//! Rows of the project statistics database and git status values.

use vstd::prelude::*;

use crate::workspace::{join, path_join};

verus! {

/// One recorded build.
#[derive(Debug, Clone)]
pub struct BuildRecord {
    pub id: i64,
    pub target: String,
    pub status: String,
    pub started_at: i64,
    pub finished_at: Option<i64>,
    pub elapsed_secs: Option<i64>,
    pub report_dir: Option<String>,
    pub log_path: Option<String>,
}

/// One recorded git revision of the project.
#[derive(Debug, Clone)]
pub struct RevisionRecord {
    pub id: i64,
    pub event: String,
    pub commit_sha: Option<String>,
    pub branch: Option<String>,
    pub dirty: bool,
    pub changed_count: i64,
    pub changed_files: String,
    pub recorded_at: i64,
}

/// One recorded background activity.
#[derive(Debug, Clone)]
pub struct ActivityRecord {
    pub id: i64,
    pub label: String,
    pub kind: String,
    pub status: String,
    pub started_at: i64,
    pub finished_at: Option<i64>,
    pub log: Option<String>,
}

/// A git reference to check out.
#[derive(Debug, Clone, PartialEq, Eq)]
pub enum GitRef {
    Branch(String),
    Tag(String),
    Commit(String),
}

/// The branch a worktree named `name` is kept on.
pub fn worktree_ref_name(name: &str) -> (r: String)
    ensures
        r@ == "refs/heads/forge/"@ + name@,
{
    let mut s = String::from_str("refs/heads/forge/");
    s.append(name);
    s
}

/// Where the remote-tracking branch of `origin`'s `branch` is kept; a branch
/// is looked up there when it is not known by its short name.
pub fn remote_tracking_ref(branch: &str) -> (r: String)
    ensures
        r@ == "refs/remotes/origin/"@ + branch@,
{
    let mut s = String::from_str("refs/remotes/origin/");
    s.append(branch);
    s
}

/// The name under which a remote lists its `branch`.
pub fn remote_head_ref(branch: &str) -> (r: String)
    ensures
        r@ == "refs/heads/"@ + branch@,
{
    let mut s = String::from_str("refs/heads/");
    s.append(branch);
    s
}

/// Where the worktree for reference token `token` of a repository cloned
/// at `base_dir` is checked out.
pub fn worktree_path(base_dir: &str, token: &str) -> (r: String)
    ensures
        r@ == path_join(path_join(base_dir@, ".forge"@), token@),
{
    let forge = join(base_dir, ".forge");
    join(forge.as_str(), token)
}

/// A git reference over character sequences.
pub enum RefModel {
    Branch(Seq<char>),
    Tag(Seq<char>),
    Commit(Seq<char>),
}

impl View for GitRef {
    type V = RefModel;

    open spec fn view(&self) -> RefModel {
        match self {
            GitRef::Branch(b) => RefModel::Branch(b@),
            GitRef::Tag(t) => RefModel::Tag(t@),
            GitRef::Commit(c) => RefModel::Commit(c@),
        }
    }
}

/// An optional reference by its view.
pub open spec fn ref_view(r: Option<GitRef>) -> Option<RefModel> {
    match r {
        Some(g) => Some(g@),
        None => None,
    }
}

/// A file that differs from the last commit.
#[derive(Debug, Clone)]
pub struct ChangedFile {
    pub status: String,
    pub path: String,
}

/// The state of the project's working tree.
#[derive(Debug, Clone, Default)]
pub struct GitStatus {
    pub commit: Option<String>,
    pub branch: Option<String>,
    pub changed: Vec<ChangedFile>,
}

/// Which kinds of change a git status entry carries, in the working tree or
/// in the index.
#[derive(Debug, Clone, Copy)]
pub struct StatusFlags {
    pub new: bool,
    pub deleted: bool,
    pub renamed: bool,
    pub modified: bool,
}

/// The word used for a change: the first of added, deleted, renamed and
/// modified that the flags carry, else `changed`.
pub open spec fn status_word(flags: StatusFlags) -> Seq<char> {
    if flags.new {
        "added"@
    } else if flags.deleted {
        "deleted"@
    } else if flags.renamed {
        "renamed"@
    } else if flags.modified {
        "modified"@
    } else {
        "changed"@
    }
}

/// Describes a status entry by the first matching kind of change.
pub fn describe_status(flags: StatusFlags) -> (r: String)
    ensures
        r@ == status_word(flags),
{
    if flags.new {
        String::from_str("added")
    } else if flags.deleted {
        String::from_str("deleted")
    } else if flags.renamed {
        String::from_str("renamed")
    } else if flags.modified {
        String::from_str("modified")
    } else {
        String::from_str("changed")
    }
}


/// The share of `done` in `total`, in whole percent (rounded down); no
/// figure when `total` is zero.
pub fn progress_percent(done: usize, total: usize) -> (r: Option<usize>)
    requires
        done * 100 <= usize::MAX,
    ensures
        total == 0 ==> r is None,
        total > 0 ==> r == Some(((done * 100) / (total as int)) as usize),
{
    if total == 0 {
        None
    } else {
        Some(done * 100 / total)
    }
}

} // verus!
