//! The records that the repository side hands to a front end.

use vstd::prelude::*;
use crate::graph::GraphLine;

verus! {

/// A local branch, and whether it is the checked-out one.
pub struct GitBranch {
    pub name: String,
    pub is_head: bool,
}

/// A configured remote and its URL.
pub struct GitRemote {
    pub name: String,
    pub url: String,
}

/// A submodule of the repository.
pub struct GitSubmodule {
    pub name: String,
    pub path: String,
    pub url: String,
}

/// One changed file, on the staged or the unstaged side.
pub struct GitFileStatus {
    pub path: String,
    pub status: String,
    pub staged: bool,
}

/// A commit of the history, with its place in the drawn graph.
pub struct GitCommit {
    pub id: String,
    pub message: String,
    pub author: String,
    pub email: String,
    pub timestamp: String,
    /// Parent identifiers; the first is the mainline.
    pub parents: Vec<String>,
    pub branches: Option<Vec<String>>,
    pub tags: Option<Vec<String>>,
    pub lane: usize,
    pub lines: Vec<GraphLine>,
}

/// A file changed by a commit, with its patch lines.
pub struct CommitFile {
    pub path: String,
    pub old_path: Option<String>,
    pub status: String,
    pub additions: usize,
    pub deletions: usize,
    pub lines: Vec<DiffLine>,
}

/// One line of a patch.
pub struct DiffLine {
    pub old_lineno: Option<u32>,
    pub new_lineno: Option<u32>,
    pub origin: char,
    pub content: String,
}

} // verus!
