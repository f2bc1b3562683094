//! Working-tree and index status of a file, as the file list shows it.

use vstd::prelude::*;
use crate::model::GitFileStatus;
use crate::text::push_str;

verus! {

/// The status bits of one path that the file list reads.
#[derive(Clone, Copy, Debug, PartialEq, Eq, Structural)]
pub struct StatusFlags {
    pub index_new: bool,
    pub index_modified: bool,
    pub index_deleted: bool,
    pub index_renamed: bool,
    pub wt_new: bool,
    pub wt_modified: bool,
    pub wt_deleted: bool,
    pub wt_renamed: bool,
}

impl StatusFlags {
    /// The path has a change in the index.
    pub open spec fn spec_is_staged(self) -> bool {
        self.index_new || self.index_modified || self.index_deleted || self.index_renamed
    }

    /// The path has a change in the working tree.
    pub open spec fn spec_is_unstaged(self) -> bool {
        self.wt_new || self.wt_modified || self.wt_deleted || self.wt_renamed
    }

    #[verifier::when_used_as_spec(spec_is_staged)]
    pub fn is_staged(self) -> (r: bool)
        ensures
            r == self.spec_is_staged(),
    {
        self.index_new || self.index_modified || self.index_deleted || self.index_renamed
    }

    #[verifier::when_used_as_spec(spec_is_unstaged)]
    pub fn is_unstaged(self) -> (r: bool)
        ensures
            r == self.spec_is_unstaged(),
    {
        self.wt_new || self.wt_modified || self.wt_deleted || self.wt_renamed
    }
}

/// The word for a status, the first that applies of added, modified,
/// deleted and renamed (index or working tree alike), else unknown.
pub open spec fn status_word(s: StatusFlags) -> Seq<char> {
    if s.index_new || s.wt_new {
        "added"@
    } else if s.index_modified || s.wt_modified {
        "modified"@
    } else if s.index_deleted || s.wt_deleted {
        "deleted"@
    } else if s.index_renamed || s.wt_renamed {
        "renamed"@
    } else {
        "unknown"@
    }
}

fn owned(t: &str) -> (r: String)
    ensures
        r@ == t@,
{
    let mut r = String::new();
    push_str(&mut r, t);
    assert(r@ =~= t@);
    r
}

/// The word that names a file's status.
pub fn format_status(status: StatusFlags) -> (r: String)
    ensures
        r@ == status_word(status),
{
    if status.index_new || status.wt_new {
        owned("added")
    } else if status.index_modified || status.wt_modified {
        owned("modified")
    } else if status.index_deleted || status.wt_deleted {
        owned("deleted")
    } else if status.index_renamed || status.wt_renamed {
        owned("renamed")
    } else {
        owned("unknown")
    }
}

/// The file-list entries of one path: a staged entry when the index has a
/// change, then an unstaged one when the working tree has a change.
pub fn status_entries(path: &str, status: StatusFlags) -> (r: Vec<GitFileStatus>)
    ensures
        r@.len() == (if status.is_staged() { 1int } else { 0 }) + (if status.is_unstaged() { 1int } else { 0 }),
        forall|i: int|
            0 <= i < r@.len() ==> (#[trigger] r@[i]).path@ == path@ && r@[i].status@ == status_word(status),
        status.is_staged() ==> r@[0].staged,
        status.is_unstaged() ==> !r@[r@.len() - 1].staged,
{
    let mut r: Vec<GitFileStatus> = Vec::new();
    if status.is_staged() {
        r.push(GitFileStatus { path: owned(path), status: format_status(status), staged: true });
    }
    if status.is_unstaged() {
        r.push(GitFileStatus { path: owned(path), status: format_status(status), staged: false });
    }
    r
}

} // verus!
