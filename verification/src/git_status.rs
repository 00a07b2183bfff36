//! How a file's version-control status is shown in the status line.

use vstd::prelude::*;

verus! {

/// The parts of a file's git status that the status line reports.
#[derive(Clone, Copy, Debug, PartialEq, Eq, Structural)]
pub struct FileStatus {
    /// The file is new in the working tree.
    pub worktree_new: bool,
    /// The file is staged as new in the index.
    pub index_new: bool,
    /// The file has changes in the working tree.
    pub worktree_modified: bool,
    /// The file has changes staged in the index.
    pub index_modified: bool,
}

/// The label for a status: a file that is new locally is untracked, or partially
/// staged when it is also new in the index; a file that is only new in the index
/// is staged; a modified file is partially staged when it also has staged changes,
/// modified otherwise; a file with only staged changes is staged; any other file is
/// ok.
pub open spec fn status_label(s: FileStatus) -> Seq<char> {
    if s.worktree_new {
        if s.index_new {
            "[partially staged]"@
        } else {
            "[untracked]"@
        }
    } else if s.index_new {
        "[staged]"@
    } else if s.worktree_modified {
        if s.index_modified {
            "[partially staged]"@
        } else {
            "[modified]"@
        }
    } else if s.index_modified {
        "[staged]"@
    } else {
        "[ok]"@
    }
}

/// The status-line label for a file's status.
pub fn presentable_status(status: &FileStatus) -> (r: &'static str)
    ensures
        r@ == status_label(*status),
{
    if status.worktree_new {
        if status.index_new {
            // Parts of the file are staged as new in the index.
            "[partially staged]"
        } else {
            // The file has never been added to the repository.
            "[untracked]"
        }
    } else if status.index_new {
        // The complete file is staged as new in the index.
        "[staged]"
    } else if status.worktree_modified {
        if status.index_modified {
            // The file has both staged and unstaged modifications.
            "[partially staged]"
        } else {
            // The file has unstaged modifications.
            "[modified]"
        }
    } else if status.index_modified {
        // The file has staged modifications.
        "[staged]"
    } else {
        // The file is tracked, but has no modifications.
        "[ok]"
    }
}

} // verus!
