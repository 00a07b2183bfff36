use amp::git_status::{presentable_status, FileStatus};

fn status(worktree_new: bool, index_new: bool, worktree_modified: bool, index_modified: bool) -> FileStatus {
    FileStatus { worktree_new, index_new, worktree_modified, index_modified }
}

#[test]
pub fn presentable_status_returns_untracked_when_status_is_locally_new() {
    let status = status(true, false, false, false);
    assert_eq!(presentable_status(&status), "[untracked]".to_string());
}

#[test]
pub fn presentable_status_returns_ok_when_status_unmodified() {
    let status = status(false, false, false, false);
    assert_eq!(presentable_status(&status), "[ok]".to_string());
}

#[test]
pub fn presentable_status_returns_staged_when_only_modified_in_index() {
    let status = status(false, false, false, true);
    assert_eq!(presentable_status(&status), "[staged]".to_string());
}

#[test]
pub fn presentable_status_returns_staged_when_new_in_index() {
    let status = status(false, true, false, false);
    assert_eq!(presentable_status(&status), "[staged]".to_string());
}

#[test]
pub fn presentable_status_returns_partially_staged_when_modified_locally_and_in_index() {
    let status = status(false, false, true, true);
    assert_eq!(presentable_status(&status), "[partially staged]".to_string());
}

#[test]
pub fn presentable_status_returns_partially_staged_when_new_locally_and_in_index() {
    let status = status(true, true, false, false);
    assert_eq!(presentable_status(&status), "[partially staged]".to_string());
}

#[test]
pub fn presentable_status_returns_modified_when_changed_only_locally() {
    let status = status(false, false, true, false);
    assert_eq!(presentable_status(&status), "[modified]");
}
