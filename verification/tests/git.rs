use twrk::git::{
    common_dir_args, ensure_worktree, repo_root, worktree_add_args, worktree_target, worktrees_dir,
    WorktreeStep,
};

#[test]
fn common_dir_query_arguments() {
    assert_eq!(
        common_dir_args("/w/p"),
        vec!["-C", "/w/p", "rev-parse", "--path-format=absolute", "--git-common-dir"]
    );
}

#[test]
fn repo_root_is_parent_of_common_dir() {
    let out = b"/home/u/proj/.git\n".to_vec();
    assert_eq!(repo_root(true, out).as_deref(), Some("/home/u/proj"));
}

#[test]
fn repo_root_returns_none_for_non_repo() {
    assert_eq!(repo_root(false, Vec::new()), None);
    assert_eq!(repo_root(false, b"/x/.git\n".to_vec()), None);
}

#[test]
fn repo_root_returns_main_repo_from_inside_a_worktree() {
    let answer = b"/tmp/repo/.git\n".to_vec();
    assert_eq!(repo_root(true, answer).as_deref(), Some("/tmp/repo"));
}

#[test]
fn repo_root_returns_none_for_invalid_utf8() {
    assert_eq!(repo_root(true, vec![0xff, 0xfe]), None);
}

#[test]
fn worktrees_live_under_dot_worktrees() {
    assert_eq!(worktrees_dir("/r"), "/r/.worktrees");
    assert_eq!(worktree_target("/r", "feat-x"), "/r/.worktrees/feat-x");
}

#[test]
fn worktree_add_arguments() {
    assert_eq!(
        worktree_add_args("/r", "feat", "/r/.worktrees/feat"),
        vec!["-C", "/r", "worktree", "add", "-b", "feat", "/r/.worktrees/feat"]
    );
}

#[test]
fn ensure_worktree_reports_created_then_not_created() {
    let first = match ensure_worktree("/r", "feat-x", false) {
        WorktreeStep::Add { target, .. } => target,
        WorktreeStep::Reuse(_) => panic!("first call should create"),
    };
    let second = match ensure_worktree("/r", "feat-x", true) {
        WorktreeStep::Reuse(t) => t,
        WorktreeStep::Add { .. } => panic!("second call should reuse"),
    };
    assert_eq!(first, second);
}

#[test]
fn existing_worktree_is_reused() {
    match ensure_worktree("/r", "feat", true) {
        WorktreeStep::Reuse(t) => assert_eq!(t, "/r/.worktrees/feat"),
        WorktreeStep::Add { .. } => panic!("expected Reuse"),
    }
}

#[test]
fn missing_worktree_is_added_on_a_new_branch() {
    match ensure_worktree("/r", "feat/x", false) {
        WorktreeStep::Add { holder, args, target } => {
            assert_eq!(holder.as_deref(), Some("/r/.worktrees/feat"));
            assert_eq!(target, "/r/.worktrees/feat/x");
            assert_eq!(args, vec!["-C", "/r", "worktree", "add", "-b", "feat/x", "/r/.worktrees/feat/x"]);
        }
        WorktreeStep::Reuse(_) => panic!("expected Add"),
    }
}
