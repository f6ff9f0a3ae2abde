use twrk::prompts::{
    chosen_worktree_name, config_line, launching_line, project_line, resolve_group_name, worktree_line,
};

#[test]
fn flag_set_returns_flag() {
    assert_eq!(resolve_group_name(Some("from-flag"), Some("from-picker")), "from-flag");
    assert_eq!(resolve_group_name(Some("from-flag"), None), "from-flag");
}

#[test]
fn flag_unset_picked_some_returns_picked() {
    assert_eq!(resolve_group_name(None, Some("from-picker")), "from-picker");
}

#[test]
fn both_unset_returns_default() {
    assert_eq!(resolve_group_name(None, None), "default");
}

#[test]
fn blank_worktree_answer_takes_placeholder() {
    assert_eq!(chosen_worktree_name("  \t ", "calm-fox"), "calm-fox");
    assert_eq!(chosen_worktree_name("", "calm-fox"), "calm-fox");
    assert_eq!(chosen_worktree_name(" mine ", "calm-fox"), " mine ");
}

#[test]
fn report_lines() {
    assert_eq!(project_line("/home/u/Workspace/twrk"), "Project: twrk");
    assert_eq!(project_line("/"), "Project: ?");
    assert_eq!(config_line("dev"), "Config: dev");
    assert_eq!(worktree_line(Some("smoke-test")), "Worktree: smoke-test");
    assert_eq!(worktree_line(None), "Worktree: none");
    assert_eq!(launching_line("twrk-smoke-test"), "Launching twrk-smoke-test...");
}
