use twrk::config::{Config, Element, Group, Pane, Split, Window};
use twrk::launch::{
    session_env, session_name, setup_env, worktree_request, Action, Event,
    Launch, Stage, WorktreeRequest,
};

fn group(worktree: Option<bool>, setup: Option<Vec<&str>>) -> Group {
    Group {
        worktree,
        setup: setup.map(|v| v.into_iter().map(String::from).collect()),
        layout: Some(vec![Window {
            name: Some("Dev".into()),
            split: Split::Cols,
            content: vec![Element::Pane(Pane { name: None, command: "hx".into() })],
        }]),
    }
}

fn config() -> Config {
    let mut c = Config::new();
    c.insert("default".into(), group(Some(false), None));
    c.insert("dev".into(), group(Some(true), Some(vec!["make deps"])));
    c
}

fn pairs(v: &[(&str, &str)]) -> Vec<(String, String)> {
    v.iter().map(|(k, x)| (k.to_string(), x.to_string())).collect()
}

#[test]
fn worktree_flag_with_setup_runs_setup_then_builds_session() {
    let mut l = Launch::new(false, Some("dev".into()), Some("feat".into()), "/w/proj".into());
    match l.step(Event::Start) {
        Action::LoadConfig(d) => assert_eq!(d, "/w/proj"),
        _ => panic!("expected LoadConfig"),
    }
    match l.step(Event::ConfigLoaded(config())) {
        Action::FindRepoRoot(d) => assert_eq!(d, "/w/proj"),
        _ => panic!("expected FindRepoRoot"),
    }
    assert_eq!(l.active_group(), "dev");
    match l.step(Event::RepoRoot(Some("/w/proj".into()))) {
        Action::EnsureWorktree(root, name) => {
            assert_eq!(root, "/w/proj");
            assert_eq!(name, "feat");
        }
        _ => panic!("expected EnsureWorktree"),
    }
    match l.step(Event::WorktreeReady("/w/proj/.worktrees/feat".into(), true)) {
        Action::RunSetup(dir, env, cmds) => {
            assert_eq!(dir, "/w/proj/.worktrees/feat");
            assert_eq!(
                env,
                pairs(&[
                    ("TWRK_CONFIG", "dev"),
                    ("TWRK_WORKTREE", "1"),
                    ("TWRK_WORKTREE_NAME", "feat"),
                    ("TWRK_REPO_ROOT", "/w/proj"),
                ])
            );
            assert_eq!(cmds, vec!["make deps"]);
        }
        _ => panic!("expected RunSetup"),
    }
    match l.step(Event::SetupFinished) {
        Action::CheckSession(s) => assert_eq!(s, "proj-feat"),
        _ => panic!("expected CheckSession"),
    }
    assert_eq!(l.worktree_name(), Some("feat"));
    match l.step(Event::SessionChecked(false)) {
        Action::RunTmux(cmds) => {
            assert_eq!(
                cmds[0],
                vec![
                    "new-session", "-d", "-s", "proj-feat", "-n", "Dev", "-c",
                    "/w/proj/.worktrees/feat", "-e", "TWRK_CONFIG=dev", "-e", "TWRK_WORKTREE=1",
                    "hx",
                ]
            );
        }
        _ => panic!("expected RunTmux"),
    }
    match l.step(Event::TmuxFinished) {
        Action::Attach(s) => assert_eq!(s, "proj-feat"),
        _ => panic!("expected Attach"),
    }
    assert!(matches!(l.step(Event::Attached), Action::Finish));
    assert_eq!(l.stage(), Stage::Finished);
}

#[test]
fn existing_worktree_skips_setup() {
    let mut l = Launch::new(false, Some("dev".into()), Some("feat".into()), "/w/proj".into());
    l.step(Event::Start);
    l.step(Event::ConfigLoaded(config()));
    l.step(Event::RepoRoot(Some("/w/proj".into())));
    match l.step(Event::WorktreeReady("/w/proj/.worktrees/feat".into(), false)) {
        Action::CheckSession(s) => assert_eq!(s, "proj-feat"),
        _ => panic!("expected CheckSession"),
    }
}

#[test]
fn existing_session_is_only_attached() {
    let mut l = Launch::new(false, None, None, "/w/proj".into());
    l.step(Event::Start);
    match l.step(Event::ConfigLoaded(config())) {
        Action::CheckSession(s) => assert_eq!(s, "proj"),
        _ => panic!("expected CheckSession"),
    }
    assert_eq!(l.worktree_name(), None);
    match l.step(Event::SessionChecked(true)) {
        Action::Attach(s) => assert_eq!(s, "proj"),
        _ => panic!("expected Attach"),
    }
}

#[test]
fn picker_mode_asks_for_group_then_worktree() {
    let mut l = Launch::new(true, None, None, "/w/proj".into());
    l.step(Event::Start);
    match l.step(Event::ConfigLoaded(config())) {
        Action::PickGroup(names) => assert_eq!(names, vec!["default", "dev"]),
        _ => panic!("expected PickGroup"),
    }
    match l.step(Event::GroupPicked("dev".into())) {
        Action::FindRepoRoot(d) => assert_eq!(d, "/w/proj"),
        _ => panic!("expected FindRepoRoot"),
    }
    assert!(matches!(l.step(Event::RepoRoot(Some("/w/proj".into()))), Action::GenerateName));
    match l.step(Event::NameGenerated("calm-otter".into())) {
        Action::AskWorktree(default, suggestion) => {
            assert!(default);
            assert_eq!(suggestion, "calm-otter");
        }
        _ => panic!("expected AskWorktree"),
    }
    match l.step(Event::WorktreeAnswered(None)) {
        Action::CheckSession(s) => assert_eq!(s, "proj"),
        _ => panic!("expected CheckSession"),
    }
}

#[test]
fn picker_mode_outside_a_repository_uses_group_default() {
    let mut l = Launch::new(true, Some("dev".into()), None, "/w/proj".into());
    l.step(Event::Start);
    assert!(matches!(l.step(Event::ConfigLoaded(config())), Action::FindRepoRoot(_)));
    match l.step(Event::RepoRoot(None)) {
        Action::FindRepoRoot(d) => assert_eq!(d, "/w/proj"),
        _ => panic!("expected FindRepoRoot"),
    }
    match l.step(Event::RepoRoot(None)) {
        Action::CheckSession(s) => assert_eq!(s, "proj"),
        _ => panic!("expected CheckSession"),
    }
}

#[test]
fn single_group_is_not_asked_for() {
    let mut c = Config::new();
    c.insert("default".into(), group(None, None));
    let mut l = Launch::new(true, None, None, "/w/proj".into());
    l.step(Event::Start);
    assert!(matches!(l.step(Event::ConfigLoaded(c)), Action::FindRepoRoot(_)));
    assert_eq!(l.active_group(), "default");
}

#[test]
fn random_worktree_name_is_generated() {
    let mut l = Launch::new(false, None, Some(String::new()), "/w/proj".into());
    l.step(Event::Start);
    l.step(Event::ConfigLoaded(Config::new()));
    assert!(matches!(l.step(Event::RepoRoot(Some("/w/proj".into()))), Action::GenerateName));
    match l.step(Event::NameGenerated("calm-otter".into())) {
        Action::EnsureWorktree(root, name) => {
            assert_eq!(root, "/w/proj");
            assert_eq!(name, "calm-otter");
        }
        _ => panic!("expected EnsureWorktree"),
    }
}

#[test]
fn unexpected_event_fails() {
    let mut l = Launch::new(false, None, None, "/w/proj".into());
    match l.step(Event::Attached) {
        Action::Fail(m) => assert_eq!(m, "unexpected event"),
        _ => panic!("expected Fail"),
    }
}

#[test]
fn folder_without_name_fails() {
    let mut l = Launch::new(false, None, None, "/".into());
    l.step(Event::Start);
    match l.step(Event::ConfigLoaded(Config::new())) {
        Action::Fail(m) => assert_eq!(m, "project path has no folder name"),
        _ => panic!("expected Fail"),
    }
    assert_eq!(l.stage(), Stage::Failed);
}

#[test]
fn lone_group_is_used_without_prompt() {
    let mut c = Config::new();
    c.insert("dev".into(), group(None, None));
    let mut l = Launch::new(true, None, None, "/w/proj".into());
    l.step(Event::Start);
    assert!(matches!(l.step(Event::ConfigLoaded(c)), Action::FindRepoRoot(_)));
    assert_eq!(l.active_group(), "dev");
}

#[test]
fn lone_group_in_path_mode_falls_back_to_default() {
    let mut c = Config::new();
    c.insert("dev".into(), group(None, None));
    let mut l = Launch::new(false, None, None, "/w/proj".into());
    l.step(Event::Start);
    l.step(Event::ConfigLoaded(c));
    assert_eq!(l.active_group(), "default");
}

#[test]
fn prompt_offers_only_the_config_groups() {
    let mut c = Config::new();
    c.insert("prod".into(), group(None, None));
    c.insert("dev".into(), group(None, None));
    let mut l = Launch::new(true, None, None, "/w/proj".into());
    l.step(Event::Start);
    match l.step(Event::ConfigLoaded(c)) {
        Action::PickGroup(names) => assert_eq!(names, vec!["dev", "prod"]),
        _ => panic!("expected PickGroup"),
    }
}

#[test]
fn empty_config_uses_default_without_prompt() {
    let mut l = Launch::new(true, None, None, "/w/proj".into());
    l.step(Event::Start);
    assert!(matches!(l.step(Event::ConfigLoaded(Config::new())), Action::FindRepoRoot(_)));
    assert_eq!(l.active_group(), "default");
}

#[test]
fn environments() {
    assert_eq!(session_env("dev", false), pairs(&[("TWRK_CONFIG", "dev")]));
    assert_eq!(
        session_env("dev", true),
        pairs(&[("TWRK_CONFIG", "dev"), ("TWRK_WORKTREE", "1")])
    );
    assert_eq!(setup_env("g", "n", "/r").len(), 4);
}

#[test]
fn session_names() {
    assert_eq!(session_name("proj", None), "proj");
    assert_eq!(session_name("proj", Some("feat")), "proj-feat");
}

#[test]
fn worktree_requests() {
    assert_eq!(worktree_request(None), WorktreeRequest::Unspecified);
    assert_eq!(worktree_request(Some("")), WorktreeRequest::Random);
    assert_eq!(worktree_request(Some("x")), WorktreeRequest::Named("x".into()));
}

#[test]
fn only_finished_setup_moves_on() {
    let mut l = Launch::new(false, Some("dev".into()), Some("feat".into()), "/w/proj".into());
    l.step(Event::Start);
    l.step(Event::ConfigLoaded(config()));
    l.step(Event::RepoRoot(Some("/w/proj".into())));
    assert!(matches!(
        l.step(Event::WorktreeReady("/w/proj/.worktrees/feat".into(), true)),
        Action::RunSetup(..)
    ));
    assert!(matches!(l.step(Event::SessionChecked(false)), Action::Fail(_)));
    assert_eq!(l.stage(), Stage::SettingUp);
    assert!(matches!(l.step(Event::SetupFinished), Action::CheckSession(_)));
}

#[test]
fn outside_a_repository_no_worktree_is_used() {
    let mut l = Launch::new(false, None, Some("feat".into()), "/w/proj".into());
    l.step(Event::Start);
    assert!(matches!(l.step(Event::ConfigLoaded(Config::new())), Action::FindRepoRoot(_)));
    match l.step(Event::RepoRoot(None)) {
        Action::CheckSession(s) => assert_eq!(s, "proj"),
        _ => panic!("expected CheckSession"),
    }
    assert_eq!(l.worktree_name(), None);
}
