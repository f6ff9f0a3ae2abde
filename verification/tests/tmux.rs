use twrk::config::{Element, Pane, Split, Window};
use twrk::tmux::{attach_args, build_commands, ensure_named_windows, has_session_args, push_env};

fn pane(name: Option<&str>, cmd: &str) -> Element {
    Element::Pane(Pane {
        name: name.map(str::to_string),
        command: cmd.to_string(),
    })
}

fn layout_two_windows() -> Vec<Window> {
    vec![
        Window {
            name: Some("Dev".into()),
            split: Split::Cols,
            content: vec![pane(Some("Agent"), "agent"), pane(Some("Editor"), "hx")],
        },
        Window {
            name: Some("Logs".into()),
            split: Split::Rows,
            content: vec![pane(None, "tail -f a"), pane(None, "tail -f b")],
        },
    ]
}

fn s(v: &[&str]) -> Vec<String> {
    v.iter().map(|x| x.to_string()).collect()
}

#[test]
fn first_window_uses_new_session() {
    let cmds = build_commands("s", "/tmp", &layout_two_windows(), &[]);
    assert_eq!(cmds[0][0], "new-session");
    assert!(cmds[0].contains(&"-s".into()));
    assert!(cmds[0].contains(&"s".into()));
    assert!(cmds[0].contains(&"Dev".into()));
    assert!(cmds[0].contains(&"/tmp".into()));
}

#[test]
fn second_pane_in_first_window_uses_horizontal_split() {
    let cmds = build_commands("s", "/tmp", &layout_two_windows(), &[]);
    let split = cmds.iter().find(|c| c[0] == "split-window").unwrap();
    assert!(split.contains(&"-h".into()));
    assert!(split.contains(&"s:Dev".into()));
}

#[test]
fn rows_window_uses_vertical_split() {
    let cmds = build_commands("s", "/tmp", &layout_two_windows(), &[]);
    let splits: Vec<_> = cmds.iter().filter(|c| c[0] == "split-window").collect();
    assert_eq!(splits.len(), 2);
    assert!(splits[1].contains(&"-v".into()));
    assert!(splits[1].contains(&"s:Logs".into()));
}

#[test]
fn second_window_uses_new_window() {
    let cmds = build_commands("s", "/tmp", &layout_two_windows(), &[]);
    let nw = cmds.iter().find(|c| c[0] == "new-window").unwrap();
    assert!(nw.contains(&"Logs".into()));
    assert!(nw.contains(&"s:".into()));
}

#[test]
fn unnamed_window_gets_default_name() {
    let layout = vec![Window {
        name: None,
        split: Split::Cols,
        content: vec![pane(None, "ls")],
    }];
    let cmds = build_commands("s", "/tmp", &layout, &[]);
    assert!(cmds[0].contains(&"win1".into()));
}

#[test]
fn final_select_window_targets_first() {
    let cmds = build_commands("s", "/tmp", &layout_two_windows(), &[]);
    let last = cmds.last().unwrap();
    assert_eq!(last[0], "select-window");
    assert!(last.contains(&"s:Dev".into()));
}

#[test]
fn pane_title_set_when_named() {
    let cmds = build_commands("s", "/tmp", &layout_two_windows(), &[]);
    let titles: Vec<_> = cmds
        .iter()
        .filter(|c| c[0] == "select-pane" && c.contains(&"-T".into()))
        .collect();
    assert!(titles.iter().any(|c| c.contains(&"Agent".into())));
    assert!(titles.iter().any(|c| c.contains(&"Editor".into())));
}

#[test]
fn env_vars_are_added_to_new_session() {
    let env = [("TWRK_CONFIG", "dev"), ("TWRK_WORKTREE", "1")];
    let cmds = build_commands("s", "/tmp", &layout_two_windows(), &env);
    let ns = &cmds[0];
    assert_eq!(ns[0], "new-session");
    let pairs: Vec<&String> = ns
        .windows(2)
        .filter(|w| w[0] == "-e")
        .map(|w| &w[1])
        .collect();
    assert!(pairs.iter().any(|p| p.as_str() == "TWRK_CONFIG=dev"));
    assert!(pairs.iter().any(|p| p.as_str() == "TWRK_WORKTREE=1"));
}

#[test]
fn env_vars_are_added_to_new_window() {
    let env = [("TWRK_CONFIG", "dev")];
    let cmds = build_commands("s", "/tmp", &layout_two_windows(), &env);
    let nw = cmds.iter().find(|c| c[0] == "new-window").unwrap();
    let pairs: Vec<&String> = nw
        .windows(2)
        .filter(|w| w[0] == "-e")
        .map(|w| &w[1])
        .collect();
    assert!(pairs.iter().any(|p| p.as_str() == "TWRK_CONFIG=dev"));
}

#[test]
fn env_vars_are_added_to_split_window() {
    let env = [("TWRK_CONFIG", "dev")];
    let cmds = build_commands("s", "/tmp", &layout_two_windows(), &env);
    let sw = cmds.iter().find(|c| c[0] == "split-window").unwrap();
    let pairs: Vec<&String> = sw
        .windows(2)
        .filter(|w| w[0] == "-e")
        .map(|w| &w[1])
        .collect();
    assert!(pairs.iter().any(|p| p.as_str() == "TWRK_CONFIG=dev"));
}

#[test]
fn env_var_precedes_trailing_shell_command() {
    let env = [("TWRK_CONFIG", "dev")];
    let cmds = build_commands("s", "/tmp", &layout_two_windows(), &env);
    let ns = &cmds[0];
    let last = ns.last().unwrap();
    assert_eq!(last, "agent");
    let last_e = ns.iter().rposition(|s| s == "-e").unwrap();
    assert!(last_e < ns.len() - 2);
}

#[test]
fn no_env_means_no_dash_e_flags() {
    let cmds = build_commands("s", "/tmp", &layout_two_windows(), &[]);
    for cmd in &cmds {
        assert!(!cmd.iter().any(|s| s == "-e"), "unexpected -e in {cmd:?}");
    }
}

#[test]
fn full_command_list_for_two_windows() {
    let cmds = build_commands("s", "/tmp", &layout_two_windows(), &[("K", "v")]);
    let expected: Vec<Vec<String>> = vec![
        s(&["new-session", "-d", "-s", "s", "-n", "Dev", "-c", "/tmp", "-e", "K=v", "agent"]),
        s(&["select-pane", "-t", "s:Dev", "-T", "Agent"]),
        s(&["split-window", "-h", "-t", "s:Dev", "-c", "/tmp", "-e", "K=v", "hx"]),
        s(&["select-pane", "-t", "s:Dev", "-T", "Editor"]),
        s(&["select-pane", "-t", "s:Dev.{top-left}"]),
        s(&["new-window", "-t", "s:", "-n", "Logs", "-c", "/tmp", "-e", "K=v", "tail -f a"]),
        s(&["split-window", "-v", "-t", "s:Logs", "-c", "/tmp", "-e", "K=v", "tail -f b"]),
        s(&["select-pane", "-t", "s:Logs.{top-left}"]),
        s(&["select-window", "-t", "s:Dev"]),
    ];
    assert_eq!(cmds, expected);
}

#[test]
fn empty_pane_command_is_left_out() {
    let layout = vec![Window {
        name: Some("W".into()),
        split: Split::Cols,
        content: vec![pane(None, ""), pane(None, "")],
    }];
    let cmds = build_commands("s", "/d", &layout, &[]);
    assert_eq!(cmds[0], s(&["new-session", "-d", "-s", "s", "-n", "W", "-c", "/d"]));
    assert_eq!(cmds[1], s(&["split-window", "-h", "-t", "s:W", "-c", "/d"]));
}

#[test]
fn window_without_panes_still_gets_created() {
    let layout = vec![Window { name: Some("main".into()), split: Split::Cols, content: vec![] }];
    let cmds = build_commands("p", "/x", &layout, &[]);
    assert_eq!(
        cmds,
        vec![
            s(&["new-session", "-d", "-s", "p", "-n", "main", "-c", "/x"]),
            s(&["select-pane", "-t", "p:main.{top-left}"]),
            s(&["select-window", "-t", "p:main"]),
        ]
    );
}

#[test]
fn empty_layout_gives_no_commands() {
    let cmds = build_commands("p", "/x", &vec![], &[]);
    assert!(cmds.is_empty());
}

#[test]
fn unnamed_windows_are_numbered_from_one() {
    let layout = vec![
        Window { name: None, split: Split::Cols, content: vec![] },
        Window { name: Some("x".into()), split: Split::Cols, content: vec![] },
        Window { name: None, split: Split::Rows, content: vec![] },
    ];
    let named = ensure_named_windows(&layout);
    let names: Vec<_> = named.iter().map(|w| w.name.clone().unwrap()).collect();
    assert_eq!(names, vec!["win1", "x", "win3"]);
    let cmds = build_commands("p", "/x", &layout, &[]);
    assert!(cmds.iter().any(|c| c.contains(&"win10".to_string())) == false);
    assert_eq!(cmds.last().unwrap(), &s(&["select-window", "-t", "p:win1"]));
}

#[test]
fn push_env_appends_pairs_in_order() {
    let mut args = s(&["x"]);
    push_env(&mut args, &[("A", "1"), ("B", "two")]);
    assert_eq!(args, s(&["x", "-e", "A=1", "-e", "B=two"]));
}

#[test]
fn has_session_uses_exact_match() {
    assert_eq!(has_session_args("proj"), s(&["has-session", "-t", "=proj"]));
}

#[test]
fn attach_inside_tmux_switches_client() {
    assert_eq!(attach_args(true, "a"), s(&["switch-client", "-t", "a"]));
    assert_eq!(attach_args(false, "a"), s(&["attach", "-t", "a"]));
}

#[test]
fn command_counts_follow_the_layout() {
    let cmds = build_commands("s", "/tmp", &layout_two_windows(), &[]);
    let count = |w: &str| cmds.iter().filter(|c| c[0] == w).count();
    assert_eq!(count("new-session"), 1);
    assert_eq!(count("new-window"), 1);
    assert_eq!(count("split-window"), 2);
    assert_eq!(cmds.len(), 9);
}
