use twrk::config::{
    group_setup, group_worktree, resolve_layout, Config, Element, Group, Pane, Split, Window,
};
use twrk::decode::{decode_config, load_config};
use twrk::files::parse_document;

fn from_yaml(text: &str) -> Result<Config, String> {
    decode_config(parse_document("/p/.twrk.yaml", text).unwrap())
}

fn assert_same(a: &Config, b: &Config) {
    assert_eq!(a.keys(), b.keys());
    for k in a.keys() {
        assert_eq!(a.get(&k), b.get(&k), "group {k}");
    }
}

fn fixture_yaml() -> &'static str {
    r"
default:
  worktree: false
  layout:
    - name: Project
      content:
        - name: Nu shell
          command: nu
dev:
  worktree: true
  layout:
    - name: Dev
      content:
        - name: Agent
          command: agent -r
        - name: Editor
          command: hx
    - name: Server
      content:
        - command: npm run dev
    - name: Logs
      split: rows
      content:
        - name: State
          command: watch -n /var/logs/state.txt
        - name: Events
          command: tail -f /var/logs/my.log
"
}

fn pane(name: Option<&str>, cmd: &str) -> Element {
    Element::Pane(Pane {
        name: name.map(str::to_string),
        command: cmd.to_string(),
    })
}

fn expected() -> Config {
    let mut cfg = Config::new();
    cfg.insert(
        "default".into(),
        Group {
            worktree: Some(false),
            setup: None,
            layout: Some(vec![Window {
                name: Some("Project".into()),
                split: Split::Cols,
                content: vec![pane(Some("Nu shell"), "nu")],
            }]),
        },
    );
    cfg.insert(
        "dev".into(),
        Group {
            worktree: Some(true),
            setup: None,
            layout: Some(vec![
                Window {
                    name: Some("Dev".into()),
                    split: Split::Cols,
                    content: vec![
                        pane(Some("Agent"), "agent -r"),
                        pane(Some("Editor"), "hx"),
                    ],
                },
                Window {
                    name: Some("Server".into()),
                    split: Split::Cols,
                    content: vec![pane(None, "npm run dev")],
                },
                Window {
                    name: Some("Logs".into()),
                    split: Split::Rows,
                    content: vec![
                        pane(Some("State"), "watch -n /var/logs/state.txt"),
                        pane(Some("Events"), "tail -f /var/logs/my.log"),
                    ],
                },
            ]),
        },
    );
    cfg
}

#[test]
fn resolve_layout_returns_named_layout() {
    let cfg = expected();
    let layout = resolve_layout(&cfg, "dev");
    assert_eq!(layout.len(), 3);
}

#[test]
fn resolve_layout_falls_back_when_missing() {
    let cfg = Config::new();
    let layout = resolve_layout(&cfg, "default");
    assert_eq!(layout.len(), 1);
    assert!(layout[0].content.is_empty());
}

#[test]
fn group_worktree_returns_value_or_none() {
    let cfg = expected();
    assert_eq!(group_worktree(&cfg, "default"), Some(false));
    assert_eq!(group_worktree(&cfg, "dev"), Some(true));
    assert_eq!(group_worktree(&cfg, "missing"), None);
}

#[test]
fn fallback_window_is_named_main() {
    let layout = resolve_layout(&Config::new(), "x");
    assert_eq!(layout[0].name.as_deref(), Some("main"));
    assert_eq!(layout[0].split, Split::Cols);
}

#[test]
fn group_without_layout_falls_back() {
    let mut cfg = Config::new();
    cfg.insert("g".into(), Group { worktree: None, setup: None, layout: None });
    let layout = resolve_layout(&cfg, "g");
    assert_eq!(layout.len(), 1);
    assert_eq!(layout[0].name.as_deref(), Some("main"));
}

#[test]
fn group_setup_returns_value_or_none() {
    let mut cfg = Config::new();
    cfg.insert(
        "with".into(),
        Group { worktree: None, setup: Some(vec!["echo hi".into()]), layout: None },
    );
    cfg.insert("without".into(), Group { worktree: None, setup: None, layout: None });
    let expected = vec!["echo hi".to_string()];
    assert_eq!(group_setup(&cfg, "with"), Some(expected.as_slice()));
    assert_eq!(group_setup(&cfg, "without"), None);
    assert_eq!(group_setup(&cfg, "missing"), None);
}

#[test]
fn config_keys_are_sorted_and_insert_replaces() {
    let mut cfg = Config::new();
    for name in ["zeta", "alpha", "mid", "alpha"] {
        cfg.insert(name.into(), Group { worktree: Some(name == "mid"), setup: None, layout: None });
    }
    assert_eq!(cfg.keys(), vec!["alpha", "mid", "zeta"]);
    assert_eq!(cfg.len(), 3);
    assert!(!cfg.is_empty());
    assert_eq!(cfg.get("mid").unwrap().worktree, Some(true));
    assert!(cfg.get("nope").is_none());
    assert!(Config::new().is_empty());
}

#[test]
fn parses_yaml_fixture() {
    let cfg = from_yaml(fixture_yaml()).unwrap();
    assert_same(&cfg, &expected());
}

#[test]
fn parses_json_equivalent() {
    let json = r#"{"default":{"worktree":false,"layout":[{"name":"Project","split":"cols","content":[{"name":"Nu shell","command":"nu"}]}]},"dev":{"worktree":true,"layout":[{"name":"Dev","split":"cols","content":[{"name":"Agent","command":"agent -r"},{"name":"Editor","command":"hx"}]},{"name":"Server","split":"cols","content":[{"command":"npm run dev"}]},{"name":"Logs","split":"rows","content":[{"name":"State","command":"watch -n /var/logs/state.txt"},{"name":"Events","command":"tail -f /var/logs/my.log"}]}]}}"#;
    let cfg = decode_config(parse_document("/p/.twrk.json", json).unwrap()).unwrap();
    assert_same(&cfg, &expected());
}

#[test]
fn parses_toml_equivalent() {
    let toml_str = r#"[default]
worktree = false

[[default.layout]]
name = "Project"
split = "cols"

[[default.layout.content]]
name = "Nu shell"
command = "nu"

[dev]
worktree = true

[[dev.layout]]
name = "Dev"
split = "cols"

[[dev.layout.content]]
name = "Agent"
command = "agent -r"

[[dev.layout.content]]
name = "Editor"
command = "hx"

[[dev.layout]]
name = "Server"
split = "cols"

[[dev.layout.content]]
command = "npm run dev"

[[dev.layout]]
name = "Logs"
split = "rows"

[[dev.layout.content]]
name = "State"
command = "watch -n /var/logs/state.txt"

[[dev.layout.content]]
name = "Events"
command = "tail -f /var/logs/my.log"
"#;
    let cfg = decode_config(parse_document("/p/.twrk.toml", toml_str).unwrap()).unwrap();
    assert_same(&cfg, &expected());
}

#[test]
fn split_defaults_to_cols() {
    let yaml = "default:\n  layout:\n    - content:\n        - command: ls\n";
    let cfg = from_yaml(yaml).unwrap();
    let layout = cfg.get("default").unwrap().layout.as_ref().unwrap();
    assert_eq!(layout[0].split, Split::Cols);
}

#[test]
fn null_content_deserialises_to_empty_vec() {
    let yaml = "default:\n  layout:\n    - name: a\n    - name: b\n      content:\n";
    let cfg = from_yaml(yaml).unwrap();
    let layout = cfg.get("default").unwrap().layout.as_ref().unwrap();
    assert_eq!(layout.len(), 2);
    assert!(layout[0].content.is_empty());
    assert!(layout[1].content.is_empty());
}

#[test]
fn load_for_returns_default_when_no_files() {
    let cfg = twrk::config::load_for(vec![]).unwrap();
    assert!(cfg.is_empty());
    assert!(load_config(vec![]).unwrap().is_empty());
}

#[test]
fn lower_config_wins_over_parent() {
    let parent = parse_document(
        "/p/.twrk.yaml",
        "default:\n  worktree: false\n  layout:\n    - content:\n        - command: from-parent\n",
    )
    .unwrap();
    let child = parse_document(
        "/p/c/.twrk.yaml",
        "default:\n  worktree: true\n  layout:\n    - content:\n        - command: from-child\n",
    )
    .unwrap();
    let cfg = load_config(vec![child, parent]).unwrap();
    let group = cfg.get("default").unwrap();
    assert_eq!(group.worktree, Some(true));
    let layout = group.layout.as_ref().unwrap();
    let Element::Pane(pane) = &layout[0].content[0];
    assert_eq!(pane.command, "from-child");
}

#[test]
fn empty_toml_table_is_a_group_with_nothing_set() {
    let doc = parse_document("/p/.twrk.toml", "[default]\n").unwrap();
    let cfg = load_config(vec![doc]).unwrap();
    assert_eq!(cfg.get("default").unwrap().worktree, None);
    assert_eq!(cfg.get("default").unwrap().layout, None);
}

#[test]
fn setup_list_is_read() {
    let cfg = from_yaml("dev:\n  setup:\n    - npm ci\n    - make\n").unwrap();
    let expected = vec!["npm ci".to_string(), "make".to_string()];
    assert_eq!(group_setup(&cfg, "dev"), Some(expected.as_slice()));
}

#[test]
fn invalid_documents_are_refused() {
    let refused = |reason: &str| Some(format!("invalid merged config: {reason}"));
    assert_eq!(
        from_yaml("default:\n  layout:\n    - content:\n        - name: x\n").err(),
        refused("group `default`: missing field `command`")
    );
    assert_eq!(
        from_yaml("default:\n  layout:\n    - split: diagonal\n").err(),
        refused("group `default`: `split` must be `cols` or `rows`")
    );
    assert_eq!(
        from_yaml("default:\n  worktree: maybe\n").err(),
        refused("group `default`: `worktree` must be a boolean")
    );
    assert_eq!(from_yaml("default: 3\n").err(), refused("group `default`: a group must be a map"));
    assert_eq!(from_yaml("- a\n").err(), refused("the configuration must be a map of groups"));
    assert_eq!(
        from_yaml("dev:\n  setup: [1]\n").err(),
        refused("group `dev`: `setup` must be a list of strings")
    );
}

#[test]
fn the_first_failing_group_in_name_order_is_reported() {
    assert_eq!(
        from_yaml("zeta: 1\nalpha:\n  layout: 2\nmid: {}\n").err(),
        Some("invalid merged config: group `alpha`: `layout` must be a list of windows".to_string())
    );
}

#[test]
fn unknown_fields_are_ignored() {
    let cfg = from_yaml("dev:\n  color: red\n  worktree: true\n").unwrap();
    assert_eq!(cfg.get("dev").unwrap().worktree, Some(true));
}

#[test]
fn load_for_layers_found_files() {
    let found = vec![
        ("/p/c/.twrk.yaml".to_string(), Ok("default:\n  worktree: true\n".to_string())),
        ("/p/.twrk.toml".to_string(), Ok("[default]\nworktree = false\n[dev]\n".to_string())),
    ];
    let cfg = twrk::config::load_for(found).unwrap();
    assert_eq!(cfg.keys(), vec!["default", "dev"]);
    assert_eq!(group_worktree(&cfg, "default"), Some(true));
}

#[test]
fn load_for_reports_the_file_that_fails() {
    let found = vec![
        ("/p/c/.twrk.json".to_string(), Ok("{".to_string())),
        ("/p/.twrk.yaml".to_string(), Err("permission denied".to_string())),
    ];
    assert_eq!(
        twrk::config::load_for(found).err(),
        Some("failed to read config /p/.twrk.yaml: permission denied".to_string())
    );
    let found = vec![("/p/.twrk.json".to_string(), Ok("{\"default\": 1}".to_string()))];
    assert_eq!(
        twrk::config::load_for(found).err(),
        Some("invalid merged config: group `default`: a group must be a map".to_string())
    );
}

#[test]
fn structures_may_be_written_as_arrays() {
    let cfg = from_yaml("default:\n  layout:\n    - [w, rows, [[null, ls], [t, top]]]\n    - [x]\n").unwrap();
    let layout = cfg.get("default").unwrap().layout.clone().unwrap();
    assert_eq!(
        layout,
        vec![
            Window {
                name: Some("w".into()),
                split: Split::Rows,
                content: vec![pane(None, "ls"), pane(Some("t"), "top")],
            },
            Window { name: Some("x".into()), split: Split::Cols, content: vec![] },
        ]
    );
    let cfg = from_yaml("dev: [true, [make]]\n").unwrap();
    let dev = cfg.get("dev").unwrap();
    assert_eq!(dev.worktree, Some(true));
    assert_eq!(dev.setup, Some(vec!["make".to_string()]));
    assert_eq!(dev.layout, None);
    let cfg = from_yaml("dev: []\n").unwrap();
    assert_eq!(cfg.get("dev").unwrap(), &Group { worktree: None, setup: None, layout: None });
}

#[test]
fn wrong_array_lengths_are_refused() {
    assert!(from_yaml("d:\n  layout:\n    - [w, cols, [[ls]]]\n").is_err());
    assert!(from_yaml("d:\n  layout:\n    - []\n").is_err());
    assert!(from_yaml("d:\n  layout:\n    - [w, cols, [], extra]\n").is_err());
    assert!(from_yaml("d: [true, null, null, null]\n").is_err());
}

#[test]
fn split_may_be_written_as_a_one_key_object() {
    let cfg = from_yaml("d:\n  layout:\n    - split: {rows: null}\n").unwrap();
    assert_eq!(cfg.get("d").unwrap().layout.as_ref().unwrap()[0].split, Split::Rows);
    assert!(from_yaml("d:\n  layout:\n    - split: {rows: 1}\n").is_err());
    assert!(from_yaml("d:\n  layout:\n    - split: {rows: null, cols: null}\n").is_err());
    assert!(from_yaml("d:\n  layout:\n    - split: null\n").is_err());
}
