use twrk::workspace::{
    expand_root_in, list_projects, parse_roots, project_choices, project_label, root_entries_of, roots,
};

#[test]
fn parse_roots_splits_lines_and_trims() {
    let input = "/a\n  /b  \n\n/c\n";
    let r = parse_roots(input);
    assert_eq!(r, vec!["/a".to_string(), "/b".to_string(), "/c".to_string()]);
}

#[test]
fn root_entries_handle_crlf_and_blank_lines() {
    assert_eq!(root_entries_of("x\r\n\r\n  y"), vec!["x", "y"]);
    assert!(root_entries_of("").is_empty());
    assert!(root_entries_of("\n \n").is_empty());
}

#[test]
fn tilde_roots_expand_against_home() {
    assert_eq!(expand_root_in("~/Code", Some("/home/u")), "/home/u/Code");
    assert_eq!(expand_root_in("~/Code", None), "~/Code");
    assert_eq!(expand_root_in("~", Some("/home/u")), "/home/u");
    assert_eq!(expand_root_in("~", None), "~");
    assert_eq!(expand_root_in("/abs", Some("/home/u")), "/abs");
}

#[test]
fn projects_sort_by_folder_name_across_roots() {
    let paths = vec!["/r1/zeta".to_string(), "/r1/alpha".to_string(), "/r2/gamma".to_string()];
    let sorted = list_projects(paths);
    assert_eq!(sorted, vec!["/r1/alpha", "/r2/gamma", "/r1/zeta"]);
}

#[test]
fn projects_with_same_name_keep_root_order() {
    let paths = vec!["/b/x".to_string(), "/a/x".to_string(), "/a/w".to_string()];
    assert_eq!(list_projects(paths), vec!["/a/w", "/b/x", "/a/x"]);
}

#[test]
fn project_label_is_folder_name() {
    assert_eq!(project_label("/home/u/Workspace/site"), "site");
    assert_eq!(project_label("/"), "?");
}

#[test]
fn project_label_follows_std_file_name() {
    assert_eq!(project_label("/a/b/"), "b");
    assert_eq!(project_label("/a/.."), "?");
}

#[test]
fn roots_come_from_the_setting_when_set() {
    assert_eq!(roots(Some("/a\n\n /b ")), Some(vec!["/a".to_string(), "/b".to_string()]));
    assert_eq!(roots(Some("")), Some(vec![]));
}

#[test]
fn default_root_is_workspace_in_home() {
    if let Some(r) = roots(None) {
        assert_eq!(r.len(), 1);
        assert!(r[0].ends_with("/Workspace"));
    }
}

#[test]
fn picker_lists_each_project_with_its_label() {
    let projects = vec!["/w/alpha".to_string(), "/".to_string()];
    assert_eq!(
        project_choices(&projects),
        Ok(vec![
            ("/w/alpha".to_string(), "alpha".to_string()),
            ("/".to_string(), "?".to_string())
        ])
    );
}

#[test]
fn picker_refuses_an_empty_workspace() {
    assert_eq!(project_choices(&vec![]), Err("no projects found in workspace roots".to_string()));
}

#[test]
fn a_tilde_line_names_the_home_directory() {
    let r = roots(Some("~\n/abs")).unwrap();
    assert_eq!(r.len(), 2);
    assert_eq!(r[1], "/abs");
    let home = twrk::paths::expand_tilde("~");
    assert_eq!(r[0], home);
}
