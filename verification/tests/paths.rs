use twrk::paths::{ancestors, expand_tilde, expand_tilde_in, join, make_absolute, resolve};

#[test]
fn join_inserts_one_separator() {
    assert_eq!(join("/a", "b"), "/a/b");
    assert_eq!(join("/a/", "b"), "/a/b");
    assert_eq!(join("", "b"), "b");
    assert_eq!(join("/a", ""), "/a/");
}

#[test]
fn join_with_absolute_segment_replaces_base() {
    assert_eq!(join("/a", "/etc"), "/etc");
}

#[test]
fn tilde_alone_is_home() {
    assert_eq!(expand_tilde_in("~", Some("/home/u")), "/home/u");
}

#[test]
fn tilde_slash_is_inside_home() {
    assert_eq!(expand_tilde_in("~/src/x", Some("/home/u")), "/home/u/src/x");
    assert_eq!(expand_tilde_in("~/", Some("/home/u")), "/home/u/");
}

#[test]
fn other_inputs_stay_unexpanded() {
    assert_eq!(expand_tilde_in("~other", Some("/home/u")), "~other");
    assert_eq!(expand_tilde_in("/x/~/y", Some("/home/u")), "/x/~/y");
    assert_eq!(expand_tilde_in("~/x", None), "~/x");
    assert_eq!(expand_tilde_in("~", None), "~");
}

#[test]
fn expand_tilde_uses_the_real_home() {
    let home = expand_tilde("~");
    if home != "~" {
        assert!(!home.is_empty());
        assert_eq!(expand_tilde("~/p"), join(&home, "p"));
    } else {
        assert_eq!(expand_tilde("~/p"), "~/p");
    }
    assert_eq!(expand_tilde("rel/p"), "rel/p");
}

#[test]
fn absolute_paths_are_kept() {
    assert_eq!(make_absolute("/srv/app", "/home/u"), "/srv/app");
}

#[test]
fn relative_paths_are_taken_from_the_working_directory() {
    assert_eq!(make_absolute(".", "/home/u"), "/home/u/.");
    assert_eq!(make_absolute("proj", "/home/u/"), "/home/u/proj");
}

#[test]
fn walking_up_reaches_the_root() {
    assert_eq!(ancestors("/a/b/c"), vec!["/a/b/c", "/a/b", "/a", "/"]);
    assert_eq!(ancestors("/a/b/"), vec!["/a/b/", "/a", "/"]);
    assert_eq!(ancestors("/"), vec!["/"]);
    assert_eq!(ancestors("rel/x"), vec!["rel/x", "rel", ""]);
}

#[test]
fn relative_dot_is_taken_from_the_working_directory() {
    assert_eq!(resolve(".", Some("/w/proj")).as_deref(), Some("/w/proj/."));
}

#[test]
fn resolving_needs_a_working_directory_only_for_relative_paths() {
    assert_eq!(resolve("/abs/p", None).as_deref(), Some("/abs/p"));
    assert_eq!(resolve("rel", None), None);
    assert_eq!(resolve("rel", Some("/w")).as_deref(), Some("/w/rel"));
}

#[test]
fn resolves_absolute_path() {
    assert_eq!(resolve("/tmp/p", Some("/elsewhere")).as_deref(), Some("/tmp/p"));
}
