use twrk::json::{deep_merge, from_raw, merge_layers, Json, JsonObject, RawValue};

fn obj(entries: Vec<(&str, Json)>) -> Json {
    let mut o = JsonObject::new();
    for (k, v) in entries {
        o.insert(k.to_string(), v);
    }
    Json::Object(o)
}

fn s(v: &str) -> Json {
    Json::Str(v.to_string())
}

/// A canonical text form, with object keys in sorted order.
fn render(j: &Json) -> String {
    match j {
        Json::Null => "null".to_string(),
        Json::Bool(b) => b.to_string(),
        Json::Number(n) => n.clone(),
        Json::Str(t) => format!("{t:?}"),
        Json::Array(items) => {
            let parts: Vec<String> = items.iter().map(render).collect();
            format!("[{}]", parts.join(","))
        }
        Json::Object(o) => {
            let mut keys = o.keys();
            keys.sort();
            let parts: Vec<String> = keys
                .iter()
                .map(|k| format!("{k:?}:{}", render(o.get(k).unwrap())))
                .collect();
            format!("{{{}}}", parts.join(","))
        }
    }
}

fn field<'a>(j: &'a Json, key: &str) -> &'a Json {
    match j {
        Json::Object(o) => o.get(key).unwrap(),
        _ => panic!("not an object"),
    }
}

#[test]
fn deep_merge_overrides_scalars_and_merges_maps() {
    let a = obj(vec![("default", obj(vec![("worktree", Json::Bool(false))]))]);
    let b = obj(vec![
        ("default", obj(vec![("worktree", Json::Bool(true))])),
        ("dev", obj(vec![("worktree", Json::Bool(true))])),
    ]);
    let m = deep_merge(a, b);
    let expected = obj(vec![
        ("default", obj(vec![("worktree", Json::Bool(true))])),
        ("dev", obj(vec![("worktree", Json::Bool(true))])),
    ]);
    assert_eq!(render(&m), render(&expected));
}

#[test]
fn deep_merge_arrays_overwrite() {
    let a = obj(vec![(
        "default",
        obj(vec![(
            "layout",
            Json::Array(vec![obj(vec![("name", s("old")), ("content", Json::Array(vec![]))])]),
        )]),
    )]);
    let b = obj(vec![(
        "default",
        obj(vec![(
            "layout",
            Json::Array(vec![obj(vec![("name", s("new")), ("content", Json::Array(vec![]))])]),
        )]),
    )]);
    let m = deep_merge(a, b);
    let layout = field(field(&m, "default"), "layout");
    match layout {
        Json::Array(items) => {
            assert_eq!(items.len(), 1);
            assert_eq!(render(field(&items[0], "name")), "\"new\"");
        }
        _ => panic!("layout is not an array"),
    }
}

#[test]
fn deep_merge_keeps_keys_only_in_base() {
    let a = obj(vec![("a", Json::Number("1".into())), ("b", s("x"))]);
    let b = obj(vec![("b", s("y")), ("c", Json::Null)]);
    let m = deep_merge(a, b);
    assert_eq!(render(&m), "{\"a\":1,\"b\":\"y\",\"c\":null}");
}

#[test]
fn deep_merge_onto_null_gives_overlay() {
    let b = obj(vec![("k", s("v"))]);
    assert_eq!(render(&deep_merge(Json::Null, b)), "{\"k\":\"v\"}");
}

#[test]
fn scalar_overlay_replaces_object() {
    let a = obj(vec![("k", s("v"))]);
    assert_eq!(render(&deep_merge(a, Json::Bool(false))), "false");
}

#[test]
fn object_overlay_replaces_scalar_base() {
    let b = obj(vec![("k", s("v"))]);
    assert_eq!(render(&deep_merge(Json::Number("3".into()), b)), "{\"k\":\"v\"}");
}

#[test]
fn merging_a_document_with_itself_changes_nothing() {
    let d = || {
        obj(vec![
            ("x", obj(vec![("y", Json::Array(vec![s("a"), s("b")]))])),
            ("z", Json::Bool(true)),
        ])
    };
    assert_eq!(render(&deep_merge(d(), d())), render(&d()));
}

#[test]
fn closest_layer_wins_over_parent() {
    let child = obj(vec![(
        "default",
        obj(vec![
            ("worktree", Json::Bool(true)),
            ("layout", Json::Array(vec![obj(vec![("content", Json::Array(vec![obj(vec![("command", s("from-child"))])]))])])),
        ]),
    )]);
    let parent = obj(vec![(
        "default",
        obj(vec![
            ("worktree", Json::Bool(false)),
            ("layout", Json::Array(vec![obj(vec![("content", Json::Array(vec![obj(vec![("command", s("from-parent"))])]))])])),
        ]),
    )]);
    let merged = merge_layers(vec![child, parent]);
    let group = field(&merged, "default");
    assert_eq!(render(field(group, "worktree")), "true");
    assert_eq!(
        render(field(group, "layout")),
        "[{\"content\":[{\"command\":\"from-child\"}]}]"
    );
}

#[test]
fn keys_set_only_higher_up_are_inherited() {
    let child = obj(vec![("dev", obj(vec![("worktree", Json::Bool(true))]))]);
    let parent = obj(vec![("default", obj(vec![("worktree", Json::Bool(false))]))]);
    let grand = obj(vec![("default", obj(vec![("setup", Json::Array(vec![s("make")]))]))]);
    let merged = merge_layers(vec![child, parent, grand]);
    assert_eq!(
        render(&merged),
        "{\"default\":{\"setup\":[\"make\"],\"worktree\":false},\"dev\":{\"worktree\":true}}"
    );
}

#[test]
fn no_layers_merge_to_null() {
    assert_eq!(render(&merge_layers(vec![])), "null");
}

#[test]
fn object_insert_replaces_existing_key() {
    let mut o = JsonObject::new();
    o.insert("a".into(), Json::Bool(true));
    o.insert("b".into(), Json::Bool(true));
    o.insert("a".into(), Json::Bool(false));
    assert_eq!(o.len(), 2);
    assert_eq!(render(o.get("a").unwrap()), "false");
    assert!(o.get("c").is_none());
    let entries = o.into_entries();
    assert_eq!(entries.len(), 2);
}

#[test]
fn parsed_objects_keep_the_last_entry_of_a_key() {
    let raw = RawValue::Object(vec![
        ("a".to_string(), RawValue::Number("1".into())),
        ("b".to_string(), RawValue::Array(vec![RawValue::Null, RawValue::Bool(true)])),
        ("a".to_string(), RawValue::Str("x".into())),
    ]);
    assert_eq!(render(&from_raw(&raw)), "{\"a\":\"x\",\"b\":[null,true]}");
}

#[test]
fn merging_onto_an_empty_object_gives_the_overlay() {
    let b = obj(vec![("k", s("v"))]);
    assert_eq!(render(&deep_merge(obj(vec![]), b)), "{\"k\":\"v\"}");
    assert_eq!(render(&deep_merge(obj(vec![]), Json::Bool(true))), "true");
}
