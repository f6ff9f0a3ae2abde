use twrk::files::{config_candidates, config_format, find_config_in, parse_document, ConfigFormat};

#[test]
fn candidates_are_listed_in_preference_order() {
    assert_eq!(
        config_candidates("/p"),
        vec!["/p/.twrk.toml", "/p/.twrk.yaml", "/p/.twrk.yml", "/p/.twrk.json"]
    );
}

#[test]
fn toml_is_preferred_over_yaml_in_same_dir() {
    let c = config_candidates("/p");
    assert_eq!(find_config_in(&c, &[true, true, false, false]).as_deref(), Some("/p/.twrk.toml"));
}

#[test]
fn later_candidates_are_found_when_earlier_are_missing() {
    let c = config_candidates("/p");
    assert_eq!(find_config_in(&c, &[false, false, true, true]).as_deref(), Some("/p/.twrk.yml"));
    assert_eq!(find_config_in(&c, &[false, false, false, true]).as_deref(), Some("/p/.twrk.json"));
}

#[test]
fn directory_without_config_has_none() {
    let c = config_candidates("/p");
    assert_eq!(find_config_in(&c, &[false, false, false, false]), None);
    assert_eq!(find_config_in(&c, &[]), None);
}

#[test]
fn format_follows_extension() {
    assert_eq!(config_format("/p/.twrk.toml"), Ok(ConfigFormat::Toml));
    assert_eq!(config_format("/p/.twrk.yaml"), Ok(ConfigFormat::Yaml));
    assert_eq!(config_format("/p/.twrk.yml"), Ok(ConfigFormat::Yaml));
    assert_eq!(config_format("/p/.twrk.json"), Ok(ConfigFormat::Json));
}

#[test]
fn unknown_extension_is_refused() {
    assert_eq!(config_format("/p/x.ini"), Err("unknown config extension: ini".to_string()));
    assert_eq!(config_format("/p/noext"), Err("unknown config extension: ".to_string()));
}

#[test]
fn extension_is_the_part_after_the_last_dot() {
    assert_eq!(config_format("/p/a.tar.json"), Ok(ConfigFormat::Json));
    assert_eq!(config_format("/p/.toml"), Err("unknown config extension: ".to_string()));
}

fn shape(j: &twrk::json::Json) -> String {
    match j {
        twrk::json::Json::Null => "null".into(),
        twrk::json::Json::Bool(b) => b.to_string(),
        twrk::json::Json::Number(n) => n.clone(),
        twrk::json::Json::Str(s) => format!("{s:?}"),
        twrk::json::Json::Array(items) => {
            format!("[{}]", items.iter().map(shape).collect::<Vec<_>>().join(","))
        }
        twrk::json::Json::Object(o) => {
            let mut keys = o.keys();
            keys.sort();
            let parts: Vec<String> =
                keys.iter().map(|k| format!("{k}:{}", shape(o.get(k).unwrap()))).collect();
            format!("{{{}}}", parts.join(","))
        }
    }
}

#[test]
fn each_format_is_parsed_into_the_same_document() {
    let t = parse_document("/p/.twrk.toml", "[dev]\nworktree = true\nsetup = [\"make\"]\nn = 3\n").unwrap();
    let y = parse_document("/p/.twrk.yaml", "dev:\n  worktree: true\n  setup: [make]\n  n: 3\n").unwrap();
    let j = parse_document("/p/.twrk.json", "{\"dev\": {\"worktree\": true, \"setup\": [\"make\"], \"n\": 3}}").unwrap();
    let expected = "{dev:{n:3,setup:[\"make\"],worktree:true}}";
    assert_eq!(shape(&t), expected);
    assert_eq!(shape(&y), expected);
    assert_eq!(shape(&j), expected);
}

#[test]
fn yaml_null_and_empty_documents() {
    assert_eq!(shape(&parse_document("/p/.twrk.yml", "a:\n").unwrap()), "{a:null}");
}

#[test]
fn malformed_documents_are_refused() {
    assert!(parse_document("/p/.twrk.json", "{").is_err());
    assert!(parse_document("/p/.twrk.toml", "[a").is_err());
    assert!(parse_document("/p/.twrk.yaml", "a: [").is_err());
}

#[test]
fn unknown_extension_refuses_before_parsing() {
    assert_eq!(
        parse_document("/p/config.ini", "{}").err(),
        Some("unknown config extension: ini".to_string())
    );
}
