//! Which config file a directory holds, and how to read it.

use vstd::prelude::*;
use crate::config::strings_view;
use crate::paths::{path_join, join};
use crate::text::{str_eq, concat};
use crate::json::{Json, JsonV, RawValue, RawV, raw_meaning, from_raw};

verus! {

/// The config file names a directory is searched for, in order of
/// preference.
pub open spec fn config_file_names_v() -> Seq<Seq<char>> {
    seq![".twrk.toml"@, ".twrk.yaml"@, ".twrk.yml"@, ".twrk.json"@]
}

/// The paths a config file of `dir` may have, most preferred first.
pub fn config_candidates(dir: &str) -> (r: Vec<String>)
    ensures
        strings_view(r@) == config_file_names_v().map_values(|n: Seq<char>| path_join(dir@, n)),
{
    let mut r: Vec<String> = Vec::new();
    r.push(join(dir, ".twrk.toml"));
    r.push(join(dir, ".twrk.yaml"));
    r.push(join(dir, ".twrk.yml"));
    r.push(join(dir, ".twrk.json"));
    assert(strings_view(r@) =~= config_file_names_v().map_values(|n: Seq<char>| path_join(dir@, n)));
    r
}

/// The first candidate that is a file, where `is_file[i]` tells whether
/// `candidates[i]` is one (a candidate without an answer counts as absent).
pub open spec fn first_present(candidates: Seq<Seq<char>>, is_file: Seq<bool>) -> Option<Seq<char>>
    decreases candidates.len(),
{
    if candidates.len() == 0 || is_file.len() == 0 {
        None
    } else if is_file[0] {
        Some(candidates[0])
    } else {
        first_present(candidates.drop_first(), is_file.drop_first())
    }
}

/// The config file of a directory: the most preferred candidate that exists.
pub fn find_config_in(candidates: &Vec<String>, is_file: &[bool]) -> (r: Option<String>)
    ensures
        crate::config::opt_view(r) == first_present(strings_view(candidates@), is_file@),
{
    let mut i: usize = 0;
    let ghost c = strings_view(candidates@);
    assert(c.subrange(0, c.len() as int) =~= c);
    assert(is_file@.subrange(0, is_file@.len() as int) =~= is_file@);
    while i < candidates.len() && i < is_file.len()
        invariant
            i <= candidates@.len(),
            i <= is_file@.len(),
            c == strings_view(candidates@),
            first_present(c, is_file@) == first_present(
                c.subrange(i as int, c.len() as int),
                is_file@.subrange(i as int, is_file@.len() as int),
            ),
        decreases candidates@.len() - i,
    {
        if is_file[i] {
            return Some(candidates[i].clone());
        }
        assert(c.subrange(i as int, c.len() as int).drop_first() =~= c.subrange(i + 1, c.len() as int));
        assert(is_file@.subrange(i as int, is_file@.len() as int).drop_first() =~= is_file@.subrange(
            i + 1,
            is_file@.len() as int,
        ));
        i = i + 1;
    }
    None
}

/// The formats a config file can be written in.
#[derive(Debug, Clone, Copy, PartialEq, Eq, Structural)]
pub enum ConfigFormat {
    Toml,
    Yaml,
    Json,
}

/// What `Path::extension` gives for a path.
pub uninterp spec fn path_extension(p: Seq<char>) -> Option<Seq<char>>;

/// `Path::extension` on a UTF-8 path: the part of the file name after its
/// last dot, if any. Its value for each path is named by `path_extension`.
#[verifier::external_body]
pub(crate) fn extension(p: &str) -> (r: Option<String>)
    ensures
        r matches Some(s) ==> path_extension(p@) == Some(s@),
        r is None ==> path_extension(p@) is None,
{
    std::path::Path::new(p).extension().map(|s| s.to_string_lossy().into_owned())
}

/// The format of a file with extension `ext` (empty when it has none).
pub open spec fn format_of(ext: Seq<char>) -> Option<ConfigFormat> {
    if ext == "toml"@ {
        Some(ConfigFormat::Toml)
    } else if ext == "yaml"@ || ext == "yml"@ {
        Some(ConfigFormat::Yaml)
    } else if ext == "json"@ {
        Some(ConfigFormat::Json)
    } else {
        None
    }
}

/// The extension a config path is judged by: its own, or empty.
pub open spec fn ext_or_empty(p: Seq<char>) -> Seq<char> {
    match path_extension(p) {
        Some(e) => e,
        None => Seq::empty(),
    }
}

/// How to parse the config file at `path`, judged by its extension; an
/// unknown extension is refused with a message that names it.
pub fn config_format(path: &str) -> (r: Result<ConfigFormat, String>)
    ensures
        r matches Ok(f) ==> format_of(ext_or_empty(path@)) == Some(f),
        r matches Err(msg) ==> format_of(ext_or_empty(path@)) is None && msg@
            == "unknown config extension: "@ + ext_or_empty(path@),
{
    let ext = match extension(path) {
        Some(e) => e,
        None => String::new(),
    };
    let e = ext.as_str();
    if str_eq(e, "toml") {
        Ok(ConfigFormat::Toml)
    } else if str_eq(e, "yaml") || str_eq(e, "yml") {
        Ok(ConfigFormat::Yaml)
    } else if str_eq(e, "json") {
        Ok(ConfigFormat::Json)
    } else {
        Err(concat("unknown config extension: ", e))
    }
}

#[verifier::external_type_specification]
#[verifier::external_body]
pub struct ExParsedValue(serde_json::Value);

/// Carries a `serde_json::Value` over into a `RawValue`, variant by variant
/// (a number keeps its textual form, an object its entries in the order the
/// value gives them). The parsers below share it; what they give back as a
/// whole is named by their own spec functions.
#[verifier::external_body]
fn raw_of(v: serde_json::Value) -> RawValue {
    match v {
        serde_json::Value::Null => RawValue::Null,
        serde_json::Value::Bool(b) => RawValue::Bool(b),
        serde_json::Value::Number(n) => RawValue::Number(n.to_string()),
        serde_json::Value::String(s) => RawValue::Str(s),
        serde_json::Value::Array(items) => RawValue::Array(items.into_iter().map(raw_of).collect()),
        serde_json::Value::Object(map) => {
            RawValue::Object(map.into_iter().map(|(k, x)| (k, raw_of(x))).collect())
        },
    }
}

/// What `toml::from_str` makes of a text: the parsed value, or its error
/// message.
pub uninterp spec fn toml_document(raw: Seq<char>) -> Result<RawV, Seq<char>>;

/// What `serde_yml::from_str` makes of a text.
pub uninterp spec fn yaml_document(raw: Seq<char>) -> Result<RawV, Seq<char>>;

/// What `serde_json::from_str` makes of a text.
pub uninterp spec fn json_document(raw: Seq<char>) -> Result<RawV, Seq<char>>;

pub open spec fn result_view(r: Result<Json, String>) -> Result<JsonV, Seq<char>> {
    match r {
        Ok(j) => Ok(j@),
        Err(m) => Err(m@),
    }
}

pub open spec fn raw_result_view(r: Result<RawValue, String>) -> Result<RawV, Seq<char>> {
    match r {
        Ok(v) => Ok(v@),
        Err(m) => Err(m@),
    }
}

/// `toml::from_str` into a `serde_json::Value`, carried into a `RawValue`;
/// its error as text. The outcome for each text is named by `toml_document`.
#[verifier::external_body]
fn parse_toml(raw: &str) -> (r: Result<RawValue, String>)
    ensures
        raw_result_view(r) == toml_document(raw@),
{
    toml::from_str::<serde_json::Value>(raw).map(raw_of).map_err(|e| e.to_string())
}

/// `serde_yml::from_str` into a `serde_json::Value`, carried into a
/// `RawValue`; its error as text. The outcome for each text is named by
/// `yaml_document`.
#[allow(deprecated)]
#[verifier::external_body]
fn parse_yaml(raw: &str) -> (r: Result<RawValue, String>)
    ensures
        raw_result_view(r) == yaml_document(raw@),
{
    serde_yml::from_str::<serde_json::Value>(raw).map(raw_of).map_err(|e| e.to_string())
}

/// `serde_json::from_str` into a `serde_json::Value`, carried into a
/// `RawValue`; its error as text. The outcome for each text is named by
/// `json_document`.
#[verifier::external_body]
fn parse_json(raw: &str) -> (r: Result<RawValue, String>)
    ensures
        raw_result_view(r) == json_document(raw@),
{
    serde_json::from_str::<serde_json::Value>(raw).map(raw_of).map_err(|e| e.to_string())
}

/// A parser's outcome, read as a document.
pub open spec fn meaning_of(r: Result<RawV, Seq<char>>) -> Result<JsonV, Seq<char>> {
    match r {
        Ok(v) => Ok(raw_meaning(v)),
        Err(e) => Err(e),
    }
}

fn document_of(r: Result<RawValue, String>) -> (d: Result<Json, String>)
    ensures
        result_view(d) == meaning_of(raw_result_view(r)),
{
    match r {
        Ok(v) => Ok(from_raw(&v)),
        Err(e) => Err(e),
    }
}

/// The document a config file holds, read by the format its extension
/// names; an unknown extension is refused with a message that names it.
pub open spec fn document_v(path: Seq<char>, raw: Seq<char>) -> Result<JsonV, Seq<char>> {
    match format_of(ext_or_empty(path)) {
        None => Err("unknown config extension: "@ + ext_or_empty(path)),
        Some(ConfigFormat::Toml) => meaning_of(toml_document(raw)),
        Some(ConfigFormat::Yaml) => meaning_of(yaml_document(raw)),
        Some(ConfigFormat::Json) => meaning_of(json_document(raw)),
    }
}

/// Reads the text of the config file at `path` as a document.
pub fn parse_document(path: &str, raw: &str) -> (r: Result<Json, String>)
    ensures
        result_view(r) == document_v(path@, raw@),
{
    match config_format(path) {
        Err(msg) => Err(msg),
        Ok(ConfigFormat::Toml) => document_of(parse_toml(raw)),
        Ok(ConfigFormat::Yaml) => document_of(parse_yaml(raw)),
        Ok(ConfigFormat::Json) => document_of(parse_json(raw)),
    }
}

} // verus!
