//! The choices the interactive prompts feed into.

use vstd::prelude::*;
use crate::text::{trim, trimmed, concat};
use crate::paths::{path_file_name, file_name};

verus! {

/// The active config group: the `-c` flag when given, else the group picked
/// in the prompt, else `default`.
pub fn resolve_group_name(flag: Option<&str>, picked: Option<&str>) -> (r: String)
    ensures
        r@ == match (flag, picked) {
            (Some(f), _) => f@,
            (None, Some(p)) => p@,
            (None, None) => "default"@,
        },
{
    if let Some(value) = flag {
        return value.to_owned();
    }
    if let Some(value) = picked {
        return value.to_owned();
    }
    "default".to_owned()
}

/// The worktree name after the name prompt: what was typed, or the
/// suggested `placeholder` when nothing but white space was typed.
pub fn chosen_worktree_name(typed: &str, placeholder: &str) -> (r: String)
    ensures
        r@ == if trim(typed@).len() == 0 {
            placeholder@
        } else {
            typed@
        },
{
    let t = trimmed(typed);
    if t.as_str().unicode_len() == 0 {
        placeholder.to_owned()
    } else {
        typed.to_owned()
    }
}

/// The line that reports the project when no picker was shown: its folder
/// name, or `?` when the path has none.
pub fn project_line(path: &str) -> (r: String)
    ensures
        r@ == "Project: "@ + match path_file_name(path@) {
            Some(n) => n,
            None => "?"@,
        },
{
    match file_name(path) {
        Some(n) => concat("Project: ", n.as_str()),
        None => concat("Project: ", "?"),
    }
}

/// The line that reports the active config group.
pub fn config_line(group: &str) -> (r: String)
    ensures
        r@ == "Config: "@ + group@,
{
    concat("Config: ", group)
}

/// The line that reports the worktree the session runs in, or `none`.
pub fn worktree_line(name: Option<&str>) -> (r: String)
    ensures
        r@ == "Worktree: "@ + match name {
            Some(n) => n@,
            None => "none"@,
        },
{
    match name {
        Some(n) => concat("Worktree: ", n),
        None => concat("Worktree: ", "none"),
    }
}

/// The closing line before the session opens.
pub fn launching_line(session: &str) -> (r: String)
    ensures
        r@ == "Launching "@ + session@ + "..."@,
{
    let mut r = concat("Launching ", session);
    r.append("...");
    r
}

} // verus!
