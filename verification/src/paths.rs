//! Paths as strings: joining, tilde expansion, and the few `std::path`
//! queries the logic needs.

use vstd::prelude::*;
use vstd::string::StringExecFns;
use crate::text::{substring, concat};

verus! {

/// `base.join(seg)` for a Unix path: an absolute `seg` replaces `base`;
/// otherwise `seg` is appended, with a `/` between unless `base` is empty
/// or already ends in one.
pub open spec fn path_join(base: Seq<char>, seg: Seq<char>) -> Seq<char> {
    if seg.len() > 0 && seg[0] == '/' {
        seg
    } else if base.len() == 0 || base.last() == '/' {
        base + seg
    } else {
        base + "/"@ + seg
    }
}

pub fn join(base: &str, seg: &str) -> (r: String)
    ensures
        r@ == path_join(base@, seg@),
{
    proof {
        reveal_strlit("/");
    }
    let n: usize = seg.unicode_len();
    if n > 0 && seg.get_char(0) == '/' {
        return seg.to_owned();
    }
    let m: usize = base.unicode_len();
    if m == 0 || base.get_char(m - 1) == '/' {
        concat(base, seg)
    } else {
        let mut r = concat(base, "/");
        r.append(seg);
        r
    }
}

/// Whether a path is absolute (on Unix: it starts at the root).
pub open spec fn is_absolute(p: Seq<char>) -> bool {
    p.len() > 0 && p[0] == '/'
}

/// What `Path::file_name` gives for a path: its last normal component.
pub uninterp spec fn path_file_name(p: Seq<char>) -> Option<Seq<char>>;

/// What `Path::parent` gives for a path.
pub uninterp spec fn path_parent(p: Seq<char>) -> Option<Seq<char>>;

/// `Path::file_name` on a UTF-8 path: the final component, if there is
/// one. Its value for each path is named by `path_file_name`.
#[verifier::external_body]
pub(crate) fn file_name(p: &str) -> (r: Option<String>)
    ensures
        r matches Some(s) ==> path_file_name(p@) == Some(s@),
        r is None ==> path_file_name(p@) is None,
{
    std::path::Path::new(p).file_name().map(|s| s.to_string_lossy().into_owned())
}

/// `Path::parent` on a UTF-8 path: the path without its final component, if
/// it has one, so a strict prefix of it. Its value for each path is named by
/// `path_parent`.
#[verifier::external_body]
pub(crate) fn parent(p: &str) -> (r: Option<String>)
    ensures
        r matches Some(s) ==> path_parent(p@) == Some(s@) && s@.len() < p@.len(),
        r is None ==> path_parent(p@) is None,
{
    std::path::Path::new(p).parent().map(|s| s.to_string_lossy().into_owned())
}

/// `dirs::home_dir`, as a string. It reads the environment (`$HOME`, then
/// the password database), so nothing ties its result to any argument;
/// where it finds a home, the path is not empty.
#[verifier::external_body]
pub(crate) fn home_dir() -> (r: Option<String>)
    ensures
        r matches Some(h) ==> h@.len() > 0,
{
    dirs::home_dir().map(|p| p.to_string_lossy().into_owned())
}

/// `~` expanded against `home` (the user's home directory, when known):
/// `~` alone is the home itself, `~/rest` is `rest` inside it; anything else,
/// or any input when the home is unknown, stays as it is.
pub open spec fn expanded(input: Seq<char>, home: Option<Seq<char>>) -> Seq<char> {
    match home {
        Some(h) => if input == "~"@ {
            h
        } else if input.len() >= 2 && input.subrange(0, 2) == "~/"@ {
            path_join(h, input.subrange(2, input.len() as int))
        } else {
            input
        },
        None => input,
    }
}

fn is_home_prefixed(input: &str) -> (b: bool)
    ensures
        b == (input@.len() >= 2 && input@.subrange(0, 2) == "~/"@),
{
    proof {
        reveal_strlit("~/");
    }
    let n: usize = input.unicode_len();
    if n >= 2 && input.get_char(0) == '~' && input.get_char(1) == '/' {
        assert(input@.subrange(0, 2) =~= "~/"@);
        true
    } else {
        proof {
            if n >= 2 && input@.subrange(0, 2) == "~/"@ {
                assert(input@.subrange(0, 2)[0] == '~');
                assert(input@.subrange(0, 2)[1] == '/');
            }
        }
        false
    }
}

/// Tilde expansion against a known (or unknown) home directory.
pub fn expand_tilde_in(input: &str, home: Option<&str>) -> (r: String)
    ensures
        r@ == expanded(
            input@,
            match home {
                Some(h) => Some(h@),
                None => None,
            },
        ),
{
    match home {
        Some(h) => {
            if crate::text::str_eq(input, "~") {
                h.to_owned()
            } else if is_home_prefixed(input) {
                let n: usize = input.unicode_len();
                let rest = substring(input, 2, n);
                join(h, rest.as_str())
            } else {
                input.to_owned()
            }
        },
        None => input.to_owned(),
    }
}

/// Expands a leading `~` to the user's home directory, when it is known.
pub fn expand_tilde(input: &str) -> (r: String)
    ensures
        exists|h: Option<Seq<char>>| r@ == expanded(input@, h),
{
    let home = home_dir();
    match home {
        Some(h) => expand_tilde_in(input, Some(h.as_str())),
        None => expand_tilde_in(input, None),
    }
}

/// The path a project argument names: `expanded` if it is absolute, else
/// `expanded` taken relative to the working directory `cwd`.
pub open spec fn absolute(expanded: Seq<char>, cwd: Seq<char>) -> Seq<char> {
    if is_absolute(expanded) {
        expanded
    } else {
        path_join(cwd, expanded)
    }
}

pub fn make_absolute(expanded: &str, cwd: &str) -> (r: String)
    ensures
        r@ == absolute(expanded@, cwd@),
{
    if expanded.unicode_len() > 0 && expanded.get_char(0) == '/' {
        expanded.to_owned()
    } else {
        join(cwd, expanded)
    }
}

/// The directories met walking up from `dir` with `Path::parent`: `dir`
/// itself first, each next one the parent of the one before, and the last
/// one without a parent.
pub open spec fn is_walk_up(dir: Seq<char>, s: Seq<Seq<char>>) -> bool {
    &&& s.len() > 0
    &&& s[0] == dir
    &&& forall|i: int| 0 <= i < s.len() - 1 ==> path_parent(#[trigger] s[i]) == Some(s[i + 1])
    &&& path_parent(s.last()) is None
}

/// `dir` and every directory above it, closest first.
pub fn ancestors(dir: &str) -> (r: Vec<String>)
    ensures
        is_walk_up(dir@, crate::config::strings_view(r@)),
{
    let mut out: Vec<String> = Vec::new();
    out.push(dir.to_owned());
    let mut next = parent(dir);
    while next.is_some()
        invariant
            out@.len() > 0,
            out@[0]@ == dir@,
            forall|i: int| 0 <= i < out@.len() - 1 ==> path_parent((#[trigger] out@[i])@) == Some(out@[i + 1]@),
            path_parent(out@.last()@) == crate::config::opt_view(next),
            next matches Some(p) ==> p@.len() < out@.last()@.len(),
        decreases out@.last()@.len(),
    {
        let p = match next {
            Some(p) => p,
            None => String::new(),
        };
        next = parent(p.as_str());
        out.push(p);
    }
    assert(crate::config::strings_view(out@).last() == out@.last()@);
    out
}

/// The path a project argument names, before links are resolved: the
/// argument with `~` expanded, taken relative to the working directory `cwd`
/// unless it is absolute. `None` when it is relative and the working
/// directory is unknown.
pub fn resolve(input: &str, cwd: Option<&str>) -> (r: Option<String>)
    ensures
        exists|h: Option<Seq<char>>|
            {
                let e = #[trigger] expanded(input@, h);
                match r {
                    Some(p) => if is_absolute(e) {
                        p@ == e
                    } else {
                        cwd matches Some(c) && p@ == path_join(c@, e)
                    },
                    None => !is_absolute(e) && cwd is None,
                }
            },
{
    let e = expand_tilde(input);
    if e.unicode_len() > 0 && e.get_char(0) == '/' {
        Some(e)
    } else {
        match cwd {
            Some(c) => {
                let p = make_absolute(e.as_str(), c);
                Some(p)
            },
            None => None,
        }
    }
}

} // verus!
