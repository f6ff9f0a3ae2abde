//! Reading the merged configuration document as config groups.
//!
//! Every group is an object whose fields are all optional: `worktree` (a
//! boolean), `setup` (a list of shell commands) and `layout` (a list of
//! windows). A window has an optional `name`, a `split` of `"cols"` (the
//! default) or `"rows"`, and `content`, a list of panes that may be missing
//! or null. A pane has an optional `name` and a required `command`. An
//! optional field may also be null. Fields not named here are ignored.
//!
//! As with any serde-derived structure, a group, window or pane may also be
//! written as an array of its field values in the order above (a pane as
//! `[name, command]`); trailing fields that have a default may be left out,
//! and a split may also be written as an object `{"cols": null}`.
//!
//! A document that does not fit is refused with a reason of this library's
//! own wording (such as ``missing field `command` `` or
//! ``a pane must be a map``), naming the first group, in name order, that
//! cannot be read.

use vstd::prelude::*;
use crate::json::{Json, JsonV, lemma_view_of, merge_layers, layered, views, law_closest_nested_value_wins, value_at};
use crate::config::{
    Config, Element, Group, GroupV, Pane, PaneV, Split, Window, WindowV, opt_view, strings_view,
    layout_view, panes_view,
};
use crate::text::{str_eq, str_lt, concat, lex_lt, lemma_lex_irreflexive, lemma_lex_transitive, lemma_lex_total, lemma_lex_asymmetric};

verus! {

/// The value of field `k` of an object, if it has one.
pub open spec fn field(m: Map<Seq<char>, JsonV>, k: Seq<char>) -> Option<JsonV> {
    if m.dom().contains(k) {
        Some(m[k])
    } else {
        None
    }
}

/// Item `i` of an array, if it has one.
pub open spec fn item(a: Seq<JsonV>, i: int) -> Option<JsonV> {
    if 0 <= i < a.len() {
        Some(a[i])
    } else {
        None
    }
}

/// The reason given for a field of the wrong kind.
pub open spec fn must_be(field: Seq<char>, what: Seq<char>) -> Seq<char> {
    "`"@ + field + "` must be "@ + what
}

/// Every item read by `f`, in order; the first item that cannot be read
/// gives the reason.
pub open spec fn each<T>(s: Seq<JsonV>, f: spec_fn(JsonV) -> Result<T, Seq<char>>) -> Result<Seq<T>, Seq<char>>
    decreases s.len(),
{
    if s.len() == 0 {
        Ok(Seq::empty())
    } else {
        match each(s.drop_last(), f) {
            Err(e) => Err(e),
            Ok(xs) => match f(s.last()) {
                Ok(x) => Ok(xs.push(x)),
                Err(e) => Err(e),
            },
        }
    }
}

proof fn lemma_each_prefix_err<T>(s: Seq<JsonV>, f: spec_fn(JsonV) -> Result<T, Seq<char>>, k: int)
    requires
        0 <= k <= s.len(),
        each(s.subrange(0, k), f) is Err,
    ensures
        each(s, f) == each(s.subrange(0, k), f),
    decreases s.len(),
{
    if k < s.len() {
        assert(s.drop_last().subrange(0, k) =~= s.subrange(0, k));
        lemma_each_prefix_err(s.drop_last(), f, k);
    } else {
        assert(s.subrange(0, k) =~= s);
    }
}

proof fn lemma_each_step<T>(s: Seq<JsonV>, f: spec_fn(JsonV) -> Result<T, Seq<char>>, i: int)
    requires
        0 <= i < s.len(),
    ensures
        each(s.subrange(0, i + 1), f) == match each(s.subrange(0, i), f) {
            Err(e) => Err(e),
            Ok(xs) => match f(s[i]) {
                Ok(x) => Ok(xs.push(x)),
                Err(e) => Err::<Seq<T>, Seq<char>>(e),
            },
        },
{
    assert(s.subrange(0, i + 1).drop_last() =~= s.subrange(0, i));
}

/// An optional string field: missing or null is `None`.
pub open spec fn opt_str_v(f: Option<JsonV>, name: Seq<char>) -> Result<Option<Seq<char>>, Seq<char>> {
    match f {
        None => Ok(None),
        Some(JsonV::Null) => Ok(None),
        Some(JsonV::Str(s)) => Ok(Some(s)),
        _ => Err(must_be(name, "a string"@)),
    }
}

/// A pane from its fields: a string `command` and an optional `name`.
pub open spec fn pane_fields(name: Option<JsonV>, command: Option<JsonV>) -> Result<PaneV, Seq<char>> {
    match opt_str_v(name, "name"@) {
        Err(e) => Err(e),
        Ok(n) => match command {
            None => Err("missing field `command`"@),
            Some(JsonV::Str(c)) => Ok(PaneV { name: n, command: c }),
            Some(_) => Err(must_be("command"@, "a string"@)),
        },
    }
}

/// A pane: an object with those fields, or the array `[name, command]`.
pub open spec fn pane_v(j: JsonV) -> Result<PaneV, Seq<char>> {
    match j {
        JsonV::Object(m) => pane_fields(field(m, "name"@), field(m, "command"@)),
        JsonV::Array(a) => if a.len() == 2 {
            pane_fields(Some(a[0]), Some(a[1]))
        } else {
            Err("a pane written as a list must have 2 items"@)
        },
        _ => Err("a pane must be a map"@),
    }
}

pub open spec fn read_pane() -> spec_fn(JsonV) -> Result<PaneV, Seq<char>> {
    |j: JsonV| pane_v(j)
}

/// The `split` field: `cols` when missing.
pub open spec fn split_v(f: Option<JsonV>) -> Result<Split, Seq<char>> {
    match f {
        None => Ok(Split::Cols),
        Some(JsonV::Str(s)) => if s == "cols"@ {
            Ok(Split::Cols)
        } else if s == "rows"@ {
            Ok(Split::Rows)
        } else {
            Err(must_be("split"@, "`cols` or `rows`"@))
        },
        Some(JsonV::Object(m)) => if m.dom().len() == 1 && field(m, "cols"@) == Some(JsonV::Null) {
            Ok(Split::Cols)
        } else if m.dom().len() == 1 && field(m, "rows"@) == Some(JsonV::Null) {
            Ok(Split::Rows)
        } else {
            Err(must_be("split"@, "`cols` or `rows`"@))
        },
        _ => Err(must_be("split"@, "`cols` or `rows`"@)),
    }
}

/// The `content` field: no panes when missing or null.
pub open spec fn content_v(f: Option<JsonV>) -> Result<Seq<PaneV>, Seq<char>> {
    match f {
        None => Ok(Seq::empty()),
        Some(JsonV::Null) => Ok(Seq::empty()),
        Some(JsonV::Array(a)) => each(a, read_pane()),
        _ => Err(must_be("content"@, "a list of panes"@)),
    }
}

/// A window from its fields: an optional `name`, a `split` and `content`.
pub open spec fn window_fields(name: Option<JsonV>, split: Option<JsonV>, content: Option<JsonV>) -> Result<WindowV, Seq<char>> {
    match opt_str_v(name, "name"@) {
        Err(e) => Err(e),
        Ok(n) => match split_v(split) {
            Err(e) => Err(e),
            Ok(sp) => match content_v(content) {
                Err(e) => Err(e),
                Ok(c) => Ok(WindowV { name: n, split: sp, content: c }),
            },
        },
    }
}

/// A window: an object with those fields, or the array `[name, split,
/// content]` whose last two items may be left out.
pub open spec fn window_v(j: JsonV) -> Result<WindowV, Seq<char>> {
    match j {
        JsonV::Object(m) => window_fields(field(m, "name"@), field(m, "split"@), field(m, "content"@)),
        JsonV::Array(a) => if 1 <= a.len() <= 3 {
            window_fields(Some(a[0]), item(a, 1), item(a, 2))
        } else {
            Err("a window written as a list must have 1 to 3 items"@)
        },
        _ => Err("a window must be a map"@),
    }
}

pub open spec fn read_window() -> spec_fn(JsonV) -> Result<WindowV, Seq<char>> {
    |j: JsonV| window_v(j)
}

/// The `layout` field: a list of windows, or `None` when missing or null.
pub open spec fn layout_v(f: Option<JsonV>) -> Result<Option<Seq<WindowV>>, Seq<char>> {
    match f {
        None => Ok(None),
        Some(JsonV::Null) => Ok(None),
        Some(JsonV::Array(a)) => match each(a, read_window()) {
            Ok(w) => Ok(Some(w)),
            Err(e) => Err(e),
        },
        _ => Err(must_be("layout"@, "a list of windows"@)),
    }
}

pub open spec fn str_v(j: JsonV) -> Result<Seq<char>, Seq<char>> {
    match j {
        JsonV::Str(s) => Ok(s),
        _ => Err(must_be("setup"@, "a list of strings"@)),
    }
}

pub open spec fn read_str() -> spec_fn(JsonV) -> Result<Seq<char>, Seq<char>> {
    |j: JsonV| str_v(j)
}

/// The `setup` field: a list of strings, or `None` when missing or null.
pub open spec fn setup_v(f: Option<JsonV>) -> Result<Option<Seq<Seq<char>>>, Seq<char>> {
    match f {
        None => Ok(None),
        Some(JsonV::Null) => Ok(None),
        Some(JsonV::Array(a)) => match each(a, read_str()) {
            Ok(w) => Ok(Some(w)),
            Err(e) => Err(e),
        },
        _ => Err(must_be("setup"@, "a list of strings"@)),
    }
}

/// The `worktree` field: a boolean, or `None` when missing or null.
pub open spec fn worktree_v(f: Option<JsonV>) -> Result<Option<bool>, Seq<char>> {
    match f {
        None => Ok(None),
        Some(JsonV::Null) => Ok(None),
        Some(JsonV::Bool(b)) => Ok(Some(b)),
        _ => Err(must_be("worktree"@, "a boolean"@)),
    }
}

/// A config group from its fields, all optional.
pub open spec fn group_fields(worktree: Option<JsonV>, setup: Option<JsonV>, layout: Option<JsonV>) -> Result<GroupV, Seq<char>> {
    match worktree_v(worktree) {
        Err(e) => Err(e),
        Ok(w) => match setup_v(setup) {
            Err(e) => Err(e),
            Ok(s) => match layout_v(layout) {
                Err(e) => Err(e),
                Ok(l) => Ok(GroupV { worktree: w, setup: s, layout: l }),
            },
        },
    }
}

/// A config group: an object with those fields, or the array `[worktree,
/// setup, layout]` of which any trailing items may be left out.
pub open spec fn group_v(j: JsonV) -> Result<GroupV, Seq<char>> {
    match j {
        JsonV::Object(m) => group_fields(field(m, "worktree"@), field(m, "setup"@), field(m, "layout"@)),
        JsonV::Array(a) => if a.len() <= 3 {
            group_fields(item(a, 0), item(a, 1), item(a, 2))
        } else {
            Err("a group written as a list must have at most 3 items"@)
        },
        _ => Err("a group must be a map"@),
    }
}

/// Whether group `k` of a configuration object cannot be read.
pub open spec fn failing(m: Map<Seq<char>, JsonV>, k: Seq<char>) -> bool {
    m.dom().contains(k) && group_v(m[k]) is Err
}

/// The first group in name order that cannot be read.
pub open spec fn first_failing(m: Map<Seq<char>, JsonV>) -> Seq<char> {
    choose|k: Seq<char>| failing(m, k) && forall|k2: Seq<char>| #[trigger] failing(m, k2) ==> !lex_lt(k2, k)
}

/// A configuration: an object whose every value is a group. Otherwise the
/// reason names the first group, in name order, that cannot be read.
pub open spec fn config_v(j: JsonV) -> Result<Map<Seq<char>, GroupV>, Seq<char>> {
    match j {
        JsonV::Object(m) => if forall|k: Seq<char>|
            #[trigger] m.dom().contains(k) ==> group_v(m[k]) is Ok {
            Ok(Map::new(|k: Seq<char>| m.dom().contains(k), |k: Seq<char>| group_v(m[k])->Ok_0))
        } else {
            let k = first_failing(m);
            Err("group `"@ + k + "`: "@ + group_v(m[k])->Err_0)
        },
        _ => Err("the configuration must be a map of groups"@),
    }
}

/// The configuration from the config files found walking up from a
/// project (`layers[0]` closest): no groups when there is no file at all.
pub open spec fn loaded_v(layers: Seq<JsonV>) -> Result<Map<Seq<char>, GroupV>, Seq<char>> {
    match layered(layers) {
        JsonV::Null => Ok(Map::empty()),
        d => config_v(d),
    }
}

/// How a failed reading of the merged document is reported.
pub open spec fn invalid_config(reason: Seq<char>) -> Seq<char> {
    "invalid merged config: "@ + reason
}

pub open spec fn opt_json(f: Option<&Json>) -> Option<JsonV> {
    match f {
        Some(j) => Some(j@),
        None => None,
    }
}

fn must_be_msg(field: &str, what: &str) -> (r: String)
    ensures
        r@ == must_be(field@, what@),
{
    let mut r = concat("`", field);
    r.append("` must be ");
    r.append(what);
    r
}

fn decode_opt_string(f: Option<&Json>, name: &str) -> (r: Result<Option<String>, String>)
    ensures
        match r {
            Ok(x) => opt_str_v(opt_json(f), name@) == Ok::<Option<Seq<char>>, Seq<char>>(opt_view(x)),
            Err(e) => opt_str_v(opt_json(f), name@) == Err::<Option<Seq<char>>, Seq<char>>(e@),
        },
{
    match f {
        None => Ok(None),
        Some(j) => {
            proof {
                lemma_view_of(*j);
            }
            match j {
                Json::Null => Ok(None),
                Json::Str(s) => Ok(Some(s.clone())),
                _ => Err(must_be_msg(name, "a string")),
            }
        },
    }
}

/// Item `i` of an array, if it has one.
fn at(items: &Vec<Json>, i: usize) -> (r: Option<&Json>)
    ensures
        opt_json(r) == item(views(items@), i as int),
{
    if i < items.len() {
        Some(&items[i])
    } else {
        None
    }
}

fn decode_pane_fields(name: Option<&Json>, command: Option<&Json>) -> (r: Result<Pane, String>)
    ensures
        match r {
            Ok(p) => pane_fields(opt_json(name), opt_json(command)) == Ok::<PaneV, Seq<char>>(p@),
            Err(e) => pane_fields(opt_json(name), opt_json(command)) == Err::<PaneV, Seq<char>>(e@),
        },
{
    match decode_opt_string(name, "name") {
        Err(e) => Err(e),
        Ok(n) => match command {
            None => Err("missing field `command`".to_owned()),
            Some(c) => {
                proof {
                    lemma_view_of(*c);
                }
                match c {
                    Json::Str(s) => Ok(Pane { name: n, command: s.clone() }),
                    _ => Err(must_be_msg("command", "a string")),
                }
            },
        },
    }
}

fn decode_pane(j: &Json) -> (r: Result<Pane, String>)
    ensures
        match r {
            Ok(p) => pane_v(j@) == Ok::<PaneV, Seq<char>>(p@),
            Err(e) => pane_v(j@) == Err::<PaneV, Seq<char>>(e@),
        },
{
    proof {
        lemma_view_of(*j);
    }
    match j {
        Json::Object(o) => decode_pane_fields(o.get("name"), o.get("command")),
        Json::Array(items) => {
            assert(j@->Array_0 =~= views(items@));
            if items.len() == 2 {
                decode_pane_fields(at(items, 0), at(items, 1))
            } else {
                Err("a pane written as a list must have 2 items".to_owned())
            }
        },
        _ => Err("a pane must be a map".to_owned()),
    }
}

fn decode_panes(items: &Vec<Json>) -> (r: Result<Vec<Element>, String>)
    ensures
        match r {
            Ok(v) => each(views(items@), read_pane()) == Ok::<Seq<PaneV>, Seq<char>>(panes_view(v@)),
            Err(e) => each(views(items@), read_pane()) == Err::<Seq<PaneV>, Seq<char>>(e@),
        },
{
    let ghost s = views(items@);
    let mut out: Vec<Element> = Vec::new();
    let mut i: usize = 0;
    assert(s.subrange(0, 0) =~= Seq::<JsonV>::empty());
    assert(panes_view(out@) =~= Seq::<PaneV>::empty());
    while i < items.len()
        invariant
            i <= items@.len(),
            s == views(items@),
            each(s.subrange(0, i as int), read_pane()) == Ok::<Seq<PaneV>, Seq<char>>(panes_view(out@)),
        decreases items@.len() - i,
    {
        proof {
            lemma_each_step(s, read_pane(), i as int);
        }
        match decode_pane(&items[i]) {
            Ok(p) => {
                let ghost before = out@;
                out.push(Element::Pane(p));
                assert(panes_view(out@) =~= panes_view(before).push(p@));
            },
            Err(e) => {
                proof {
                    lemma_each_prefix_err(s, read_pane(), i + 1);
                }
                return Err(e);
            },
        }
        i = i + 1;
    }
    assert(s.subrange(0, i as int) =~= s);
    Ok(out)
}

/// Whether a field is present and null.
fn unit_value(f: Option<&Json>) -> (b: bool)
    ensures
        b == (opt_json(f) == Some(JsonV::Null)),
{
    match f {
        Some(j) => {
            proof {
                lemma_view_of(*j);
            }
            match j {
                Json::Null => true,
                _ => false,
            }
        },
        None => false,
    }
}

fn decode_split(f: Option<&Json>) -> (r: Result<Split, String>)
    ensures
        match r {
            Ok(sp) => split_v(opt_json(f)) == Ok::<Split, Seq<char>>(sp),
            Err(e) => split_v(opt_json(f)) == Err::<Split, Seq<char>>(e@),
        },
{
    match f {
        None => Ok(Split::Cols),
        Some(j) => {
            proof {
                lemma_view_of(*j);
            }
            match j {
                Json::Str(s) => if str_eq(s.as_str(), "cols") {
                    Ok(Split::Cols)
                } else if str_eq(s.as_str(), "rows") {
                    Ok(Split::Rows)
                } else {
                    Err(must_be_msg("split", "`cols` or `rows`"))
                },
                Json::Object(o) => {
                    if o.len() != 1 {
                        Err(must_be_msg("split", "`cols` or `rows`"))
                    } else if unit_value(o.get("cols")) {
                        Ok(Split::Cols)
                    } else if unit_value(o.get("rows")) {
                        Ok(Split::Rows)
                    } else {
                        Err(must_be_msg("split", "`cols` or `rows`"))
                    }
                },
                _ => Err(must_be_msg("split", "`cols` or `rows`")),
            }
        },
    }
}

fn decode_content(f: Option<&Json>) -> (r: Result<Vec<Element>, String>)
    ensures
        match r {
            Ok(v) => content_v(opt_json(f)) == Ok::<Seq<PaneV>, Seq<char>>(panes_view(v@)),
            Err(e) => content_v(opt_json(f)) == Err::<Seq<PaneV>, Seq<char>>(e@),
        },
{
    match f {
        None => {
            let v: Vec<Element> = Vec::new();
            assert(panes_view(v@) =~= Seq::<PaneV>::empty());
            Ok(v)
        },
        Some(j) => {
            proof {
                lemma_view_of(*j);
            }
            match j {
                Json::Null => {
                    let v: Vec<Element> = Vec::new();
                    assert(panes_view(v@) =~= Seq::<PaneV>::empty());
                    Ok(v)
                },
                Json::Array(items) => {
                    assert(j@->Array_0 =~= views(items@));
                    decode_panes(items)
                },
                _ => Err(must_be_msg("content", "a list of panes")),
            }
        },
    }
}

fn decode_window_fields(name: Option<&Json>, split: Option<&Json>, content: Option<&Json>) -> (r: Result<Window, String>)
    ensures
        match r {
            Ok(w) => window_fields(opt_json(name), opt_json(split), opt_json(content)) == Ok::<WindowV, Seq<char>>(w@),
            Err(e) => window_fields(opt_json(name), opt_json(split), opt_json(content)) == Err::<WindowV, Seq<char>>(e@),
        },
{
    match decode_opt_string(name, "name") {
        Err(e) => Err(e),
        Ok(n) => match decode_split(split) {
            Err(e) => Err(e),
            Ok(sp) => match decode_content(content) {
                Err(e) => Err(e),
                Ok(c) => Ok(Window { name: n, split: sp, content: c }),
            },
        },
    }
}

fn decode_window(j: &Json) -> (r: Result<Window, String>)
    ensures
        match r {
            Ok(w) => window_v(j@) == Ok::<WindowV, Seq<char>>(w@),
            Err(e) => window_v(j@) == Err::<WindowV, Seq<char>>(e@),
        },
{
    proof {
        lemma_view_of(*j);
    }
    match j {
        Json::Object(o) => decode_window_fields(o.get("name"), o.get("split"), o.get("content")),
        Json::Array(items) => {
            assert(j@->Array_0 =~= views(items@));
            if 1 <= items.len() && items.len() <= 3 {
                decode_window_fields(at(items, 0), at(items, 1), at(items, 2))
            } else {
                Err("a window written as a list must have 1 to 3 items".to_owned())
            }
        },
        _ => Err("a window must be a map".to_owned()),
    }
}

fn decode_windows(items: &Vec<Json>) -> (r: Result<Vec<Window>, String>)
    ensures
        match r {
            Ok(v) => each(views(items@), read_window()) == Ok::<Seq<WindowV>, Seq<char>>(layout_view(v@)),
            Err(e) => each(views(items@), read_window()) == Err::<Seq<WindowV>, Seq<char>>(e@),
        },
{
    let ghost s = views(items@);
    let mut out: Vec<Window> = Vec::new();
    let mut i: usize = 0;
    assert(s.subrange(0, 0) =~= Seq::<JsonV>::empty());
    assert(layout_view(out@) =~= Seq::<WindowV>::empty());
    while i < items.len()
        invariant
            i <= items@.len(),
            s == views(items@),
            each(s.subrange(0, i as int), read_window()) == Ok::<Seq<WindowV>, Seq<char>>(layout_view(out@)),
        decreases items@.len() - i,
    {
        proof {
            lemma_each_step(s, read_window(), i as int);
        }
        match decode_window(&items[i]) {
            Ok(w) => {
                let ghost before = out@;
                out.push(w);
                assert(layout_view(out@) =~= layout_view(before).push(out@.last()@));
            },
            Err(e) => {
                proof {
                    lemma_each_prefix_err(s, read_window(), i + 1);
                }
                return Err(e);
            },
        }
        i = i + 1;
    }
    assert(s.subrange(0, i as int) =~= s);
    Ok(out)
}

fn decode_layout(f: Option<&Json>) -> (r: Result<Option<Vec<Window>>, String>)
    ensures
        match r {
            Ok(Some(v)) => layout_v(opt_json(f)) == Ok::<Option<Seq<WindowV>>, Seq<char>>(Some(layout_view(v@))),
            Ok(None) => layout_v(opt_json(f)) == Ok::<Option<Seq<WindowV>>, Seq<char>>(None),
            Err(e) => layout_v(opt_json(f)) == Err::<Option<Seq<WindowV>>, Seq<char>>(e@),
        },
{
    match f {
        None => Ok(None),
        Some(j) => {
            proof {
                lemma_view_of(*j);
            }
            match j {
                Json::Null => Ok(None),
                Json::Array(items) => {
                    assert(j@->Array_0 =~= views(items@));
                    match decode_windows(items) {
                        Ok(w) => Ok(Some(w)),
                        Err(e) => Err(e),
                    }
                },
                _ => Err(must_be_msg("layout", "a list of windows")),
            }
        },
    }
}

fn decode_strings(items: &Vec<Json>) -> (r: Result<Vec<String>, String>)
    ensures
        match r {
            Ok(v) => each(views(items@), read_str()) == Ok::<Seq<Seq<char>>, Seq<char>>(strings_view(v@)),
            Err(e) => each(views(items@), read_str()) == Err::<Seq<Seq<char>>, Seq<char>>(e@),
        },
{
    let ghost s = views(items@);
    let mut out: Vec<String> = Vec::new();
    let mut i: usize = 0;
    assert(s.subrange(0, 0) =~= Seq::<JsonV>::empty());
    assert(strings_view(out@) =~= Seq::<Seq<char>>::empty());
    while i < items.len()
        invariant
            i <= items@.len(),
            s == views(items@),
            each(s.subrange(0, i as int), read_str()) == Ok::<Seq<Seq<char>>, Seq<char>>(strings_view(out@)),
        decreases items@.len() - i,
    {
        proof {
            lemma_each_step(s, read_str(), i as int);
            lemma_view_of(items@[i as int]);
        }
        match &items[i] {
            Json::Str(t) => {
                let ghost before = out@;
                out.push(t.clone());
                assert(strings_view(out@) =~= strings_view(before).push(t@));
            },
            _ => {
                proof {
                    lemma_each_prefix_err(s, read_str(), i + 1);
                }
                return Err(must_be_msg("setup", "a list of strings"));
            },
        }
        i = i + 1;
    }
    assert(s.subrange(0, i as int) =~= s);
    Ok(out)
}

fn decode_setup(f: Option<&Json>) -> (r: Result<Option<Vec<String>>, String>)
    ensures
        match r {
            Ok(Some(v)) => setup_v(opt_json(f)) == Ok::<Option<Seq<Seq<char>>>, Seq<char>>(Some(strings_view(v@))),
            Ok(None) => setup_v(opt_json(f)) == Ok::<Option<Seq<Seq<char>>>, Seq<char>>(None),
            Err(e) => setup_v(opt_json(f)) == Err::<Option<Seq<Seq<char>>>, Seq<char>>(e@),
        },
{
    match f {
        None => Ok(None),
        Some(j) => {
            proof {
                lemma_view_of(*j);
            }
            match j {
                Json::Null => Ok(None),
                Json::Array(items) => {
                    assert(j@->Array_0 =~= views(items@));
                    match decode_strings(items) {
                        Ok(w) => Ok(Some(w)),
                        Err(e) => Err(e),
                    }
                },
                _ => Err(must_be_msg("setup", "a list of strings")),
            }
        },
    }
}

fn decode_worktree(f: Option<&Json>) -> (r: Result<Option<bool>, String>)
    ensures
        match r {
            Ok(w) => worktree_v(opt_json(f)) == Ok::<Option<bool>, Seq<char>>(w),
            Err(e) => worktree_v(opt_json(f)) == Err::<Option<bool>, Seq<char>>(e@),
        },
{
    match f {
        None => Ok(None),
        Some(j) => {
            proof {
                lemma_view_of(*j);
            }
            match j {
                Json::Null => Ok(None),
                Json::Bool(b) => Ok(Some(*b)),
                _ => Err(must_be_msg("worktree", "a boolean")),
            }
        },
    }
}

fn decode_group_fields(worktree: Option<&Json>, setup: Option<&Json>, layout: Option<&Json>) -> (r: Result<Group, String>)
    ensures
        match r {
            Ok(g) => group_fields(opt_json(worktree), opt_json(setup), opt_json(layout)) == Ok::<GroupV, Seq<char>>(g@),
            Err(e) => group_fields(opt_json(worktree), opt_json(setup), opt_json(layout)) == Err::<GroupV, Seq<char>>(e@),
        },
{
    match decode_worktree(worktree) {
        Err(e) => Err(e),
        Ok(w) => match decode_setup(setup) {
            Err(e) => Err(e),
            Ok(s) => match decode_layout(layout) {
                Err(e) => Err(e),
                Ok(l) => Ok(Group { worktree: w, setup: s, layout: l }),
            },
        },
    }
}

fn decode_group(j: &Json) -> (r: Result<Group, String>)
    ensures
        match r {
            Ok(g) => group_v(j@) == Ok::<GroupV, Seq<char>>(g@),
            Err(e) => group_v(j@) == Err::<GroupV, Seq<char>>(e@),
        },
{
    proof {
        lemma_view_of(*j);
    }
    match j {
        Json::Object(o) => decode_group_fields(o.get("worktree"), o.get("setup"), o.get("layout")),
        Json::Array(items) => {
            assert(j@->Array_0 =~= views(items@));
            if items.len() <= 3 {
                decode_group_fields(at(items, 0), at(items, 1), at(items, 2))
            } else {
                Err("a group written as a list must have at most 3 items".to_owned())
            }
        },
        _ => Err("a group must be a map".to_owned()),
    }
}

/// The config groups a merged document describes; refused, with the reason,
/// when the document is not an object of groups.
pub fn decode_config(doc: Json) -> (r: Result<Config, String>)
    ensures
        match r {
            Ok(c) => config_v(doc@) == Ok::<Map<Seq<char>, GroupV>, Seq<char>>(c@),
            Err(msg) => config_v(doc@) is Err && msg@ == invalid_config(config_v(doc@)->Err_0),
        },
{
    proof {
        lemma_view_of(doc);
    }
    let ghost d = doc@;
    match doc {
        Json::Object(o) => {
            let ghost m = o@;
            let entries = o.into_entries();
            let mut cfg = Config::new();
            let mut best: Option<(usize, String)> = None;
            let mut i: usize = 0;
            while i < entries.len()
                invariant
                    i <= entries@.len(),
                    d == JsonV::Object(m),
                    d == doc@,
                    forall|a: int, b: int|
                        0 <= a < entries@.len() && 0 <= b < entries@.len() && a != b
                            ==> entries@[a].0@ != entries@[b].0@,
                    forall|a: int|
                        0 <= a < entries@.len() ==> m.dom().contains((#[trigger] entries@[a]).0@)
                            && m[entries@[a].0@] == entries@[a].1@,
                    forall|k: Seq<char>|
                        #[trigger] cfg@.dom().contains(k) ==> m.dom().contains(k) && group_v(m[k])
                            == Ok::<GroupV, Seq<char>>(cfg@[k]),
                    forall|k: Seq<char>|
                        #[trigger] m.dom().contains(k) ==> exists|a: int|
                            0 <= a < entries@.len() && (#[trigger] entries@[a]).0@ == k,
                    forall|a: int|
                        0 <= a < i && group_v(m[(#[trigger] entries@[a]).0@]) is Ok ==> cfg@.dom().contains(
                            entries@[a].0@,
                        ),
                    match best {
                        None => forall|a: int| 0 <= a < i ==> !failing(m, (#[trigger] entries@[a]).0@),
                        Some((b, e)) => {
                            &&& b < i
                            &&& failing(m, entries@[b as int].0@)
                            &&& group_v(m[entries@[b as int].0@]) == Err::<GroupV, Seq<char>>(e@)
                            &&& forall|a: int|
                                0 <= a < i && failing(m, (#[trigger] entries@[a]).0@) ==> !lex_lt(
                                    entries@[a].0@,
                                    entries@[b as int].0@,
                                )
                        },
                    },
                decreases entries@.len() - i,
            {
                let ghost key = entries@[i as int].0@;
                match decode_group(&entries[i].1) {
                    Ok(g) => {
                        cfg.insert(entries[i].0.clone(), g);
                    },
                    Err(e) => {
                        let replace = match &best {
                            None => true,
                            Some((b, _)) => str_lt(entries[i].0.as_str(), entries[*b].0.as_str()),
                        };
                        proof {
                            lemma_lex_irreflexive(key);
                            if let Some((b, _)) = best {
                                let kb = entries@[b as int].0@;
                                if replace {
                                    assert forall|a: int|
                                        0 <= a < i + 1 && failing(m, (#[trigger] entries@[a]).0@) implies !lex_lt(
                                        entries@[a].0@,
                                        key,
                                    ) by {
                                        if a < i && lex_lt(entries@[a].0@, key) {
                                            lemma_lex_transitive(entries@[a].0@, key, kb);
                                        }
                                    }
                                }
                            }
                        }
                        if replace {
                            best = Some((i, e));
                        }
                    },
                }
                i = i + 1;
            }
            proof {
                assert forall|k: Seq<char>| #[trigger] m.dom().contains(k) implies exists|a: int|
                    0 <= a < entries@.len() && (#[trigger] entries@[a]).0@ == k by {}
            }
            match best {
                None => {
                    proof {
                        assert forall|k: Seq<char>| #[trigger] m.dom().contains(k) implies group_v(m[k]) is Ok
                            && cfg@.dom().contains(k) by {
                            let a: int = choose|a: int| 0 <= a < entries@.len() && (#[trigger] entries@[a]).0@ == k;
                            assert(!failing(m, entries@[a].0@));
                        }
                        assert(cfg@ =~= Map::new(
                            |k: Seq<char>| m.dom().contains(k),
                            |k: Seq<char>| group_v(m[k])->Ok_0,
                        ));
                    }
                    Ok(cfg)
                },
                Some((b, e)) => {
                    let ghost kb = entries@[b as int].0@;
                    proof {
                        assert forall|k2: Seq<char>| #[trigger] failing(m, k2) implies !lex_lt(k2, kb) by {
                            let a: int = choose|a: int| 0 <= a < entries@.len() && (#[trigger] entries@[a]).0@ == k2;
                        }
                        assert(failing(m, kb) && forall|k2: Seq<char>| #[trigger] failing(m, k2) ==> !lex_lt(k2, kb));
                        let k = first_failing(m);
                        assert(failing(m, k) && forall|k2: Seq<char>| #[trigger] failing(m, k2) ==> !lex_lt(k2, k));
                        lemma_lex_total(k, kb);
                    }
                    let mut reason = concat("group `", entries[b].0.as_str());
                    reason.append("`: ");
                    reason.append(e.as_str());
                    Err(concat("invalid merged config: ", reason.as_str()))
                },
            }
        },
        _ => Err(concat("invalid merged config: ", "the configuration must be a map of groups")),
    }
}

/// The configuration seen from a project, from the config files found
/// walking up from it (`layers[0]` closest): the merged document read as
/// config groups, and no groups at all when there is no file.
pub fn load_config(layers: Vec<Json>) -> (r: Result<Config, String>)
    ensures
        match r {
            Ok(c) => loaded_v(views(layers@)) == Ok::<Map<Seq<char>, GroupV>, Seq<char>>(c@),
            Err(msg) => loaded_v(views(layers@)) is Err && msg@ == invalid_config(loaded_v(views(layers@))->Err_0),
        },
{
    let merged = merge_layers(layers);
    match merged {
        Json::Null => {
            proof {
                lemma_view_of(Json::Null);
            }
            Ok(Config::new())
        },
        other => {
            proof {
                lemma_view_of(other);
            }
            decode_config(other)
        },
    }
}

/// A window that does not mention `split` splits into columns.
pub proof fn law_split_defaults_to_cols(m: Map<Seq<char>, JsonV>)
    requires
        !m.dom().contains("split"@),
        window_v(JsonV::Object(m)) is Ok,
    ensures
        window_v(JsonV::Object(m))->Ok_0.split == Split::Cols,
{
}

/// A window whose `content` is missing or null has no panes.
pub proof fn law_missing_content_is_empty(m: Map<Seq<char>, JsonV>)
    requires
        !m.dom().contains("content"@) || m["content"@] == JsonV::Null,
        window_v(JsonV::Object(m)) is Ok,
    ensures
        window_v(JsonV::Object(m))->Ok_0.content.len() == 0,
{
}

/// With no config file anywhere, the configuration has no groups.
pub proof fn law_no_files_no_groups()
    ensures
        loaded_v(Seq::empty()) == Ok::<Map<Seq<char>, GroupV>, Seq<char>>(Map::empty()),
{
}

/// What the closest config file sets for a group wins over the files above
/// it: the `worktree`, `setup` or `layout` it gives group `g` (when not an
/// object) is what the loaded configuration holds for that group.
pub proof fn law_closest_group_setting_wins(layers: Seq<JsonV>, g: Seq<char>)
    requires
        layers.len() > 0,
        loaded_v(layers) is Ok,
        layers[0] is Object,
        layers[0]->Object_0.dom().contains(g),
        layers[0]->Object_0[g] is Object,
    ensures
        loaded_v(layers)->Ok_0.dom().contains(g),
        value_at(layers[0], g, "worktree"@) matches Some(v) ==> (!(v is Object) ==> loaded_v(
            layers,
        )->Ok_0[g].worktree == worktree_v(Some(v))->Ok_0),
        value_at(layers[0], g, "setup"@) matches Some(v) ==> (!(v is Object) ==> loaded_v(
            layers,
        )->Ok_0[g].setup == setup_v(Some(v))->Ok_0),
        value_at(layers[0], g, "layout"@) matches Some(v) ==> (!(v is Object) ==> loaded_v(
            layers,
        )->Ok_0[g].layout == layout_v(Some(v))->Ok_0),
{
    let fields = seq!["worktree"@, "setup"@, "layout"@];
    assert forall|i: int|
        0 <= i < 3 && value_at(layers[0], g, #[trigger] fields[i]) is Some && !(value_at(
            layers[0],
            g,
            fields[i],
        )->0 is Object) implies value_at(layered(layers), g, fields[i]) == value_at(
        layers[0],
        g,
        fields[i],
    ) by {
        law_closest_nested_value_wins(layers, g, fields[i]);
    }
    assert(fields[0] == "worktree"@ && fields[1] == "setup"@ && fields[2] == "layout"@);
    assert(layered(layers) is Object);
}

} // verus!
