//! Workspace roots and the projects found in them.

use vstd::prelude::*;
use crate::text::{trim, trimmed, push_char, lex_lt, str_lt, str_eq, lemma_lex_transitive, lemma_lex_total, lemma_lex_asymmetric, lemma_lex_irreflexive};
use crate::config::strings_view;
use crate::paths::{path_join, path_file_name, file_name, home_dir, join, expanded, expand_tilde_in};

verus! {

/// The lines of `s`: the pieces between `\n` characters.
pub open spec fn split_lines(s: Seq<char>) -> Seq<Seq<char>>
    decreases s.len(),
{
    if s.len() == 0 {
        seq![Seq::empty()]
    } else {
        let ls = split_lines(s.drop_last());
        if s.last() == '\n' {
            ls.push(Seq::empty())
        } else {
            ls.update(ls.len() - 1, ls.last().push(s.last()))
        }
    }
}

proof fn lemma_split_lines_nonempty(s: Seq<char>)
    ensures
        split_lines(s).len() > 0,
    decreases s.len(),
{
    if s.len() > 0 {
        lemma_split_lines_nonempty(s.drop_last());
    }
}

/// The trimmed lines that are not blank, in order.
pub open spec fn nonblank_trimmed(lines: Seq<Seq<char>>) -> Seq<Seq<char>>
    decreases lines.len(),
{
    if lines.len() == 0 {
        Seq::empty()
    } else {
        let rest = nonblank_trimmed(lines.drop_last());
        if trim(lines.last()).len() > 0 {
            rest.push(trim(lines.last()))
        } else {
            rest
        }
    }
}

/// The root entries of a workspace setting: one per non-blank line, trimmed.
pub open spec fn root_entries(value: Seq<char>) -> Seq<Seq<char>> {
    nonblank_trimmed(split_lines(value))
}

/// A root with `~` expanded against `home`, when the home is known: `~`
/// alone is the home itself, a leading `~/` is taken inside it.
pub open spec fn expanded_root(entry: Seq<char>, home: Option<Seq<char>>) -> Seq<char> {
    expanded(entry, home)
}

proof fn lemma_nonblank_push(lines: Seq<Seq<char>>, l: Seq<char>)
    ensures
        nonblank_trimmed(lines.push(l)) == if trim(l).len() > 0 {
            nonblank_trimmed(lines).push(trim(l))
        } else {
            nonblank_trimmed(lines)
        },
{
    assert(lines.push(l).drop_last() =~= lines);
}

fn finish_line(out: &mut Vec<String>, line: &String)
    ensures
        strings_view(final(out)@) == if trim(line@).len() > 0 {
            strings_view(old(out)@).push(trim(line@))
        } else {
            strings_view(old(out)@)
        },
{
    let t = trimmed(line.as_str());
    if t.as_str().unicode_len() > 0 {
        out.push(t);
        assert(strings_view(out@) =~= strings_view(old(out)@).push(trim(line@)));
    }
}

/// The entries of a newline-separated list of roots: lines trimmed, blank
/// lines dropped.
pub fn root_entries_of(value: &str) -> (r: Vec<String>)
    ensures
        strings_view(r@) == root_entries(value@),
{
    let n: usize = value.unicode_len();
    let mut out: Vec<String> = Vec::new();
    let mut cur = String::new();
    let mut i: usize = 0;
    assert(value@.subrange(0, 0) =~= Seq::<char>::empty());
    assert(strings_view(out@) =~= nonblank_trimmed(Seq::<Seq<char>>::empty()));
    assert(split_lines(Seq::<char>::empty()).drop_last() =~= Seq::<Seq<char>>::empty());
    while i < n
        invariant
            n == value@.len(),
            i <= n,
            split_lines(value@.subrange(0, i as int)).len() > 0,
            cur@ == split_lines(value@.subrange(0, i as int)).last(),
            strings_view(out@) == nonblank_trimmed(
                split_lines(value@.subrange(0, i as int)).drop_last(),
            ),
        decreases n - i,
    {
        let c = value.get_char(i);
        let ghost p = value@.subrange(0, i as int);
        let ghost q = value@.subrange(0, i + 1);
        assert(q.drop_last() =~= p);
        assert(q.last() == c);
        proof {
            lemma_split_lines_nonempty(p);
        }
        if c == '\n' {
            let ghost ls = split_lines(p);
            proof {
                lemma_nonblank_push(ls.drop_last(), ls.last());
                assert(ls.drop_last().push(ls.last()) =~= ls);
                assert(split_lines(q).drop_last() =~= ls);
            }
            finish_line(&mut out, &cur);
            cur = String::new();
        } else {
            let ghost ls = split_lines(p);
            push_char(&mut cur, c);
            assert(split_lines(q).drop_last() =~= ls.drop_last());
        }
        i = i + 1;
    }
    assert(value@.subrange(0, n as int) =~= value@);
    let ghost ls = split_lines(value@);
    proof {
        lemma_split_lines_nonempty(value@);
        lemma_nonblank_push(ls.drop_last(), ls.last());
        assert(ls.drop_last().push(ls.last()) =~= ls);
    }
    finish_line(&mut out, &cur);
    out
}

/// Whether a root entry names the home directory: `~` alone, or a leading
/// `~/`.
fn needs_home(entry: &str) -> (b: bool)
    ensures
        b == (entry@ == "~"@ || (entry@.len() >= 2 && entry@.subrange(0, 2) == "~/"@)),
{
    proof {
        reveal_strlit("~/");
        reveal_strlit("~");
    }
    if str_eq(entry, "~") {
        return true;
    }
    if entry.unicode_len() >= 2 && entry.get_char(0) == '~' && entry.get_char(1) == '/' {
        assert(entry@.subrange(0, 2) =~= "~/"@);
        true
    } else {
        proof {
            if entry@.len() >= 2 && entry@.subrange(0, 2) == "~/"@ {
                assert(entry@.subrange(0, 2)[0] == '~' && entry@.subrange(0, 2)[1] == '/');
            }
        }
        false
    }
}

/// A root entry with `~` expanded against `home`: `~` alone is the home,
/// a leading `~/` is taken inside it.
pub fn expand_root_in(entry: &str, home: Option<&str>) -> (r: String)
    ensures
        r@ == expanded_root(
            entry@,
            match home {
                Some(h) => Some(h@),
                None => None,
            },
        ),
{
    expand_tilde_in(entry, home)
}

/// `r` is `entry` expanded against some home directory, known or not.
pub open spec fn expands_to(entry: Seq<char>, r: Seq<char>) -> bool {
    exists|h: Option<Seq<char>>| #[trigger] expanded_root(entry, h) == r
}

/// A root entry with `~` expanded against the user's home directory (looked
/// up only for entries that name it); unchanged when the home is unknown.
pub fn expand_root(entry: &str) -> (r: String)
    ensures
        expands_to(entry@, r@),
{
    if needs_home(entry) {
        match home_dir() {
            Some(h) => {
                let r = expand_root_in(entry, Some(h.as_str()));
                assert(expanded_root(entry@, Some(h@)) == r@);
                r
            },
            None => {
                let r = expand_root_in(entry, None);
                assert(expanded_root(entry@, None) == r@);
                r
            },
        }
    } else {
        let r = expand_root_in(entry, None);
        assert(expanded_root(entry@, None) == r@);
        r
    }
}

/// The workspace roots named by a newline-separated setting: each non-blank
/// line, trimmed, with `~` expanded.
pub fn parse_roots(value: &str) -> (r: Vec<String>)
    ensures
        r@.len() == root_entries(value@).len(),
        forall|i: int|
            0 <= i < r@.len() ==> expands_to(root_entries(value@)[i], (#[trigger] r@[i])@),
{
    let entries = root_entries_of(value);
    let mut out: Vec<String> = Vec::new();
    let mut i: usize = 0;
    while i < entries.len()
        invariant
            i <= entries@.len(),
            strings_view(entries@) == root_entries(value@),
            out@.len() == i,
            forall|j: int|
                0 <= j < i ==> expands_to(root_entries(value@)[j], (#[trigger] out@[j])@),
        decreases entries@.len() - i,
    {
        let e = expand_root(entries[i].as_str());
        assert(strings_view(entries@)[i as int] == entries@[i as int]@);
        out.push(e);
        proof {
            assert forall|j: int| 0 <= j < i + 1 implies expands_to(
                root_entries(value@)[j],
                (#[trigger] out@[j])@,
            ) by {
                if j == i {
                    assert(out@[j] == e);
                }
            }
        }
        i = i + 1;
    }
    out
}

/// The roots used when none are configured: `Workspace` in the home
/// directory; nothing when the home is unknown.
pub open spec fn default_roots(home: Option<Seq<char>>) -> Option<Seq<Seq<char>>> {
    match home {
        Some(h) => Some(seq![path_join(h, "Workspace"@)]),
        None => None,
    }
}

/// The default workspace roots, from the user's home directory: `None`
/// when the home directory cannot be determined.
fn default_workspace_roots() -> (r: Option<Vec<String>>)
    ensures
        exists|h: Option<Seq<char>>|
            #[trigger] default_roots(h) == match r {
                Some(v) => Some(strings_view(v@)),
                None => None,
            },
{
    match home_dir() {
        Some(h) => {
            let mut v: Vec<String> = Vec::new();
            v.push(join(h.as_str(), "Workspace"));
            assert(strings_view(v@) =~= default_roots(Some(h@))->0);
            assert(default_roots(Some(h@)) == Some(strings_view(v@)));
            Some(v)
        },
        None => {
            assert(default_roots(None) is None);
            None
        },
    }
}

/// The order projects are listed in: by folder name, a path without one
/// first.
pub open spec fn name_lt(a: Option<Seq<char>>, b: Option<Seq<char>>) -> bool {
    match (a, b) {
        (None, Some(_)) => true,
        (Some(x), Some(y)) => lex_lt(x, y),
        _ => false,
    }
}

proof fn lemma_name_lt_transitive(a: Option<Seq<char>>, b: Option<Seq<char>>, c: Option<Seq<char>>)
    requires
        name_lt(a, b),
        name_lt(b, c),
    ensures
        name_lt(a, c),
{
    if a is Some {
        lemma_lex_transitive(a->0, b->0, c->0);
    }
}

/// Paths in non-decreasing order of their folder names.
pub open spec fn sorted_by_name(s: Seq<Seq<char>>) -> bool {
    forall|i: int, j: int|
        0 <= i < j < s.len() ==> !name_lt(path_file_name(s[j]), path_file_name(s[i]))
}

fn name_lt_exec(a: &Option<String>, b: &Option<String>) -> (r: bool)
    ensures
        r == name_lt(crate::config::opt_view(*a), crate::config::opt_view(*b)),
{
    match (a, b) {
        (None, Some(_)) => true,
        (Some(x), Some(y)) => str_lt(x.as_str(), y.as_str()),
        _ => false,
    }
}

proof fn lemma_name_lt_total(a: Option<Seq<char>>, b: Option<Seq<char>>)
    ensures
        a == b || name_lt(a, b) || name_lt(b, a),
{
    if a is Some && b is Some {
        lemma_lex_total(a->0, b->0);
    }
}

proof fn lemma_name_lt_irreflexive(a: Option<Seq<char>>)
    ensures
        !name_lt(a, a),
{
    if a is Some {
        lemma_lex_irreflexive(a->0);
    }
}

/// The paths among `s` whose folder name is `n`, in their order in `s`.
pub open spec fn named(s: Seq<String>, n: Option<Seq<char>>) -> Seq<String> {
    s.filter(|p: String| path_file_name(p@) == n)
}

/// Inserting `p` in front of paths whose names all come after its own keeps
/// every other name's paths as they were, and puts `p` last among its own.
proof fn lemma_insert_named(s: Seq<String>, q: int, p: String, n: Option<Seq<char>>)
    requires
        0 <= q <= s.len(),
        forall|j: int| q <= j < s.len() ==> name_lt(path_file_name(p@), path_file_name(#[trigger] s[j]@)),
    ensures
        named(s.insert(q, p), n) == if path_file_name(p@) == n {
            named(s, n).push(p)
        } else {
            named(s, n)
        },
{
    let pred = |x: String| path_file_name(x@) == n;
    let a = s.subrange(0, q);
    let b = s.subrange(q, s.len() as int);
    assert(s.insert(q, p) =~= a + seq![p] + b);
    assert(s =~= a + b);
    Seq::<String>::filter_distributes_over_add(a + seq![p], b, pred);
    Seq::<String>::filter_distributes_over_add(a, seq![p], pred);
    Seq::<String>::filter_distributes_over_add(a, b, pred);
    Seq::<String>::empty().lemma_filter_push(p, pred);
    assert(Seq::<String>::empty().push(p) =~= seq![p]);
    assert(Seq::<String>::empty().filter(pred) =~= Seq::<String>::empty()) by {
        Seq::<String>::empty().lemma_all_neg_filter_empty(pred);
    }
    if path_file_name(p@) == n {
        assert forall|j: int| 0 <= j < b.len() implies !pred(#[trigger] b[j]) by {
            assert(b[j] == s[q + j]);
            lemma_name_lt_irreflexive(n);
        }
        assert(b.all(|x: String| !pred(x)));
        b.lemma_all_neg_filter_empty(pred);
        assert(b.filter(pred) =~= Seq::<String>::empty());
        assert(a.filter(pred) + seq![p] =~= a.filter(pred).push(p));
        assert(a.filter(pred) + b.filter(pred) =~= a.filter(pred));
    } else {
        assert(a.filter(pred) + Seq::<String>::empty() =~= a.filter(pred));
    }
}

pub open spec fn keyed_paths(s: Seq<(Option<String>, String)>) -> Seq<String> {
    s.map_values(|e: (Option<String>, String)| e.1)
}

/// The projects sorted by folder name, as `list_projects` lists them;
/// projects with the same name keep their relative order.
pub fn list_projects(paths: Vec<String>) -> (r: Vec<String>)
    ensures
        sorted_by_name(strings_view(r@)),
        forall|n: Option<Seq<char>>| #[trigger] named(r@, n) == named(paths@, n),
        r@.to_multiset() == paths@.to_multiset(),
{
    let mut out: Vec<(Option<String>, String)> = Vec::new();
    let mut i: usize = 0;
    assert(paths@.subrange(0, 0) =~= Seq::<String>::empty());
    assert(keyed_paths(out@) =~= Seq::<String>::empty());
    while i < paths.len()
        invariant
            i <= paths@.len(),
            forall|j: int|
                0 <= j < out@.len() ==> crate::config::opt_view((#[trigger] out@[j]).0)
                    == path_file_name(out@[j].1@),
            forall|a: int, b: int|
                0 <= a < b < out@.len() ==> !name_lt(
                    path_file_name(out@[b].1@),
                    path_file_name(out@[a].1@),
                ),
            keyed_paths(out@).to_multiset() == paths@.subrange(0, i as int).to_multiset(),
            forall|n: Option<Seq<char>>|
                #[trigger] named(keyed_paths(out@), n) == named(paths@.subrange(0, i as int), n),
            out@.len() == i,
        decreases paths@.len() - i,
    {
        let p = paths[i].clone();
        let k = file_name(p.as_str());
        let ghost kp = path_file_name(p@);
        assert(crate::config::opt_view(k) == kp);
        let mut q: usize = 0;
        while q < out.len() && !name_lt_exec(&k, &out[q].0)
            invariant
                q <= out@.len(),
                crate::config::opt_view(k) == kp,
                forall|j: int|
                    0 <= j < out@.len() ==> crate::config::opt_view((#[trigger] out@[j]).0)
                        == path_file_name(out@[j].1@),
                forall|j: int| 0 <= j < q ==> !name_lt(kp, path_file_name((#[trigger] out@[j]).1@)),
            decreases out@.len() - q,
        {
            q = q + 1;
        }
        let ghost before = out@;
        out.insert(q, (k, p));
        proof {
            let t = out@;
            assert forall|j: int| 0 <= j < q implies t[j] == before[j] by {}
            assert forall|j: int| q < j < t.len() implies t[j] == before[j - 1] by {}
            assert forall|a: int, b: int| 0 <= a < b < t.len() implies !name_lt(
                path_file_name(t[b].1@),
                path_file_name(t[a].1@),
            ) by {
                if a == q {
                    assert(name_lt(kp, path_file_name(before[q as int].1@)));
                    if b - 1 > q {
                        if name_lt(path_file_name(t[b].1@), kp) {
                            lemma_name_lt_transitive(
                                path_file_name(t[b].1@),
                                kp,
                                path_file_name(before[q as int].1@),
                            );
                        }
                    } else {
                        if name_lt(path_file_name(t[b].1@), kp) {
                            let x = path_file_name(t[b].1@);
                            if x is Some && kp is Some {
                                lemma_lex_asymmetric(x->0, kp->0);
                            }
                        }
                    }
                } else if b == q {
                } else if a > q {
                    assert(t[a] == before[a - 1] && t[b] == before[b - 1]);
                } else if b > q {
                    assert(t[a] == before[a] && t[b] == before[b - 1]);
                } else {
                    assert(t[a] == before[a] && t[b] == before[b]);
                }
            }
            assert(keyed_paths(t) =~= keyed_paths(before).insert(q as int, p));
            vstd::seq_lib::to_multiset_insert(keyed_paths(before), q as int, p);
            assert(paths@.subrange(0, i + 1) =~= paths@.subrange(0, i as int).push(p));
            vstd::seq_lib::to_multiset_build(paths@.subrange(0, i as int), p);
            let kb = keyed_paths(before);
            assert forall|j: int| q <= j < kb.len() implies name_lt(
                path_file_name(p@),
                path_file_name(#[trigger] kb[j]@),
            ) by {
                let nq = path_file_name(before[q as int].1@);
                let nj = path_file_name(before[j].1@);
                if j > q {
                    lemma_name_lt_total(nq, nj);
                    if name_lt(nq, nj) {
                        lemma_name_lt_transitive(kp, nq, nj);
                    }
                }
            }
            assert forall|n: Option<Seq<char>>|
                #[trigger] named(keyed_paths(t), n) == named(paths@.subrange(0, i + 1), n) by {
                lemma_insert_named(kb, q as int, p, n);
                paths@.subrange(0, i as int).lemma_filter_push(p, |x: String| path_file_name(x@) == n);
            }
        }
        i = i + 1;
    }
    assert(paths@.subrange(0, i as int) =~= paths@);
    let mut r: Vec<String> = Vec::new();
    let mut j: usize = 0;
    while j < out.len()
        invariant
            j <= out@.len(),
            r@.len() == j,
            forall|t: int| 0 <= t < j ==> #[trigger] r@[t] == out@[t].1,
        decreases out@.len() - j,
    {
        r.push(out[j].1.clone());
        j = j + 1;
    }
    assert(r@ =~= keyed_paths(out@));
    assert forall|n: Option<Seq<char>>| #[trigger] named(r@, n) == named(paths@, n) by {
        assert(named(r@, n) == named(keyed_paths(out@), n));
    }
    r
}

/// The label a project is listed under: its folder name, or `?`.
pub fn project_label(path: &str) -> (r: String)
    ensures
        r@ == match path_file_name(path@) {
            Some(n) => n,
            None => "?"@,
        },
{
    match file_name(path) {
        Some(n) => n,
        None => "?".to_owned(),
    }
}

/// The workspace roots: those the roots setting names when it is set
/// (`setting`), else the default ones; `None` when it is unset and the home
/// directory is unknown.
pub fn roots(setting: Option<&str>) -> (r: Option<Vec<String>>)
    ensures
        match setting {
            Some(v) => r matches Some(rs) && rs@.len() == root_entries(v@).len() && forall|i: int|
                0 <= i < rs@.len() ==> expands_to(root_entries(v@)[i], (#[trigger] rs@[i])@),
            None => exists|h: Option<Seq<char>>|
                #[trigger] default_roots(h) == match r {
                    Some(v) => Some(strings_view(v@)),
                    None => None,
                },
        },
{
    match setting {
        Some(v) => Some(parse_roots(v)),
        None => default_workspace_roots(),
    }
}

/// The entries of the project picker: each project's path with its label,
/// in order; refused when there is no project at all.
pub fn project_choices(projects: &Vec<String>) -> (r: Result<Vec<(String, String)>, String>)
    ensures
        match r {
            Ok(items) => projects@.len() > 0 && items@.len() == projects@.len() && forall|i: int|
                0 <= i < items@.len() ==> (#[trigger] items@[i]).0@ == projects@[i]@ && items@[i].1@
                    == match path_file_name(projects@[i]@) {
                    Some(n) => n,
                    None => "?"@,
                },
            Err(m) => projects@.len() == 0 && m@ == "no projects found in workspace roots"@,
        },
{
    if projects.len() == 0 {
        return Err("no projects found in workspace roots".to_owned());
    }
    let mut items: Vec<(String, String)> = Vec::new();
    let mut i: usize = 0;
    while i < projects.len()
        invariant
            i <= projects@.len(),
            items@.len() == i,
            forall|k: int|
                0 <= k < i ==> (#[trigger] items@[k]).0@ == projects@[k]@ && items@[k].1@ == match path_file_name(
                    projects@[k]@,
                ) {
                    Some(n) => n,
                    None => "?"@,
                },
        decreases projects@.len() - i,
    {
        let label = project_label(projects[i].as_str());
        items.push((projects[i].clone(), label));
        i = i + 1;
    }
    Ok(items)
}

} // verus!
