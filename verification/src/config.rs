//! The configuration model: named groups, each with an optional worktree
//! default, setup commands and a window layout.

use vstd::prelude::*;
use crate::text::{lex_lt, lemma_lex_irreflexive, lemma_lex_transitive, lemma_lex_total, lemma_lex_asymmetric, str_lt, str_eq, concat};
use crate::json::{Json, JsonV, views};
use crate::files::{document_v, parse_document};
use crate::decode::{loaded_v, load_config, invalid_config};

verus! {

/// How the panes of a window are arranged.
#[derive(Debug, Clone, Copy, PartialEq, Eq, Structural)]
pub enum Split {
    /// Side by side (the default).
    Cols,
    /// Stacked.
    Rows,
}

/// One pane: an optional title and the command it runs (empty: a shell).
#[derive(Debug, Clone, PartialEq)]
pub struct Pane {
    pub name: Option<String>,
    pub command: String,
}

/// A child of a window. Today this is always a pane.
#[derive(Debug, Clone, PartialEq)]
pub enum Element {
    Pane(Pane),
}

/// A tmux window: an optional name, how its panes split, and its panes.
#[derive(Debug, Clone, PartialEq)]
pub struct Window {
    pub name: Option<String>,
    pub split: Split,
    pub content: Vec<Element>,
}

/// A named config group.
#[derive(Debug, Clone, PartialEq)]
pub struct Group {
    pub worktree: Option<bool>,
    pub setup: Option<Vec<String>>,
    pub layout: Option<Vec<Window>>,
}

pub struct PaneV {
    pub name: Option<Seq<char>>,
    pub command: Seq<char>,
}

pub struct WindowV {
    pub name: Option<Seq<char>>,
    pub split: Split,
    pub content: Seq<PaneV>,
}

pub struct GroupV {
    pub worktree: Option<bool>,
    pub setup: Option<Seq<Seq<char>>>,
    pub layout: Option<Seq<WindowV>>,
}

pub open spec fn opt_view(o: Option<String>) -> Option<Seq<char>> {
    match o {
        Some(s) => Some(s@),
        None => None,
    }
}

impl View for Pane {
    type V = PaneV;

    open spec fn view(&self) -> PaneV {
        PaneV { name: opt_view(self.name), command: self.command@ }
    }
}

impl View for Element {
    type V = PaneV;

    open spec fn view(&self) -> PaneV {
        match self {
            Element::Pane(p) => p@,
        }
    }
}

pub open spec fn panes_view(s: Seq<Element>) -> Seq<PaneV> {
    s.map_values(|e: Element| e@)
}

impl View for Window {
    type V = WindowV;

    open spec fn view(&self) -> WindowV {
        WindowV { name: opt_view(self.name), split: self.split, content: panes_view(self.content@) }
    }
}

/// The view of a layout: its windows in order.
pub open spec fn layout_view(s: Seq<Window>) -> Seq<WindowV> {
    s.map_values(|w: Window| w@)
}

pub open spec fn strings_view(s: Seq<String>) -> Seq<Seq<char>> {
    s.map_values(|x: String| x@)
}

impl View for Group {
    type V = GroupV;

    open spec fn view(&self) -> GroupV {
        GroupV {
            worktree: self.worktree,
            setup: match self.setup {
                Some(v) => Some(strings_view(v@)),
                None => None,
            },
            layout: match self.layout {
                Some(l) => Some(layout_view(l@)),
                None => None,
            },
        }
    }
}

fn copy_opt_string(o: &Option<String>) -> (r: Option<String>)
    ensures
        opt_view(r) == opt_view(*o),
{
    match o {
        Some(s) => Some(s.clone()),
        None => None,
    }
}

impl Pane {
    /// A copy of the pane.
    pub fn copy(&self) -> (r: Pane)
        ensures
            r@ == self@,
    {
        Pane { name: copy_opt_string(&self.name), command: self.command.clone() }
    }
}

impl Window {
    /// A copy of the window.
    pub fn copy(&self) -> (r: Window)
        ensures
            r@ == self@,
    {
        let mut content: Vec<Element> = Vec::new();
        let mut i: usize = 0;
        while i < self.content.len()
            invariant
                i <= self.content@.len(),
                content@.len() == i,
                forall|j: int| 0 <= j < i ==> (#[trigger] content@[j])@ == self.content@[j]@,
            decreases self.content@.len() - i,
        {
            let Element::Pane(p) = &self.content[i];
            content.push(Element::Pane(p.copy()));
            i = i + 1;
        }
        assert(panes_view(content@) =~= panes_view(self.content@));
        Window { name: copy_opt_string(&self.name), split: self.split, content }
    }
}

/// A copy of a layout.
pub fn copy_layout(layout: &Vec<Window>) -> (r: Vec<Window>)
    ensures
        layout_view(r@) == layout_view(layout@),
{
    let mut out: Vec<Window> = Vec::new();
    let mut i: usize = 0;
    while i < layout.len()
        invariant
            i <= layout@.len(),
            out@.len() == i,
            forall|j: int| 0 <= j < i ==> (#[trigger] out@[j])@ == layout@[j]@,
        decreases layout@.len() - i,
    {
        out.push(layout[i].copy());
        i = i + 1;
    }
    assert(layout_view(out@) =~= layout_view(layout@));
    out
}

/// The layout used when the active group has none: one window named
/// `main` with no panes configured.
pub open spec fn fallback_layout_view() -> Seq<WindowV> {
    seq![WindowV { name: Some("main"@), split: Split::Cols, content: Seq::empty() }]
}

pub fn fallback_layout() -> (r: Vec<Window>)
    ensures
        layout_view(r@) == fallback_layout_view(),
{
    let w = Window { name: Some("main".to_owned()), split: Split::Cols, content: Vec::new() };
    assert(panes_view(w.content@) =~= Seq::<PaneV>::empty());
    let mut r: Vec<Window> = Vec::new();
    r.push(w);
    assert(r@[0]@ == fallback_layout_view()[0]);
    assert(layout_view(r@) =~= fallback_layout_view());
    r
}


/// Config groups by name, kept in name order (the order the picker lists
/// them in).
pub struct Config {
    entries: Vec<(String, Group)>,
}

/// Names strictly increasing, hence each at most once.
pub open spec fn sorted_names(s: Seq<Seq<char>>) -> bool {
    forall|i: int, j: int| 0 <= i < j < s.len() ==> lex_lt(s[i], s[j])
}

pub closed spec fn entry_names(s: Seq<(String, Group)>) -> Seq<Seq<char>> {
    s.map_values(|e: (String, Group)| e.0@)
}

pub closed spec fn config_map(s: Seq<(String, Group)>) -> Map<Seq<char>, GroupV> {
    Map::new(
        |k: Seq<char>| exists|i: int| 0 <= i < s.len() && (#[trigger] s[i]).0@ == k,
        |k: Seq<char>| s[choose|i: int| 0 <= i < s.len() && (#[trigger] s[i]).0@ == k].1@,
    )
}

impl Config {
    #[verifier::type_invariant]
    closed spec fn names_sorted(self) -> bool {
        sorted_names(entry_names(self.entries@))
    }
}

impl View for Config {
    type V = Map<Seq<char>, GroupV>;

    closed spec fn view(&self) -> Map<Seq<char>, GroupV> {
        config_map(self.entries@)
    }
}

proof fn lemma_names_distinct(s: Seq<(String, Group)>, i: int, j: int)
    requires
        sorted_names(entry_names(s)),
        0 <= i < s.len(),
        0 <= j < s.len(),
        s[i].0@ == s[j].0@,
    ensures
        i == j,
{
    if i < j {
        assert(entry_names(s)[i] == s[i].0@ && entry_names(s)[j] == s[j].0@);
        lemma_lex_irreflexive(s[i].0@);
    } else if j < i {
        assert(entry_names(s)[i] == s[i].0@ && entry_names(s)[j] == s[j].0@);
        lemma_lex_irreflexive(s[i].0@);
    }
}

proof fn lemma_config_at(s: Seq<(String, Group)>, i: int)
    requires
        sorted_names(entry_names(s)),
        0 <= i < s.len(),
    ensures
        config_map(s).dom().contains(s[i].0@),
        config_map(s)[s[i].0@] == s[i].1@,
{
    assert(config_map(s).dom().contains(s[i].0@));
    let j: int = choose|j: int| 0 <= j < s.len() && (#[trigger] s[j]).0@ == s[i].0@;
    lemma_names_distinct(s, i, j);
}

impl Config {
    /// An empty configuration (no config file anywhere).
    pub fn new() -> (c: Config)
        ensures
            c@ == Map::<Seq<char>, GroupV>::empty(),
    {
        let c = Config { entries: Vec::new() };
        assert(c@ =~= Map::<Seq<char>, GroupV>::empty());
        c
    }

    /// The number of groups.
    pub fn len(&self) -> (n: usize)
        ensures
            n == self@.dom().len(),
    {
        proof {
            use_type_invariant(self);
            let s = self.entries@;
            let names = entry_names(s);
            assert forall|i: int, j: int| 0 <= i < names.len() && 0 <= j < names.len() && i != j
                implies names[i] != names[j] by {
                if names[i] == names[j] {
                    lemma_names_distinct(s, i, j);
                }
            }
            names.unique_seq_to_set();
            assert(names.to_set() =~= self@.dom()) by {
                assert forall|k: Seq<char>| names.to_set().contains(k) implies self@.dom().contains(k) by {
                    let i: int = choose|i: int| 0 <= i < names.len() && names[i] == k;
                    assert(s[i].0@ == k);
                }
                assert forall|k: Seq<char>| self@.dom().contains(k) implies names.to_set().contains(k) by {
                    let i: int = choose|i: int| 0 <= i < s.len() && (#[trigger] s[i]).0@ == k;
                    assert(names[i] == k);
                }
            }
        }
        self.entries.len()
    }

    /// Whether there are no groups.
    pub fn is_empty(&self) -> (b: bool)
        ensures
            b == (self@.dom().len() == 0),
    {
        self.len() == 0
    }

    /// The group named `id`, if there is one.
    pub fn get(&self, id: &str) -> (r: Option<&Group>)
        ensures
            r matches Some(g) ==> self@.dom().contains(id@) && g@ == self@[id@],
            r is None ==> !self@.dom().contains(id@),
    {
        proof {
            use_type_invariant(self);
        }
        let mut i: usize = 0;
        while i < self.entries.len()
            invariant
                i <= self.entries@.len(),
                sorted_names(entry_names(self.entries@)),
                forall|t: int| 0 <= t < i ==> (#[trigger] self.entries@[t]).0@ != id@,
            decreases self.entries@.len() - i,
        {
            if str_eq(self.entries[i].0.as_str(), id) {
                proof {
                    lemma_config_at(self.entries@, i as int);
                }
                return Some(&self.entries[i].1);
            }
            i = i + 1;
        }
        None
    }

    /// Sets the group named `name`, replacing a group of that name.
    pub fn insert(&mut self, name: String, group: Group)
        ensures
            final(self)@ == old(self)@.insert(name@, group@),
    {
        proof {
            use_type_invariant(&*self);
        }
        let mut entries: Vec<(String, Group)> = Vec::new();
        std::mem::swap(&mut entries, &mut self.entries);
        let ghost s = entries@;
        let mut p: usize = 0;
        while p < entries.len() && str_lt(entries[p].0.as_str(), name.as_str())
            invariant
                p <= entries@.len(),
                entries@ == s,
                sorted_names(entry_names(s)),
                forall|t: int| 0 <= t < p ==> lex_lt((#[trigger] s[t]).0@, name@),
            decreases entries@.len() - p,
        {
            p = p + 1;
        }
        let ghost k = name@;
        let ghost g = group@;
        if p < entries.len() && str_eq(entries[p].0.as_str(), name.as_str()) {
            entries.set(p, (name, group));
            proof {
                let t = entries@;
                assert(entry_names(t) =~= entry_names(s));
                assert forall|i: int| 0 <= i < t.len() && i != p implies t[i] == s[i] by {}
                assert(config_map(t) =~= config_map(s).insert(k, g)) by {
                    assert forall|q: Seq<char>| #[trigger] config_map(t).dom().contains(q)
                        <==> config_map(s).insert(k, g).dom().contains(q) by {
                        if config_map(s).dom().contains(q) {
                            let i: int = choose|i: int| 0 <= i < s.len() && (#[trigger] s[i]).0@ == q;
                            assert(t[i].0@ == q);
                        }
                        if config_map(t).dom().contains(q) {
                            let i: int = choose|i: int| 0 <= i < t.len() && (#[trigger] t[i]).0@ == q;
                            assert(s[i].0@ == q);
                        }
                    }
                    assert forall|q: Seq<char>| #[trigger] config_map(t).dom().contains(q) implies
                        config_map(t)[q] == config_map(s).insert(k, g)[q] by {
                        let i: int = choose|i: int| 0 <= i < t.len() && (#[trigger] t[i]).0@ == q;
                        lemma_config_at(t, i);
                        assert(t[p as int].0@ == k);
                        if q != k {
                            assert(i != p);
                            assert(t[i] == s[i]);
                            lemma_config_at(s, i);
                        } else {
                            lemma_names_distinct(t, i, p as int);
                            assert(t[p as int].1@ == g);
                        }
                    }
                }
            }
        } else {
            proof {
                if p < entries.len() {
                    lemma_lex_total(s[p as int].0@, k);
                }
            }
            entries.insert(p, (name, group));
            proof {
                let t = entries@;
                assert forall|i: int| 0 <= i < p implies t[i] == s[i] by {}
                assert forall|i: int| p < i < t.len() implies t[i] == s[i - 1] by {}
                assert(sorted_names(entry_names(t))) by {
                    assert forall|i: int, j: int| 0 <= i < j < t.len() implies lex_lt(
                        entry_names(t)[i],
                        entry_names(t)[j],
                    ) by {
                        if j < p {
                            assert(entry_names(s)[i] == s[i].0@);
                            assert(entry_names(s)[j] == s[j].0@);
                        } else if j == p {
                        } else if i < p {
                            assert(entry_names(s)[j - 1] == s[j - 1].0@);
                            if j - 1 > p {
                                assert(entry_names(s)[p as int] == s[p as int].0@);
                                lemma_lex_transitive(k, s[p as int].0@, s[j - 1].0@);
                            }
                            lemma_lex_transitive(s[i].0@, k, s[j - 1].0@);
                        } else if i == p {
                            assert(entry_names(s)[j - 1] == s[j - 1].0@);
                            if j - 1 > p {
                                assert(entry_names(s)[p as int] == s[p as int].0@);
                                lemma_lex_transitive(k, s[p as int].0@, s[j - 1].0@);
                            }
                        } else {
                            assert(entry_names(s)[i - 1] == s[i - 1].0@);
                            assert(entry_names(s)[j - 1] == s[j - 1].0@);
                        }
                    }
                }
                assert(!config_map(s).dom().contains(k)) by {
                    if config_map(s).dom().contains(k) {
                        let i: int = choose|i: int| 0 <= i < s.len() && (#[trigger] s[i]).0@ == k;
                        if i < p {
                            lemma_lex_irreflexive(k);
                        } else {
                            if i > p {
                                assert(entry_names(s)[p as int] == s[p as int].0@);
                                assert(entry_names(s)[i] == s[i].0@);
                                lemma_lex_asymmetric(s[p as int].0@, k);
                            }
                        }
                    }
                }
                assert(config_map(t) =~= config_map(s).insert(k, g)) by {
                    assert forall|q: Seq<char>| #[trigger] config_map(t).dom().contains(q)
                        <==> config_map(s).insert(k, g).dom().contains(q) by {
                        if config_map(s).dom().contains(q) {
                            let i: int = choose|i: int| 0 <= i < s.len() && (#[trigger] s[i]).0@ == q;
                            if i < p {
                                assert(t[i].0@ == q);
                            } else {
                                assert(t[i + 1].0@ == q);
                            }
                        }
                        if q == k {
                            assert(t[p as int].0@ == q);
                        }
                        if config_map(t).dom().contains(q) {
                            let i: int = choose|i: int| 0 <= i < t.len() && (#[trigger] t[i]).0@ == q;
                            if i < p {
                                assert(s[i].0@ == q);
                            } else if i > p {
                                assert(s[i - 1].0@ == q);
                            }
                        }
                    }
                    assert forall|q: Seq<char>| #[trigger] config_map(t).dom().contains(q) implies
                        config_map(t)[q] == config_map(s).insert(k, g)[q] by {
                        let i: int = choose|i: int| 0 <= i < t.len() && (#[trigger] t[i]).0@ == q;
                        lemma_config_at(t, i);
                        assert(0 <= i < t.len());
                        assert(config_map(t)[q] == t[i].1@);
                        lemma_lex_irreflexive(k);
                        if i < p {
                            assert(t[i] == s[i]);
                            assert(lex_lt(s[i].0@, k));
                            lemma_config_at(s, i);
                            assert(q != k);
                            assert(config_map(t)[q] == config_map(s).insert(k, g)[q]);
                        } else if i > p {
                            assert(t[i] == s[i - 1]);
                            lemma_config_at(s, i - 1);
                            assert(entry_names(t)[p as int] == k);
                            assert(entry_names(t)[i] == q);
                            assert(lex_lt(k, q));
                            assert(q != k);
                            assert(config_map(t)[q] == config_map(s).insert(k, g)[q]);
                        } else {
                            assert(q == k);
                            assert(t[i].1@ == g);
                            assert(config_map(t)[q] == config_map(s).insert(k, g)[q]);
                        }
                    }
                }
            }
        }
        self.entries = entries;
    }

    /// The group names, in order.
    pub fn keys(&self) -> (r: Vec<String>)
        ensures
            sorted_names(strings_view(r@)),
            forall|k: Seq<char>| self@.dom().contains(k) <==> strings_view(r@).contains(k),
            strings_view(r@) == group_names(self@),
    {
        proof {
            use_type_invariant(self);
        }
        let mut out: Vec<String> = Vec::new();
        let mut i: usize = 0;
        while i < self.entries.len()
            invariant
                i <= self.entries@.len(),
                out@.len() == i,
                forall|j: int| 0 <= j < i ==> (#[trigger] out@[j])@ == self.entries@[j].0@,
            decreases self.entries@.len() - i,
        {
            out.push(self.entries[i].0.clone());
            i = i + 1;
        }
        proof {
            let s = self.entries@;
            assert(strings_view(out@) =~= entry_names(s));
            assert forall|k: Seq<char>| self@.dom().contains(k) <==> strings_view(out@).contains(k) by {
                if self@.dom().contains(k) {
                    let j: int = choose|j: int| 0 <= j < s.len() && (#[trigger] s[j]).0@ == k;
                    assert(strings_view(out@)[j] == k);
                }
                if strings_view(out@).contains(k) {
                    let j: int = choose|j: int| 0 <= j < out@.len() && strings_view(out@)[j] == k;
                    assert(s[j].0@ == k);
                }
            }
            let g = group_names(self@);
            assert(exists|x: Seq<Seq<char>>|
                sorted_names(x) && forall|k: Seq<char>| #[trigger] self@.dom().contains(k) <==> x.contains(k)) by {
                assert(sorted_names(strings_view(out@)));
            }
            lemma_sorted_names_unique(strings_view(out@), g);
        }
        out
    }
}

/// The names of a configuration's groups, in order.
pub open spec fn group_names(cfg: Map<Seq<char>, GroupV>) -> Seq<Seq<char>> {
    choose|s: Seq<Seq<char>>|
        sorted_names(s) && forall|k: Seq<char>| #[trigger] cfg.dom().contains(k) <==> s.contains(k)
}

/// Two increasing sequences of names with the same names are the same.
pub proof fn lemma_sorted_names_unique(a: Seq<Seq<char>>, b: Seq<Seq<char>>)
    requires
        sorted_names(a),
        sorted_names(b),
        forall|k: Seq<char>| a.contains(k) <==> b.contains(k),
    ensures
        a == b,
    decreases a.len(),
{
    if a.len() == 0 {
        if b.len() > 0 {
            assert(b.contains(b[0]));
        }
        assert(a =~= b);
    } else {
        assert(a.contains(a[0]));
        assert(b.len() > 0);
        assert(b.contains(b[0]));
        let i: int = choose|i: int| 0 <= i < b.len() && b[i] == a[0];
        let j: int = choose|j: int| 0 <= j < a.len() && a[j] == b[0];
        if i > 0 {
            assert(lex_lt(b[0], b[i]));
            if j > 0 {
                assert(lex_lt(a[0], a[j]));
                lemma_lex_asymmetric(a[0], b[0]);
            } else {
                lemma_lex_irreflexive(a[0]);
            }
        }
        assert(a[0] == b[0]);
        let a1 = a.drop_first();
        let b1 = b.drop_first();
        assert forall|k: Seq<char>| a1.contains(k) <==> b1.contains(k) by {
            if a1.contains(k) {
                let t: int = choose|t: int| 0 <= t < a1.len() && a1[t] == k;
                assert(a[t + 1] == k);
                assert(lex_lt(a[0], k));
                assert(b.contains(k));
                let u: int = choose|u: int| 0 <= u < b.len() && b[u] == k;
                if u == 0 {
                    lemma_lex_irreflexive(k);
                }
                assert(b1[u - 1] == k);
            }
            if b1.contains(k) {
                let t: int = choose|t: int| 0 <= t < b1.len() && b1[t] == k;
                assert(b[t + 1] == k);
                assert(lex_lt(b[0], k));
                assert(a.contains(k));
                let u: int = choose|u: int| 0 <= u < a.len() && a[u] == k;
                if u == 0 {
                    lemma_lex_irreflexive(k);
                }
                assert(a1[u - 1] == k);
            }
        }
        lemma_sorted_names_unique(a1, b1);
        assert(a =~= seq![a[0]] + a1);
        assert(b =~= seq![b[0]] + b1);
    }
}

/// What the active group's layout resolves to: the group's own layout, or
/// the fallback when the group is missing or sets none.
pub open spec fn resolved_layout(cfg: Map<Seq<char>, GroupV>, id: Seq<char>) -> Seq<WindowV> {
    if cfg.dom().contains(id) && cfg[id].layout is Some {
        cfg[id].layout->0
    } else {
        fallback_layout_view()
    }
}

/// The layout of group `id`, falling back to a single `main` window.
pub fn resolve_layout(cfg: &Config, id: &str) -> (r: Vec<Window>)
    ensures
        layout_view(r@) == resolved_layout(cfg@, id@),
{
    match cfg.get(id) {
        Some(g) => match &g.layout {
            Some(l) => copy_layout(l),
            None => fallback_layout(),
        },
        None => fallback_layout(),
    }
}

/// Whether group `id` asks for a worktree by default, if it says.
pub fn group_worktree(cfg: &Config, id: &str) -> (r: Option<bool>)
    ensures
        r == (if cfg@.dom().contains(id@) {
            cfg@[id@].worktree
        } else {
            None
        }),
{
    match cfg.get(id) {
        Some(g) => g.worktree,
        None => None,
    }
}

/// The setup commands of group `id`, if it has any.
pub fn group_setup<'a>(cfg: &'a Config, id: &str) -> (r: Option<&'a [String]>)
    ensures
        (match r {
            Some(v) => cfg@.dom().contains(id@) && cfg@[id@].setup == Some(strings_view(v@)),
            None => !cfg@.dom().contains(id@) || cfg@[id@].setup is None,
        }),
{
    match cfg.get(id) {
        Some(g) => match &g.setup {
            Some(v) => Some(v.as_slice()),
            None => None,
        },
        None => None,
    }
}

/// The message for a config file that could not be read or parsed.
pub open spec fn read_failure(path: Seq<char>, cause: Seq<char>) -> Seq<char> {
    "failed to read config "@ + path + ": "@ + cause
}

/// A found config file: its path, and its text or why it could not be read.
pub open spec fn found_view(f: (String, Result<String, String>)) -> (Seq<char>, Result<Seq<char>, Seq<char>>) {
    (
        f.0@,
        match f.1 {
            Ok(t) => Ok(t@),
            Err(e) => Err(e@),
        },
    )
}

pub open spec fn founds_view(s: Seq<(String, Result<String, String>)>) -> Seq<(Seq<char>, Result<Seq<char>, Seq<char>>)> {
    s.map_values(|f: (String, Result<String, String>)| found_view(f))
}

/// The documents of the found files (closest first), read from the
/// furthest file down, as the files above are read first; the first file
/// that fails stops the reading.
pub open spec fn documents_v(files: Seq<(Seq<char>, Result<Seq<char>, Seq<char>>)>) -> Result<Seq<JsonV>, Seq<char>>
    decreases files.len(),
{
    if files.len() == 0 {
        Ok(Seq::empty())
    } else {
        let path = files.last().0;
        let doc = match files.last().1 {
            Err(e) => Err(e),
            Ok(raw) => document_v(path, raw),
        };
        match doc {
            Err(e) => Err(read_failure(path, e)),
            Ok(d) => match documents_v(files.drop_last()) {
                Ok(ds) => Ok(ds.push(d)),
                Err(e) => Err(e),
            },
        }
    }
}

/// The configuration from the found files: their documents merged and read
/// as config groups.
pub open spec fn load_for_v(files: Seq<(Seq<char>, Result<Seq<char>, Seq<char>>)>) -> Result<Map<Seq<char>, GroupV>, Seq<char>> {
    match documents_v(files) {
        Err(e) => Err(e),
        Ok(ds) => match loaded_v(ds) {
            Ok(c) => Ok(c),
            Err(e) => Err(invalid_config(e)),
        },
    }
}

/// The configuration seen from a project, given the config files found
/// walking up from it (closest first), each with its text or the reason it
/// could not be read.
pub fn load_for(files: Vec<(String, Result<String, String>)>) -> (r: Result<Config, String>)
    ensures
        match r {
            Ok(c) => load_for_v(founds_view(files@)) == Ok::<Map<Seq<char>, GroupV>, Seq<char>>(c@),
            Err(m) => load_for_v(founds_view(files@)) == Err::<Map<Seq<char>, GroupV>, Seq<char>>(m@),
        },
{
    let ghost fv = founds_view(files@);
    let mut docs: Vec<Json> = Vec::new();
    let mut j: usize = files.len();
    assert(fv.subrange(0, j as int) =~= fv);
    assert(views(docs@) =~= Seq::<JsonV>::empty());
    while j > 0
        invariant
            j <= files@.len(),
            fv == founds_view(files@),
            documents_v(fv) == match documents_v(fv.subrange(0, j as int)) {
                Ok(ds) => Ok(ds + views(docs@)),
                Err(e) => Err::<Seq<JsonV>, Seq<char>>(e),
            },
        decreases j,
    {
        let ghost pre = fv.subrange(0, j as int);
        assert(pre.last() == found_view(files@[j - 1]));
        assert(pre.drop_last() =~= fv.subrange(0, j - 1));
        let path = files[j - 1].0.as_str();
        let parsed = match &files[j - 1].1 {
            Err(e) => Err(e.clone()),
            Ok(raw) => parse_document(path, raw.as_str()),
        };
        match parsed {
            Err(e) => {
                let mut msg = concat("failed to read config ", path);
                msg.append(": ");
                msg.append(e.as_str());
                return Err(msg);
            },
            Ok(d) => {
                let ghost before = docs@;
                docs.insert(0, d);
                assert(views(docs@) =~= seq![views(docs@)[0]] + views(before));
                proof {
                    match documents_v(fv.subrange(0, j - 1)) {
                        Ok(ds) => {
                            assert(ds.push(views(docs@)[0]) + views(before) =~= ds + views(docs@));
                        },
                        Err(e) => {},
                    }
                }
            },
        }
        j = j - 1;
    }
    assert(fv.subrange(0, 0) =~= Seq::<(Seq<char>, Result<Seq<char>, Seq<char>>)>::empty());
    assert(Seq::<JsonV>::empty() + views(docs@) =~= views(docs@));
    load_config(docs)
}

} // verus!
