//! The tmux command lines that lay out a session, and the small decisions
//! around running them.

use vstd::prelude::*;
use crate::config::{Window, WindowV, PaneV, Split, Element, layout_view, strings_view};
use crate::text::{decimal, decimal_string, concat};

verus! {

/// The `(key, value)` pairs of an environment, as character sequences.
pub open spec fn env_view(env: Seq<(&str, &str)>) -> Seq<(Seq<char>, Seq<char>)> {
    env.map_values(|p: (&str, &str)| (p.0@, p.1@))
}

/// One `-e KEY=VALUE` pair per variable, in order.
pub open spec fn env_args(env: Seq<(Seq<char>, Seq<char>)>) -> Seq<Seq<char>>
    decreases env.len(),
{
    if env.len() == 0 {
        Seq::empty()
    } else {
        env_args(env.drop_last()) + seq!["-e"@, env.last().0 + "="@ + env.last().1]
    }
}

/// The tmux flag that splits a window's panes the configured way.
pub open spec fn split_flag_v(split: Split) -> Seq<char> {
    match split {
        Split::Cols => "-h"@,
        Split::Rows => "-v"@,
    }
}

/// The name a window gets: its own, or `win<N>` with `N` its 1-based position.
pub open spec fn window_name(w: WindowV, i: int) -> Seq<char> {
    match w.name {
        Some(n) => n,
        None => "win"@ + decimal((i + 1) as nat),
    }
}

/// The layout with every window named.
pub open spec fn named(layout: Seq<WindowV>) -> Seq<WindowV> {
    Seq::new(
        layout.len(),
        |i: int|
            WindowV {
                name: Some(window_name(layout[i], i)),
                split: layout[i].split,
                content: layout[i].content,
            },
    )
}

/// A shell command as trailing argument: nothing when it is empty.
pub open spec fn opt_cmd(c: Seq<char>) -> Seq<Seq<char>> {
    if c.len() == 0 {
        Seq::empty()
    } else {
        seq![c]
    }
}

/// `session:name`, the tmux target of a window.
pub open spec fn target(session: Seq<char>, name: Seq<char>) -> Seq<char> {
    session + ":"@ + name
}

/// The command that titles the active pane, when the pane has a name.
pub open spec fn title_cmds(session: Seq<char>, name: Seq<char>, pane: PaneV) -> Seq<Seq<Seq<char>>> {
    match pane.name {
        Some(t) => seq![seq!["select-pane"@, "-t"@, target(session, name), "-T"@, t]],
        None => Seq::empty(),
    }
}

pub open spec fn first_pane(w: WindowV) -> Option<PaneV> {
    if w.content.len() > 0 {
        Some(w.content[0])
    } else {
        None
    }
}

pub open spec fn later_panes(w: WindowV) -> Seq<PaneV> {
    if w.content.len() > 0 {
        w.content.drop_first()
    } else {
        Seq::empty()
    }
}

/// The command that creates a window: the session itself for the first
/// window, a new window in it for the others; the first pane's command
/// (if not empty) trails after the environment.
pub open spec fn create_cmd(
    session: Seq<char>,
    cwd: Seq<char>,
    idx: int,
    name: Seq<char>,
    first: Option<PaneV>,
    env: Seq<(Seq<char>, Seq<char>)>,
) -> Seq<Seq<char>> {
    (if idx == 0 {
        seq!["new-session"@, "-d"@, "-s"@, session, "-n"@, name, "-c"@, cwd]
    } else {
        seq!["new-window"@, "-t"@, session + ":"@, "-n"@, name, "-c"@, cwd]
    }) + env_args(env) + match first {
        Some(p) => opt_cmd(p.command),
        None => Seq::empty(),
    }
}

/// The commands for a pane after the first: split the window, then title
/// the new pane if it is named.
pub open spec fn split_cmds(
    session: Seq<char>,
    cwd: Seq<char>,
    split: Split,
    name: Seq<char>,
    pane: PaneV,
    env: Seq<(Seq<char>, Seq<char>)>,
) -> Seq<Seq<Seq<char>>> {
    seq![
        seq!["split-window"@, split_flag_v(split), "-t"@, target(session, name), "-c"@, cwd]
            + env_args(env) + opt_cmd(pane.command),
    ] + title_cmds(session, name, pane)
}

pub open spec fn later_panes_cmds(
    session: Seq<char>,
    cwd: Seq<char>,
    split: Split,
    name: Seq<char>,
    panes: Seq<PaneV>,
    env: Seq<(Seq<char>, Seq<char>)>,
) -> Seq<Seq<Seq<char>>>
    decreases panes.len(),
{
    if panes.len() == 0 {
        Seq::empty()
    } else {
        later_panes_cmds(session, cwd, split, name, panes.drop_last(), env) + split_cmds(
            session,
            cwd,
            split,
            name,
            panes.last(),
            env,
        )
    }
}

/// The commands that build window `idx` (named `name`): create it, title
/// its first pane, split off the other panes, and select the top-left pane.
pub open spec fn window_cmds(
    session: Seq<char>,
    cwd: Seq<char>,
    w: WindowV,
    name: Seq<char>,
    idx: int,
    env: Seq<(Seq<char>, Seq<char>)>,
) -> Seq<Seq<Seq<char>>> {
    seq![create_cmd(session, cwd, idx, name, first_pane(w), env)] + match first_pane(w) {
        Some(p) => title_cmds(session, name, p),
        None => Seq::empty(),
    } + later_panes_cmds(session, cwd, w.split, name, later_panes(w), env) + seq![
        seq!["select-pane"@, "-t"@, target(session, name) + ".{top-left}"@],
    ]
}

pub open spec fn windows_cmds(
    session: Seq<char>,
    cwd: Seq<char>,
    layout: Seq<WindowV>,
    env: Seq<(Seq<char>, Seq<char>)>,
) -> Seq<Seq<Seq<char>>>
    decreases layout.len(),
{
    if layout.len() == 0 {
        Seq::empty()
    } else {
        let i: int = layout.len() - 1;
        windows_cmds(session, cwd, layout.drop_last(), env) + window_cmds(
            session,
            cwd,
            layout[i],
            window_name(layout[i], i),
            i,
            env,
        )
    }
}

/// Every tmux command that sets up a session for `layout`: each window's
/// commands in order, then selecting the first window.
pub open spec fn session_cmds(
    session: Seq<char>,
    cwd: Seq<char>,
    layout: Seq<WindowV>,
    env: Seq<(Seq<char>, Seq<char>)>,
) -> Seq<Seq<Seq<char>>> {
    windows_cmds(session, cwd, layout, env) + if layout.len() > 0 {
        seq![seq!["select-window"@, "-t"@, target(session, window_name(layout[0], 0))]]
    } else {
        Seq::empty()
    }
}

/// The view of a list of command lines.
pub open spec fn commands_view(c: Seq<Vec<String>>) -> Seq<Seq<Seq<char>>> {
    c.map_values(|v: Vec<String>| strings_view(v@))
}

fn split_flag(split: Split) -> (r: &'static str)
    ensures
        r@ == split_flag_v(split),
{
    match split {
        Split::Cols => "-h",
        Split::Rows => "-v",
    }
}

/// The layout with every unnamed window called `win<N>`.
pub fn ensure_named_windows(layout: &Vec<Window>) -> (r: Vec<Window>)
    ensures
        layout_view(r@) == named(layout_view(layout@)),
{
    let mut out: Vec<Window> = Vec::new();
    let mut i: usize = 0;
    while i < layout.len()
        invariant
            i <= layout@.len(),
            out@.len() == i,
            forall|j: int|
                0 <= j < i ==> (#[trigger] out@[j])@ == named(layout_view(layout@))[j],
        decreases layout@.len() - i,
    {
        let mut w = layout[i].copy();
        if w.name.is_none() {
            assert(i + 1 <= usize::MAX) by {
                assert(layout@.len() <= usize::MAX);
            }
            let n = decimal_string(i + 1);
            w.name = Some(concat("win", n.as_str()));
        }
        assert(w@ == named(layout_view(layout@))[i as int]);
        out.push(w);
        i = i + 1;
    }
    assert(layout_view(out@) =~= named(layout_view(layout@)));
    out
}

/// Appends `-e KEY=VALUE` for each variable of `env`.
pub fn push_env(args: &mut Vec<String>, env: &[(&str, &str)])
    ensures
        strings_view(final(args)@) == strings_view(old(args)@) + env_args(env_view(env@)),
{
    let ghost start = strings_view(args@);
    let ghost ev = env_view(env@);
    let mut i: usize = 0;
    assert(ev.subrange(0, 0) =~= Seq::<(Seq<char>, Seq<char>)>::empty());
    assert(start + Seq::<Seq<char>>::empty() =~= start);
    while i < env.len()
        invariant
            i <= env@.len(),
            ev == env_view(env@),
            strings_view(args@) == start + env_args(ev.subrange(0, i as int)),
        decreases env@.len() - i,
    {
        let (key, value) = env[i];
        args.push("-e".to_owned());
        let pair = concat(concat(key, "=").as_str(), value);
        args.push(pair);
        proof {
            let p = ev.subrange(0, i + 1);
            assert(p.drop_last() =~= ev.subrange(0, i as int));
            assert(p.last() == (key@, value@));
            assert(strings_view(args@) =~= start + env_args(ev.subrange(0, i as int)) + seq![
                "-e"@,
                key@ + "="@ + value@,
            ]);
        }
        i = i + 1;
    }
    assert(ev.subrange(0, i as int) =~= ev);
}


fn target_string(session: &str, name: &str) -> (r: String)
    ensures
        r@ == target(session@, name@),
{
    concat(concat(session, ":").as_str(), name)
}

fn title_command(session: &str, name: &str, title: &String) -> (r: Vec<String>)
    ensures
        strings_view(r@) == seq!["select-pane"@, "-t"@, target(session@, name@), "-T"@, title@],
{
    let mut c: Vec<String> = Vec::new();
    c.push("select-pane".to_owned());
    c.push("-t".to_owned());
    c.push(target_string(session, name));
    c.push("-T".to_owned());
    c.push(title.clone());
    assert(strings_view(c@) =~= seq!["select-pane"@, "-t"@, target(session@, name@), "-T"@, title@]);
    c
}

fn title_commands(session: &str, name: &str, pane: &crate::config::Pane) -> (r: Vec<Vec<String>>)
    ensures
        commands_view(r@) == title_cmds(session@, name@, pane@),
{
    let mut out: Vec<Vec<String>> = Vec::new();
    match &pane.name {
        Some(t) => {
            out.push(title_command(session, name, t));
            assert(commands_view(out@) =~= title_cmds(session@, name@, pane@));
        },
        None => {
            assert(commands_view(out@) =~= title_cmds(session@, name@, pane@));
        },
    }
    out
}

fn push_opt_cmd(args: &mut Vec<String>, command: &String)
    ensures
        strings_view(final(args)@) == strings_view(old(args)@) + opt_cmd(command@),
{
    if command.as_str().unicode_len() > 0 {
        args.push(command.clone());
        assert(strings_view(args@) =~= strings_view(old(args)@) + opt_cmd(command@));
    } else {
        assert(strings_view(args@) =~= strings_view(old(args)@) + opt_cmd(command@));
    }
}

fn create_command(
    session: &str,
    cwd: &str,
    idx: usize,
    name: &str,
    window: &Window,
    env: &[(&str, &str)],
) -> (r: Vec<String>)
    ensures
        strings_view(r@) == create_cmd(
            session@,
            cwd@,
            idx as int,
            name@,
            first_pane(window@),
            env_view(env@),
        ),
{
    let mut c: Vec<String> = Vec::new();
    if idx == 0 {
        c.push("new-session".to_owned());
        c.push("-d".to_owned());
        c.push("-s".to_owned());
        c.push(session.to_owned());
    } else {
        c.push("new-window".to_owned());
        c.push("-t".to_owned());
        c.push(concat(session, ":"));
    }
    c.push("-n".to_owned());
    c.push(name.to_owned());
    c.push("-c".to_owned());
    c.push(cwd.to_owned());
    let ghost head = strings_view(c@);
    assert(head =~= (if idx == 0 {
        seq!["new-session"@, "-d"@, "-s"@, session@, "-n"@, name@, "-c"@, cwd@]
    } else {
        seq!["new-window"@, "-t"@, session@ + ":"@, "-n"@, name@, "-c"@, cwd@]
    }));
    push_env(&mut c, env);
    if window.content.len() > 0 {
        let Element::Pane(p) = &window.content[0];
        push_opt_cmd(&mut c, &p.command);
    }
    proof {
        if window.content@.len() == 0 {
            assert(strings_view(c@) =~= head + env_args(env_view(env@)) + Seq::<Seq<char>>::empty());
        }
    }
    c
}

fn split_commands(
    session: &str,
    cwd: &str,
    split: Split,
    name: &str,
    pane: &crate::config::Pane,
    env: &[(&str, &str)],
) -> (r: Vec<Vec<String>>)
    ensures
        commands_view(r@) == split_cmds(session@, cwd@, split, name@, pane@, env_view(env@)),
{
    let mut c: Vec<String> = Vec::new();
    c.push("split-window".to_owned());
    c.push(split_flag(split).to_owned());
    c.push("-t".to_owned());
    c.push(target_string(session, name));
    c.push("-c".to_owned());
    c.push(cwd.to_owned());
    assert(strings_view(c@) =~= seq![
        "split-window"@,
        split_flag_v(split),
        "-t"@,
        target(session@, name@),
        "-c"@,
        cwd@,
    ]);
    push_env(&mut c, env);
    push_opt_cmd(&mut c, &pane.command);
    let mut out: Vec<Vec<String>> = Vec::new();
    out.push(c);
    let mut titles = title_commands(session, name, pane);
    let ghost first = commands_view(out@);
    let ghost rest = commands_view(titles@);
    out.append(&mut titles);
    assert(commands_view(out@) =~= first + rest);
    out
}

/// The commands that build one (named) window of the layout.
fn window_commands(
    session: &str,
    cwd: &str,
    window: &Window,
    idx: usize,
    env: &[(&str, &str)],
) -> (r: Vec<Vec<String>>)
    requires
        window.name is Some,
    ensures
        commands_view(r@) == window_cmds(
            session@,
            cwd@,
            window@,
            window.name->0@,
            idx as int,
            env_view(env@),
        ),
{
    let name: &str = match &window.name {
        Some(n) => n.as_str(),
        None => "",
    };
    let ghost s = session@;
    let ghost d = cwd@;
    let ghost w = window@;
    let ghost ev = env_view(env@);
    let mut out: Vec<Vec<String>> = Vec::new();
    out.push(create_command(session, cwd, idx, name, window, env));
    if window.content.len() > 0 {
        let Element::Pane(p) = &window.content[0];
        let mut t = title_commands(session, name, p);
        let ghost o = commands_view(out@);
        let ghost tv = commands_view(t@);
        out.append(&mut t);
        assert(commands_view(out@) =~= o + tv);
    } else {
        assert(commands_view(out@) =~= seq![create_cmd(s, d, idx as int, name@, first_pane(w), ev)] + Seq::<Seq<Seq<char>>>::empty());
    }
    let ghost base = commands_view(out@);
    assert(base == seq![create_cmd(s, d, idx as int, name@, first_pane(w), ev)] + match first_pane(w) {
        Some(p) => title_cmds(s, name@, p),
        None => Seq::empty(),
    });
    let ghost rest = later_panes(w);
    let n: usize = window.content.len();
    let mut j: usize = 1;
    proof {
        if n > 0 {
            assert(rest.subrange(0, 0) =~= Seq::<PaneV>::empty());
        }
        assert(base + Seq::<Seq<Seq<char>>>::empty() =~= base);
    }
    while j < n
        invariant
            1 <= j,
            n == window.content@.len(),
            j <= n || n == 0,
            n == 0 ==> j == 1,
            rest == later_panes(w),
            w == window@,
            s == session@,
            d == cwd@,
            ev == env_view(env@),
            n > 0 ==> rest.len() == n - 1,
            commands_view(out@) == base + later_panes_cmds(
                s,
                d,
                w.split,
                name@,
                rest.subrange(0, j - 1),
                ev,
            ),
        decreases n - j,
    {
        let Element::Pane(p) = &window.content[j];
        let mut sc = split_commands(session, cwd, window.split, name, p, env);
        let ghost o = commands_view(out@);
        let ghost sv = commands_view(sc@);
        out.append(&mut sc);
        proof {
            let pr = rest.subrange(0, j as int);
            assert(pr.drop_last() =~= rest.subrange(0, j - 1));
            assert(pr.last() == p@);
            assert(commands_view(out@) =~= o + sv);
            let prev = later_panes_cmds(s, d, w.split, name@, rest.subrange(0, j - 1), ev);
            assert(pr.len() > 0);
            assert(later_panes_cmds(s, d, w.split, name@, pr, ev) == later_panes_cmds(s, d, w.split, name@, pr.drop_last(), ev) + split_cmds(s, d, w.split, name@, pr.last(), ev));
            assert(later_panes_cmds(s, d, w.split, name@, pr.drop_last(), ev) == prev);
            assert(split_cmds(s, d, w.split, name@, pr.last(), ev) == sv);
            assert(later_panes_cmds(s, d, w.split, name@, pr, ev) == prev + sv);
            assert(base + prev + sv =~= base + (prev + sv));
        }
        j = j + 1;
    }
    proof {
        if n > 0 {
            assert(rest.subrange(0, n - 1) =~= rest);
        } else {
            assert(rest =~= Seq::<PaneV>::empty());
            assert(rest.subrange(0, 0) =~= rest);
        }
    }
    let mut last: Vec<String> = Vec::new();
    last.push("select-pane".to_owned());
    last.push("-t".to_owned());
    last.push(concat(target_string(session, name).as_str(), ".{top-left}"));
    let ghost o = commands_view(out@);
    assert(o == base + later_panes_cmds(s, d, w.split, name@, rest, ev));
    assert(strings_view(last@) =~= seq!["select-pane"@, "-t"@, target(s, name@) + ".{top-left}"@]);
    out.push(last);
    assert(commands_view(out@) =~= o.push(strings_view(last@)));
    assert(window.name->0@ == name@);
    assert(commands_view(out@) =~= window_cmds(s, d, w, name@, idx as int, ev));
    out
}

/// The tmux commands that create session `session` in directory `cwd` with
/// the windows and panes of `layout`, passing `env` to every window and pane.
pub fn build_commands(
    session: &str,
    cwd: &str,
    layout: &Vec<Window>,
    env: &[(&str, &str)],
) -> (r: Vec<Vec<String>>)
    ensures
        commands_view(r@) == session_cmds(session@, cwd@, layout_view(layout@), env_view(env@)),
{
    let ghost lv = layout_view(layout@);
    let named_layout = ensure_named_windows(layout);
    let mut cmds: Vec<Vec<String>> = Vec::new();
    let mut i: usize = 0;
    assert(lv.subrange(0, 0) =~= Seq::<WindowV>::empty());
    assert(layout_view(named_layout@).len() == named_layout@.len());
    assert(named(lv).len() == lv.len());
    while i < named_layout.len()
        invariant
            i <= named_layout@.len(),
            named_layout@.len() == lv.len(),
            lv == layout_view(layout@),
            layout_view(named_layout@) == named(lv),
            commands_view(cmds@) == windows_cmds(session@, cwd@, lv.subrange(0, i as int), env_view(env@)),
        decreases named_layout@.len() - i,
    {
        assert(named_layout@[i as int]@ == named(lv)[i as int]);
        let mut wc = window_commands(session, cwd, &named_layout[i], i, env);
        let ghost o = commands_view(cmds@);
        let ghost wv = commands_view(wc@);
        cmds.append(&mut wc);
        proof {
            let pr = lv.subrange(0, i + 1);
            assert(pr.drop_last() =~= lv.subrange(0, i as int));
            assert(pr[i as int] == lv[i as int]);
            assert(commands_view(cmds@) =~= o + wv);
        }
        i = i + 1;
    }
    assert(lv.subrange(0, i as int) =~= lv);
    if named_layout.len() > 0 {
        let first_name: &str = match &named_layout[0].name {
            Some(n) => n.as_str(),
            None => "",
        };
        assert(named_layout@[0]@ == named(lv)[0]);
        let mut c: Vec<String> = Vec::new();
        c.push("select-window".to_owned());
        c.push("-t".to_owned());
        c.push(target_string(session, first_name));
        assert(first_name@ == window_name(lv[0], 0));
        assert(strings_view(c@) =~= seq!["select-window"@, "-t"@, target(session@, window_name(lv[0], 0))]);
        let ghost o = commands_view(cmds@);
        cmds.push(c);
        assert(commands_view(cmds@) =~= o.push(strings_view(c@)));
        assert(commands_view(cmds@) =~= session_cmds(session@, cwd@, lv, env_view(env@)));
    } else {
        assert(commands_view(cmds@) =~= session_cmds(session@, cwd@, lv, env_view(env@)));
    }
    cmds
}


/// The arguments for `tmux` that test whether a session of exactly this
/// name exists.
pub fn has_session_args(session: &str) -> (r: Vec<String>)
    ensures
        strings_view(r@) == seq!["has-session"@, "-t"@, "="@ + session@],
{
    let mut r: Vec<String> = Vec::new();
    r.push("has-session".to_owned());
    r.push("-t".to_owned());
    r.push(concat("=", session));
    assert(strings_view(r@) =~= seq!["has-session"@, "-t"@, "="@ + session@]);
    r
}

/// The arguments for `tmux` that bring a session up: switching the client
/// when already inside tmux, attaching otherwise.
pub fn attach_args(inside_tmux: bool, session: &str) -> (r: Vec<String>)
    ensures
        strings_view(r@) == seq![
            if inside_tmux {
                "switch-client"@
            } else {
                "attach"@
            },
            "-t"@,
            session@,
        ],
{
    let mut r: Vec<String> = Vec::new();
    if inside_tmux {
        r.push("switch-client".to_owned());
    } else {
        r.push("attach".to_owned());
    }
    r.push("-t".to_owned());
    r.push(session.to_owned());
    assert(strings_view(r@) =~= seq![
        if inside_tmux {
            "switch-client"@
        } else {
            "attach"@
        },
        "-t"@,
        session@,
    ]);
    r
}

proof fn lemma_window_cmds_len(
    session: Seq<char>,
    cwd: Seq<char>,
    w: WindowV,
    name: Seq<char>,
    idx: int,
    env: Seq<(Seq<char>, Seq<char>)>,
)
    ensures
        window_cmds(session, cwd, w, name, idx, env).len() >= 2,
        window_cmds(session, cwd, w, name, idx, env)[0] == create_cmd(
            session,
            cwd,
            idx,
            name,
            first_pane(w),
            env,
        ),
{
}

proof fn lemma_windows_cmds_first(
    session: Seq<char>,
    cwd: Seq<char>,
    layout: Seq<WindowV>,
    env: Seq<(Seq<char>, Seq<char>)>,
)
    requires
        layout.len() > 0,
    ensures
        windows_cmds(session, cwd, layout, env).len() > 0,
        windows_cmds(session, cwd, layout, env)[0] == create_cmd(
            session,
            cwd,
            0,
            window_name(layout[0], 0),
            first_pane(layout[0]),
            env,
        ),
    decreases layout.len(),
{
    let i: int = layout.len() - 1;
    lemma_window_cmds_len(session, cwd, layout[i], window_name(layout[i], i), i, env);
    if layout.len() > 1 {
        lemma_windows_cmds_first(session, cwd, layout.drop_last(), env);
        assert(layout.drop_last()[0] == layout[0]);
    } else {
        assert(layout.drop_last().len() == 0);
        assert(windows_cmds(session, cwd, layout.drop_last(), env) =~= Seq::<Seq<Seq<char>>>::empty());
        assert(windows_cmds(session, cwd, layout, env) =~= window_cmds(
            session,
            cwd,
            layout[0],
            window_name(layout[0], 0),
            0,
            env,
        ));
    }
}

/// For a non-empty layout, the first command creates the session, in the
/// project directory, with its first window named.
pub proof fn law_first_command_creates_session(
    session: Seq<char>,
    cwd: Seq<char>,
    layout: Seq<WindowV>,
    env: Seq<(Seq<char>, Seq<char>)>,
)
    requires
        layout.len() > 0,
    ensures
        session_cmds(session, cwd, layout, env)[0].subrange(0, 8) == seq![
            "new-session"@,
            "-d"@,
            "-s"@,
            session,
            "-n"@,
            window_name(layout[0], 0),
            "-c"@,
            cwd,
        ],
{
    lemma_windows_cmds_first(session, cwd, layout, env);
    let c = create_cmd(session, cwd, 0, window_name(layout[0], 0), first_pane(layout[0]), env);
    assert(session_cmds(session, cwd, layout, env)[0] == c);
    assert(c.subrange(0, 8) =~= seq![
        "new-session"@,
        "-d"@,
        "-s"@,
        session,
        "-n"@,
        window_name(layout[0], 0),
        "-c"@,
        cwd,
    ]);
}

/// For a non-empty layout, the last command selects the first window.
pub proof fn law_last_command_selects_first_window(
    session: Seq<char>,
    cwd: Seq<char>,
    layout: Seq<WindowV>,
    env: Seq<(Seq<char>, Seq<char>)>,
)
    requires
        layout.len() > 0,
    ensures
        session_cmds(session, cwd, layout, env).last() == seq![
            "select-window"@,
            "-t"@,
            session + ":"@ + window_name(layout[0], 0),
        ],
{
}

/// With no variables to pass, no `-e` flag is added to any command.
pub proof fn law_no_env_no_flags()
    ensures
        env_args(Seq::empty()) == Seq::<Seq<char>>::empty(),
{
}

/// The `-e` pairs come after a creating command's own flags and before its
/// shell command, which stays the last argument.
pub proof fn law_env_before_shell_command(
    session: Seq<char>,
    cwd: Seq<char>,
    idx: int,
    name: Seq<char>,
    pane: PaneV,
    env: Seq<(Seq<char>, Seq<char>)>,
)
    requires
        pane.command.len() > 0,
    ensures
        create_cmd(session, cwd, idx, name, Some(pane), env).last() == pane.command,
        create_cmd(session, cwd, idx, name, Some(pane), env).subrange(
            (if idx == 0 { 8int } else { 7int }),
            (if idx == 0 { 8int } else { 7int }) + env_args(env).len(),
        ) == env_args(env),
{
    let head = if idx == 0 {
        seq!["new-session"@, "-d"@, "-s"@, session, "-n"@, name, "-c"@, cwd]
    } else {
        seq!["new-window"@, "-t"@, session + ":"@, "-n"@, name, "-c"@, cwd]
    };
    let c = create_cmd(session, cwd, idx, name, Some(pane), env);
    assert(c == head + env_args(env) + seq![pane.command]);
    assert(c.subrange(head.len() as int, (head.len() + env_args(env).len()) as int) =~= env_args(env));
}

/// Whether a command line starts a process: the session, a window, or a
/// pane split off a window.
pub open spec fn starts_process(c: Seq<Seq<char>>) -> bool {
    c.len() > 0 && (c[0] == "new-session"@ || c[0] == "new-window"@ || c[0] == "split-window"@)
}

/// Where the `-e` pairs of a process-starting command begin: right after
/// the command's own flags.
pub open spec fn env_offset(c: Seq<Seq<char>>) -> int {
    if c[0] == "new-session"@ {
        8
    } else if c[0] == "new-window"@ {
        7
    } else {
        6
    }
}

/// Whether a command passes the whole environment, in order, right after
/// its own flags, followed by at most its (non-empty) shell command.
pub open spec fn passes_env(c: Seq<Seq<char>>, env: Seq<(Seq<char>, Seq<char>)>) -> bool {
    &&& env_offset(c) + env_args(env).len() <= c.len() <= env_offset(c) + env_args(env).len() + 1
    &&& c.subrange(env_offset(c), env_offset(c) + env_args(env).len()) == env_args(env)
    &&& c.len() == env_offset(c) + env_args(env).len() + 1 ==> c.last().len() > 0
}

/// Whether every command of a list that starts a process passes `env`.
pub open spec fn all_pass_env(cmds: Seq<Seq<Seq<char>>>, env: Seq<(Seq<char>, Seq<char>)>) -> bool {
    forall|i: int| 0 <= i < cmds.len() && starts_process(#[trigger] cmds[i]) ==> passes_env(cmds[i], env)
}

proof fn lemma_all_pass_env_concat(
    a: Seq<Seq<Seq<char>>>,
    b: Seq<Seq<Seq<char>>>,
    env: Seq<(Seq<char>, Seq<char>)>,
)
    requires
        all_pass_env(a, env),
        all_pass_env(b, env),
    ensures
        all_pass_env(a + b, env),
{
    assert forall|i: int| 0 <= i < (a + b).len() && starts_process(#[trigger] (a + b)[i]) implies passes_env(
        (a + b)[i],
        env,
    ) by {
        if i < a.len() {
            assert((a + b)[i] == a[i]);
        } else {
            assert((a + b)[i] == b[i - a.len()]);
        }
    }
}

proof fn lemma_literals_differ()
    ensures
        "new-session"@ != "new-window"@,
        "new-session"@ != "split-window"@,
        "new-window"@ != "split-window"@,
        !starts_process(seq!["select-pane"@]),
        !starts_process(seq!["select-window"@]),
{
    reveal_strlit("new-session");
    reveal_strlit("new-window");
    reveal_strlit("split-window");
    reveal_strlit("select-pane");
    reveal_strlit("select-window");
    assert("new-session"@[0] != "split-window"@[0]);
    assert("new-window"@[0] != "split-window"@[0]);
    assert("new-session"@.len() != "new-window"@.len());
    assert("select-pane"@[0] != "new-session"@[0]);
    assert("select-pane"@[0] != "new-window"@[0]);
    assert("select-pane"@[1] != "split-window"@[1]);
    assert("select-window"@[0] != "new-session"@[0]);
    assert("select-window"@[0] != "new-window"@[0]);
    assert("select-window"@[1] != "split-window"@[1]);
}

proof fn lemma_titles_pass_env(
    session: Seq<char>,
    name: Seq<char>,
    pane: PaneV,
    env: Seq<(Seq<char>, Seq<char>)>,
)
    ensures
        all_pass_env(title_cmds(session, name, pane), env),
{
    lemma_literals_differ();
    if let Some(t) = pane.name {
        let c = seq!["select-pane"@, "-t"@, target(session, name), "-T"@, t];
        assert(c[0] == seq!["select-pane"@][0]);
    }
}

proof fn lemma_later_panes_pass_env(
    session: Seq<char>,
    cwd: Seq<char>,
    split: Split,
    name: Seq<char>,
    panes: Seq<PaneV>,
    env: Seq<(Seq<char>, Seq<char>)>,
)
    ensures
        all_pass_env(later_panes_cmds(session, cwd, split, name, panes, env), env),
    decreases panes.len(),
{
    if panes.len() > 0 {
        lemma_later_panes_pass_env(session, cwd, split, name, panes.drop_last(), env);
        lemma_literals_differ();
        let head = seq!["split-window"@, split_flag_v(split), "-t"@, target(session, name), "-c"@, cwd];
        let c = head + env_args(env) + opt_cmd(panes.last().command);
        assert(c[0] == "split-window"@);
        assert(c.subrange(6, 6 + env_args(env).len() as int) =~= env_args(env));
        assert(all_pass_env(seq![c], env));
        lemma_titles_pass_env(session, name, panes.last(), env);
        lemma_all_pass_env_concat(seq![c], title_cmds(session, name, panes.last()), env);
        lemma_all_pass_env_concat(
            later_panes_cmds(session, cwd, split, name, panes.drop_last(), env),
            split_cmds(session, cwd, split, name, panes.last(), env),
            env,
        );
    }
}

proof fn lemma_window_passes_env(
    session: Seq<char>,
    cwd: Seq<char>,
    w: WindowV,
    name: Seq<char>,
    idx: int,
    env: Seq<(Seq<char>, Seq<char>)>,
)
    ensures
        all_pass_env(window_cmds(session, cwd, w, name, idx, env), env),
{
    lemma_literals_differ();
    let c = create_cmd(session, cwd, idx, name, first_pane(w), env);
    let head = if idx == 0 {
        seq!["new-session"@, "-d"@, "-s"@, session, "-n"@, name, "-c"@, cwd]
    } else {
        seq!["new-window"@, "-t"@, session + ":"@, "-n"@, name, "-c"@, cwd]
    };
    let tail = match first_pane(w) {
        Some(p) => opt_cmd(p.command),
        None => Seq::empty(),
    };
    assert(c == head + env_args(env) + tail);
    assert(c[0] == head[0]);
    assert(c.subrange(head.len() as int, head.len() + env_args(env).len() as int) =~= env_args(env));
    assert(all_pass_env(seq![c], env));
    let titles = match first_pane(w) {
        Some(p) => title_cmds(session, name, p),
        None => Seq::empty(),
    };
    if let Some(p) = first_pane(w) {
        lemma_titles_pass_env(session, name, p, env);
    }
    lemma_later_panes_pass_env(session, cwd, w.split, name, later_panes(w), env);
    let last = seq!["select-pane"@, "-t"@, target(session, name) + ".{top-left}"@];
    assert(last[0] == seq!["select-pane"@][0]);
    assert(all_pass_env(seq![last], env));
    lemma_all_pass_env_concat(seq![c], titles, env);
    lemma_all_pass_env_concat(
        seq![c] + titles,
        later_panes_cmds(session, cwd, w.split, name, later_panes(w), env),
        env,
    );
    lemma_all_pass_env_concat(
        seq![c] + titles + later_panes_cmds(session, cwd, w.split, name, later_panes(w), env),
        seq![last],
        env,
    );
}

proof fn lemma_windows_pass_env(
    session: Seq<char>,
    cwd: Seq<char>,
    layout: Seq<WindowV>,
    env: Seq<(Seq<char>, Seq<char>)>,
)
    ensures
        all_pass_env(windows_cmds(session, cwd, layout, env), env),
    decreases layout.len(),
{
    if layout.len() > 0 {
        let i: int = layout.len() - 1;
        lemma_windows_pass_env(session, cwd, layout.drop_last(), env);
        lemma_window_passes_env(session, cwd, layout[i], window_name(layout[i], i), i, env);
        lemma_all_pass_env_concat(
            windows_cmds(session, cwd, layout.drop_last(), env),
            window_cmds(session, cwd, layout[i], window_name(layout[i], i), i, env),
            env,
        );
    }
}

/// Every command that starts a process of the session (the session itself,
/// each window, each pane split off) passes the whole environment, in
/// order, right after its own flags, and ends with at most the pane's
/// non-empty shell command: every pane process sees the variables.
pub proof fn law_every_process_gets_env(
    session: Seq<char>,
    cwd: Seq<char>,
    layout: Seq<WindowV>,
    env: Seq<(Seq<char>, Seq<char>)>,
)
    ensures
        all_pass_env(session_cmds(session, cwd, layout, env), env),
{
    lemma_windows_pass_env(session, cwd, layout, env);
    if layout.len() > 0 {
        lemma_literals_differ();
        let last = seq!["select-window"@, "-t"@, target(session, window_name(layout[0], 0))];
        assert(last[0] == seq!["select-window"@][0]);
        assert(all_pass_env(seq![last], env));
        lemma_all_pass_env_concat(windows_cmds(session, cwd, layout, env), seq![last], env);
    } else {
        assert(session_cmds(session, cwd, layout, env) =~= windows_cmds(session, cwd, layout, env));
    }
}

/// Whether a command line starts with the word `w`.
pub open spec fn first_word_is(c: Seq<Seq<char>>, w: Seq<char>) -> bool {
    c.len() > 0 && c[0] == w
}

/// How many commands of a list start with the word `w`.
pub open spec fn count_of(cmds: Seq<Seq<Seq<char>>>, w: Seq<char>) -> nat {
    cmds.filter(|c: Seq<Seq<char>>| first_word_is(c, w)).len()
}

/// How many panes of a list have a title.
pub open spec fn titled(panes: Seq<PaneV>) -> nat {
    panes.filter(|p: PaneV| p.name is Some).len()
}

/// How many commands build window `w`: create it (with its first pane),
/// split off each other pane, title each titled pane, select the top-left
/// pane.
pub open spec fn window_len(w: WindowV) -> nat {
    (if w.content.len() > 0 {
        w.content.len()
    } else {
        1
    }) + 1 + titled(w.content)
}

/// How many commands build the windows of a layout.
pub open spec fn windows_len(layout: Seq<WindowV>) -> nat
    decreases layout.len(),
{
    if layout.len() == 0 {
        0
    } else {
        windows_len(layout.drop_last()) + window_len(layout.last())
    }
}

/// How many panes of a layout are split off (all but each window's first).
pub open spec fn split_count(layout: Seq<WindowV>) -> nat
    decreases layout.len(),
{
    if layout.len() == 0 {
        0
    } else {
        split_count(layout.drop_last()) + later_panes(layout.last()).len()
    }
}

proof fn lemma_count_concat(a: Seq<Seq<Seq<char>>>, b: Seq<Seq<Seq<char>>>, w: Seq<char>)
    ensures
        count_of(a + b, w) == count_of(a, w) + count_of(b, w),
{
    Seq::<Seq<Seq<char>>>::filter_distributes_over_add(a, b, |c: Seq<Seq<char>>| first_word_is(c, w));
}

proof fn lemma_count_single(c: Seq<Seq<char>>, w: Seq<char>)
    ensures
        count_of(seq![c], w) == if first_word_is(c, w) {
            1nat
        } else {
            0nat
        },
{
    let pred = |x: Seq<Seq<char>>| first_word_is(x, w);
    Seq::<Seq<Seq<char>>>::empty().lemma_filter_push(c, pred);
    assert(Seq::<Seq<Seq<char>>>::empty().push(c) =~= seq![c]);
    Seq::<Seq<Seq<char>>>::empty().lemma_all_neg_filter_empty(pred);
}

proof fn lemma_words_differ()
    ensures
        "new-session"@ != "new-window"@,
        "new-session"@ != "split-window"@,
        "new-window"@ != "split-window"@,
        "select-pane"@ != "new-session"@,
        "select-pane"@ != "new-window"@,
        "select-pane"@ != "split-window"@,
        "select-window"@ != "new-session"@,
        "select-window"@ != "new-window"@,
        "select-window"@ != "split-window"@,
{
    lemma_literals_differ();
    assert(seq!["select-pane"@][0] == "select-pane"@);
    assert(seq!["select-window"@][0] == "select-window"@);
}

/// The three words that start a process.
pub open spec fn process_words() -> Seq<Seq<char>> {
    seq!["new-session"@, "new-window"@, "split-window"@]
}

proof fn lemma_titles_count(session: Seq<char>, name: Seq<char>, pane: PaneV)
    ensures
        title_cmds(session, name, pane).len() == if pane.name is Some {
            1nat
        } else {
            0nat
        },
        forall|i: int| 0 <= i < 3 ==> count_of(title_cmds(session, name, pane), #[trigger] process_words()[i]) == 0,
{
    lemma_words_differ();
    assert forall|i: int| 0 <= i < 3 implies count_of(title_cmds(session, name, pane), #[trigger] process_words()[i]) == 0 by {
        match pane.name {
            Some(t) => {
                let c = seq!["select-pane"@, "-t"@, target(session, name), "-T"@, t];
                lemma_count_single(c, process_words()[i]);
            },
            None => {
                Seq::<Seq<Seq<char>>>::empty().lemma_all_neg_filter_empty(
                    |x: Seq<Seq<char>>| first_word_is(x, process_words()[i]),
                );
            },
        }
    }
}

proof fn lemma_later_counts(
    session: Seq<char>,
    cwd: Seq<char>,
    split: Split,
    name: Seq<char>,
    panes: Seq<PaneV>,
    env: Seq<(Seq<char>, Seq<char>)>,
)
    ensures
        later_panes_cmds(session, cwd, split, name, panes, env).len() == panes.len() + titled(panes),
        count_of(later_panes_cmds(session, cwd, split, name, panes, env), "new-session"@) == 0,
        count_of(later_panes_cmds(session, cwd, split, name, panes, env), "new-window"@) == 0,
        count_of(later_panes_cmds(session, cwd, split, name, panes, env), "split-window"@)
            == panes.len(),
    decreases panes.len(),
{
    let l = later_panes_cmds(session, cwd, split, name, panes, env);
    if panes.len() == 0 {
        Seq::<PaneV>::empty().lemma_all_neg_filter_empty(|p: PaneV| p.name is Some);
        let e = Seq::<Seq<Seq<char>>>::empty();
        e.lemma_all_neg_filter_empty(|x: Seq<Seq<char>>| first_word_is(x, "new-session"@));
        e.lemma_all_neg_filter_empty(|x: Seq<Seq<char>>| first_word_is(x, "new-window"@));
        e.lemma_all_neg_filter_empty(|x: Seq<Seq<char>>| first_word_is(x, "split-window"@));
    } else {
        let rest = panes.drop_last();
        let p = panes.last();
        lemma_later_counts(session, cwd, split, name, rest, env);
        lemma_words_differ();
        let c = seq!["split-window"@, split_flag_v(split), "-t"@, target(session, name), "-c"@, cwd]
            + env_args(env) + opt_cmd(p.command);
        assert(c[0] == "split-window"@);
        let t = title_cmds(session, name, p);
        lemma_titles_count(session, name, p);
        assert(process_words()[0] == "new-session"@);
        assert(process_words()[1] == "new-window"@);
        assert(process_words()[2] == "split-window"@);
        assert(count_of(t, process_words()[0]) == 0);
        assert(count_of(t, process_words()[1]) == 0);
        assert(count_of(t, process_words()[2]) == 0);
        let front = later_panes_cmds(session, cwd, split, name, rest, env);
        assert(l == front + (seq![c] + t));
        lemma_count_single(c, "new-session"@);
        lemma_count_single(c, "new-window"@);
        lemma_count_single(c, "split-window"@);
        lemma_count_concat(seq![c], t, "new-session"@);
        lemma_count_concat(seq![c], t, "new-window"@);
        lemma_count_concat(seq![c], t, "split-window"@);
        lemma_count_concat(front, seq![c] + t, "new-session"@);
        lemma_count_concat(front, seq![c] + t, "new-window"@);
        lemma_count_concat(front, seq![c] + t, "split-window"@);
        assert(panes =~= rest.push(p));
        rest.lemma_filter_push(p, |q: PaneV| q.name is Some);
    }
}

proof fn lemma_window_counts(
    session: Seq<char>,
    cwd: Seq<char>,
    w: WindowV,
    name: Seq<char>,
    idx: int,
    env: Seq<(Seq<char>, Seq<char>)>,
)
    ensures
        window_cmds(session, cwd, w, name, idx, env).len() == window_len(w),
        count_of(window_cmds(session, cwd, w, name, idx, env), "new-session"@) == if idx == 0 {
            1nat
        } else {
            0nat
        },
        count_of(window_cmds(session, cwd, w, name, idx, env), "new-window"@) == if idx == 0 {
            0nat
        } else {
            1nat
        },
        count_of(window_cmds(session, cwd, w, name, idx, env), "split-window"@) == later_panes(
            w,
        ).len(),
{
    lemma_words_differ();
    let c = create_cmd(session, cwd, idx, name, first_pane(w), env);
    let head = if idx == 0 {
        seq!["new-session"@, "-d"@, "-s"@, session, "-n"@, name, "-c"@, cwd]
    } else {
        seq!["new-window"@, "-t"@, session + ":"@, "-n"@, name, "-c"@, cwd]
    };
    let tail = match first_pane(w) {
        Some(p) => opt_cmd(p.command),
        None => Seq::empty(),
    };
    assert(c == head + env_args(env) + tail);
    assert(c[0] == head[0]);
    let titles = match first_pane(w) {
        Some(p) => title_cmds(session, name, p),
        None => Seq::empty(),
    };
    assert(process_words()[0] == "new-session"@);
    assert(process_words()[1] == "new-window"@);
    assert(process_words()[2] == "split-window"@);
    let pred_named = |p: PaneV| p.name is Some;
    match first_pane(w) {
        Some(p) => {
            lemma_titles_count(session, name, p);
            assert(count_of(titles, process_words()[0]) == 0);
            assert(count_of(titles, process_words()[1]) == 0);
            assert(count_of(titles, process_words()[2]) == 0);
            assert(w.content =~= seq![p] + later_panes(w));
            Seq::<PaneV>::filter_distributes_over_add(seq![p], later_panes(w), pred_named);
            Seq::<PaneV>::empty().lemma_filter_push(p, pred_named);
            assert(Seq::<PaneV>::empty().push(p) =~= seq![p]);
            Seq::<PaneV>::empty().lemma_all_neg_filter_empty(pred_named);
        },
        None => {
            let e = Seq::<Seq<Seq<char>>>::empty();
            e.lemma_all_neg_filter_empty(|x: Seq<Seq<char>>| first_word_is(x, "new-session"@));
            e.lemma_all_neg_filter_empty(|x: Seq<Seq<char>>| first_word_is(x, "new-window"@));
            e.lemma_all_neg_filter_empty(|x: Seq<Seq<char>>| first_word_is(x, "split-window"@));
            assert(w.content.len() == 0);
            w.content.lemma_all_neg_filter_empty(pred_named);
        },
    }
    let later = later_panes_cmds(session, cwd, w.split, name, later_panes(w), env);
    lemma_later_counts(session, cwd, w.split, name, later_panes(w), env);
    let last = seq!["select-pane"@, "-t"@, target(session, name) + ".{top-left}"@];
    assert(last[0] == "select-pane"@);
    let words = seq!["new-session"@, "new-window"@, "split-window"@];
    assert forall|i: int| 0 <= i < 3 implies {
        let x = #[trigger] words[i];
        count_of(window_cmds(session, cwd, w, name, idx, env), x) == count_of(seq![c], x) + count_of(
            titles,
            x,
        ) + count_of(later, x) + count_of(seq![last], x)
    } by {
        let x = words[i];
        lemma_count_concat(seq![c], titles, x);
        lemma_count_concat(seq![c] + titles, later, x);
        lemma_count_concat(seq![c] + titles + later, seq![last], x);
        lemma_count_single(c, x);
        lemma_count_single(last, x);
    }
    assert(words[0] == "new-session"@ && words[1] == "new-window"@ && words[2] == "split-window"@);
    lemma_count_single(c, "new-session"@);
    lemma_count_single(c, "new-window"@);
    lemma_count_single(c, "split-window"@);
    lemma_count_single(last, "new-session"@);
    lemma_count_single(last, "new-window"@);
    lemma_count_single(last, "split-window"@);
}

proof fn lemma_windows_counts(
    session: Seq<char>,
    cwd: Seq<char>,
    layout: Seq<WindowV>,
    env: Seq<(Seq<char>, Seq<char>)>,
)
    ensures
        windows_cmds(session, cwd, layout, env).len() == windows_len(layout),
        count_of(windows_cmds(session, cwd, layout, env), "new-session"@) == if layout.len() > 0 {
            1nat
        } else {
            0nat
        },
        count_of(windows_cmds(session, cwd, layout, env), "new-window"@) == if layout.len() > 0 {
            (layout.len() - 1) as nat
        } else {
            0nat
        },
        count_of(windows_cmds(session, cwd, layout, env), "split-window"@) == split_count(layout),
    decreases layout.len(),
{
    if layout.len() == 0 {
        let e = Seq::<Seq<Seq<char>>>::empty();
        e.lemma_all_neg_filter_empty(|x: Seq<Seq<char>>| first_word_is(x, "new-session"@));
        e.lemma_all_neg_filter_empty(|x: Seq<Seq<char>>| first_word_is(x, "new-window"@));
        e.lemma_all_neg_filter_empty(|x: Seq<Seq<char>>| first_word_is(x, "split-window"@));
    } else {
        let i: int = layout.len() - 1;
        lemma_windows_counts(session, cwd, layout.drop_last(), env);
        lemma_window_counts(session, cwd, layout[i], window_name(layout[i], i), i, env);
        let a = windows_cmds(session, cwd, layout.drop_last(), env);
        let b = window_cmds(session, cwd, layout[i], window_name(layout[i], i), i, env);
        lemma_count_concat(a, b, "new-session"@);
        lemma_count_concat(a, b, "new-window"@);
        lemma_count_concat(a, b, "split-window"@);
    }
}

/// For a non-empty layout: one command creates the session, one creates
/// each further window, one splits off each pane after a window's first,
/// and in all there is one command per window and pane, one per titled
/// pane, one selecting each window's top-left pane, and the final window
/// selection. An empty layout gives no command.
pub proof fn law_command_counts(
    session: Seq<char>,
    cwd: Seq<char>,
    layout: Seq<WindowV>,
    env: Seq<(Seq<char>, Seq<char>)>,
)
    ensures
        layout.len() == 0 ==> session_cmds(session, cwd, layout, env).len() == 0,
        layout.len() > 0 ==> {
            let cmds = session_cmds(session, cwd, layout, env);
            &&& count_of(cmds, "new-session"@) == 1
            &&& count_of(cmds, "new-window"@) == layout.len() - 1
            &&& count_of(cmds, "split-window"@) == split_count(layout)
            &&& cmds.len() == windows_len(layout) + 1
        },
{
    lemma_windows_counts(session, cwd, layout, env);
    lemma_words_differ();
    if layout.len() > 0 {
        let w = windows_cmds(session, cwd, layout, env);
        let last = seq!["select-window"@, "-t"@, target(session, window_name(layout[0], 0))];
        assert(last[0] == "select-window"@);
        lemma_count_single(last, "new-session"@);
        lemma_count_single(last, "new-window"@);
        lemma_count_single(last, "split-window"@);
        lemma_count_concat(w, seq![last], "new-session"@);
        lemma_count_concat(w, seq![last], "new-window"@);
        lemma_count_concat(w, seq![last], "split-window"@);
    } else {
        assert(session_cmds(session, cwd, layout, env) =~= windows_cmds(session, cwd, layout, env));
    }
}

/// Whether every `split-window` command of a list splits the way `split`
/// says and targets window `name` of the session.
pub open spec fn splits_as(cmds: Seq<Seq<Seq<char>>>, session: Seq<char>, name: Seq<char>, split: Split) -> bool {
    forall|i: int|
        0 <= i < cmds.len() && first_word_is(#[trigger] cmds[i], "split-window"@) ==> cmds[i].len() > 3
            && cmds[i][1] == split_flag_v(split) && cmds[i][3] == target(session, name)
}

proof fn lemma_splits_as_concat(
    a: Seq<Seq<Seq<char>>>,
    b: Seq<Seq<Seq<char>>>,
    session: Seq<char>,
    name: Seq<char>,
    split: Split,
)
    requires
        splits_as(a, session, name, split),
        splits_as(b, session, name, split),
    ensures
        splits_as(a + b, session, name, split),
{
    assert forall|i: int|
        0 <= i < (a + b).len() && first_word_is(#[trigger] (a + b)[i], "split-window"@) implies (a
        + b)[i].len() > 3 && (a + b)[i][1] == split_flag_v(split) && (a + b)[i][3] == target(session, name) by {
        if i < a.len() {
            assert((a + b)[i] == a[i]);
        } else {
            assert((a + b)[i] == b[i - a.len()]);
        }
    }
}

proof fn lemma_no_splits(c: Seq<Seq<char>>, session: Seq<char>, name: Seq<char>, split: Split)
    requires
        c.len() > 0,
        c[0] != "split-window"@,
    ensures
        splits_as(seq![c], session, name, split),
{
}

proof fn lemma_titles_split(session: Seq<char>, name: Seq<char>, pane: PaneV, split: Split)
    ensures
        splits_as(title_cmds(session, name, pane), session, name, split),
{
    lemma_words_differ();
    if let Some(t) = pane.name {
        let c = seq!["select-pane"@, "-t"@, target(session, name), "-T"@, t];
        lemma_no_splits(c, session, name, split);
    }
}

proof fn lemma_later_splits(
    session: Seq<char>,
    cwd: Seq<char>,
    split: Split,
    name: Seq<char>,
    panes: Seq<PaneV>,
    env: Seq<(Seq<char>, Seq<char>)>,
)
    ensures
        splits_as(later_panes_cmds(session, cwd, split, name, panes, env), session, name, split),
    decreases panes.len(),
{
    if panes.len() > 0 {
        lemma_later_splits(session, cwd, split, name, panes.drop_last(), env);
        let c = seq!["split-window"@, split_flag_v(split), "-t"@, target(session, name), "-c"@, cwd]
            + env_args(env) + opt_cmd(panes.last().command);
        assert(c[1] == split_flag_v(split) && c[3] == target(session, name));
        assert(splits_as(seq![c], session, name, split));
        lemma_titles_split(session, name, panes.last(), split);
        lemma_splits_as_concat(seq![c], title_cmds(session, name, panes.last()), session, name, split);
        lemma_splits_as_concat(
            later_panes_cmds(session, cwd, split, name, panes.drop_last(), env),
            split_cmds(session, cwd, split, name, panes.last(), env),
            session,
            name,
            split,
        );
    }
}

proof fn lemma_window_splits(
    session: Seq<char>,
    cwd: Seq<char>,
    w: WindowV,
    name: Seq<char>,
    idx: int,
    env: Seq<(Seq<char>, Seq<char>)>,
)
    ensures
        splits_as(window_cmds(session, cwd, w, name, idx, env), session, name, w.split),
{
    lemma_words_differ();
    let c = create_cmd(session, cwd, idx, name, first_pane(w), env);
    let head = if idx == 0 {
        seq!["new-session"@, "-d"@, "-s"@, session, "-n"@, name, "-c"@, cwd]
    } else {
        seq!["new-window"@, "-t"@, session + ":"@, "-n"@, name, "-c"@, cwd]
    };
    let tail = match first_pane(w) {
        Some(p) => opt_cmd(p.command),
        None => Seq::empty(),
    };
    assert(c == head + env_args(env) + tail);
    assert(c[0] == head[0]);
    lemma_no_splits(c, session, name, w.split);
    let titles = match first_pane(w) {
        Some(p) => title_cmds(session, name, p),
        None => Seq::empty(),
    };
    if let Some(p) = first_pane(w) {
        lemma_titles_split(session, name, p, w.split);
    }
    let later = later_panes_cmds(session, cwd, w.split, name, later_panes(w), env);
    lemma_later_splits(session, cwd, w.split, name, later_panes(w), env);
    let last = seq!["select-pane"@, "-t"@, target(session, name) + ".{top-left}"@];
    lemma_no_splits(last, session, name, w.split);
    lemma_splits_as_concat(seq![c], titles, session, name, w.split);
    lemma_splits_as_concat(seq![c] + titles, later, session, name, w.split);
    lemma_splits_as_concat(seq![c] + titles + later, seq![last], session, name, w.split);
}

/// Whether every `split-window` command of a list splits one of the
/// layout's windows the way that window says.
pub open spec fn splits_follow_windows(cmds: Seq<Seq<Seq<char>>>, session: Seq<char>, layout: Seq<WindowV>) -> bool {
    forall|i: int|
        0 <= i < cmds.len() && first_word_is(#[trigger] cmds[i], "split-window"@) ==> exists|j: int|
            0 <= j < layout.len() && cmds[i].len() > 3 && cmds[i][1] == split_flag_v(
                #[trigger] layout[j].split,
            ) && cmds[i][3] == target(session, window_name(layout[j], j))
}

proof fn lemma_windows_splits(
    session: Seq<char>,
    cwd: Seq<char>,
    layout: Seq<WindowV>,
    env: Seq<(Seq<char>, Seq<char>)>,
)
    ensures
        splits_follow_windows(windows_cmds(session, cwd, layout, env), session, layout),
    decreases layout.len(),
{
    if layout.len() > 0 {
        let k: int = layout.len() - 1;
        let front = layout.drop_last();
        lemma_windows_splits(session, cwd, front, env);
        let a = windows_cmds(session, cwd, front, env);
        let b = window_cmds(session, cwd, layout[k], window_name(layout[k], k), k, env);
        lemma_window_splits(session, cwd, layout[k], window_name(layout[k], k), k, env);
        assert forall|i: int|
            0 <= i < (a + b).len() && first_word_is(#[trigger] (a + b)[i], "split-window"@) implies exists|j: int|
                0 <= j < layout.len() && (a + b)[i].len() > 3 && (a + b)[i][1] == split_flag_v(
                    #[trigger] layout[j].split,
                ) && (a + b)[i][3] == target(session, window_name(layout[j], j)) by {
            if i < a.len() {
                assert((a + b)[i] == a[i]);
                let j: int = choose|j: int|
                    0 <= j < front.len() && a[i].len() > 3 && a[i][1] == split_flag_v(
                        #[trigger] front[j].split,
                    ) && a[i][3] == target(session, window_name(front[j], j));
                assert(front[j] == layout[j]);
            } else {
                assert((a + b)[i] == b[i - a.len()]);
                assert(layout[k].split == layout[k].split);
            }
        }
    }
}

/// Every pane split off a window (each pane after the window's first) is
/// split the way that window's `split` says: every `split-window` command
/// targets a window of the layout and carries that window's split flag.
pub proof fn law_panes_split_as_their_window(
    session: Seq<char>,
    cwd: Seq<char>,
    layout: Seq<WindowV>,
    env: Seq<(Seq<char>, Seq<char>)>,
)
    ensures
        splits_follow_windows(session_cmds(session, cwd, layout, env), session, layout),
{
    lemma_windows_splits(session, cwd, layout, env);
    let w = windows_cmds(session, cwd, layout, env);
    if layout.len() > 0 {
        lemma_words_differ();
        let last = seq!["select-window"@, "-t"@, target(session, window_name(layout[0], 0))];
        let t = w + seq![last];
        assert forall|i: int|
            0 <= i < t.len() && first_word_is(#[trigger] t[i], "split-window"@) implies exists|j: int|
                0 <= j < layout.len() && t[i].len() > 3 && t[i][1] == split_flag_v(#[trigger] layout[j].split)
                    && t[i][3] == target(session, window_name(layout[j], j)) by {
            assert(i < w.len());
            assert(t[i] == w[i]);
        }
    } else {
        assert(session_cmds(session, cwd, layout, env) =~= w);
    }
}

} // verus!
