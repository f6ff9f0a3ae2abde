//! The decisions of a launch: which config group, whether to open a
//! worktree, what the session is called, and what its processes see.

use vstd::prelude::*;
use crate::config::{Config, strings_view, GroupV, group_names, sorted_names, lemma_sorted_names_unique, resolved_layout, resolve_layout, group_worktree, group_setup};
use crate::paths::{path_file_name, file_name};
use crate::prompts::resolve_group_name;
use crate::tmux::{session_cmds, build_commands, commands_view};
use crate::text::str_eq;
use crate::session::compose;

verus! {

/// Whether the config prompt is shown: in picker mode, when `-c` was not
/// given, and the config has at least two groups to choose from.
pub open spec fn asks_for_group(picker_mode: bool, flag_given: bool, choices: nat) -> bool {
    picker_mode && !flag_given && choices >= 2
}

/// The active group when no prompt is shown: the `-c` value when given;
/// else, in picker mode, a config's only group; else `default`.
pub open spec fn unprompted_group(
    picker_mode: bool,
    flag: Option<Seq<char>>,
    names: Seq<Seq<char>>,
) -> Seq<char> {
    match flag {
        Some(f) => f,
        None => if picker_mode && names.len() == 1 {
            names[0]
        } else {
            "default"@
        },
    }
}

/// The variables every tmux process of the session sees: the active
/// config group, and `TWRK_WORKTREE=1` when the session runs in a worktree.
pub open spec fn session_env_v(group: Seq<char>, in_worktree: bool) -> Seq<(Seq<char>, Seq<char>)> {
    if in_worktree {
        seq![("TWRK_CONFIG"@, group), ("TWRK_WORKTREE"@, "1"@)]
    } else {
        seq![("TWRK_CONFIG"@, group)]
    }
}

pub open spec fn pairs_view(s: Seq<(String, String)>) -> Seq<(Seq<char>, Seq<char>)> {
    s.map_values(|p: (String, String)| (p.0@, p.1@))
}

pub fn session_env(group: &str, in_worktree: bool) -> (r: Vec<(String, String)>)
    ensures
        pairs_view(r@) == session_env_v(group@, in_worktree),
{
    let mut r: Vec<(String, String)> = Vec::new();
    r.push(("TWRK_CONFIG".to_owned(), group.to_owned()));
    if in_worktree {
        r.push(("TWRK_WORKTREE".to_owned(), "1".to_owned()));
    }
    assert(pairs_view(r@) =~= session_env_v(group@, in_worktree));
    r
}

/// The variables setup commands see: the active group, that they run in a
/// worktree, its name, and the repository root.
pub open spec fn setup_env_v(group: Seq<char>, name: Seq<char>, root: Seq<char>) -> Seq<
    (Seq<char>, Seq<char>),
> {
    seq![
        ("TWRK_CONFIG"@, group),
        ("TWRK_WORKTREE"@, "1"@),
        ("TWRK_WORKTREE_NAME"@, name),
        ("TWRK_REPO_ROOT"@, root),
    ]
}

pub fn setup_env(group: &str, name: &str, root: &str) -> (r: Vec<(String, String)>)
    ensures
        pairs_view(r@) == setup_env_v(group@, name@, root@),
{
    let mut r: Vec<(String, String)> = Vec::new();
    r.push(("TWRK_CONFIG".to_owned(), group.to_owned()));
    r.push(("TWRK_WORKTREE".to_owned(), "1".to_owned()));
    r.push(("TWRK_WORKTREE_NAME".to_owned(), name.to_owned()));
    r.push(("TWRK_REPO_ROOT".to_owned(), root.to_owned()));
    assert(pairs_view(r@) =~= setup_env_v(group@, name@, root@));
    r
}

/// The pairs as borrowed strings, the form the command builders take.
pub fn borrow_pairs(pairs: &Vec<(String, String)>) -> (r: Vec<(&str, &str)>)
    ensures
        crate::tmux::env_view(r@) == pairs_view(pairs@),
{
    let mut r: Vec<(&str, &str)> = Vec::new();
    let mut i: usize = 0;
    while i < pairs.len()
        invariant
            i <= pairs@.len(),
            r@.len() == i,
            forall|j: int|
                0 <= j < i ==> (#[trigger] r@[j]).0@ == pairs@[j].0@ && r@[j].1@ == pairs@[j].1@,
        decreases pairs@.len() - i,
    {
        r.push((pairs[i].0.as_str(), pairs[i].1.as_str()));
        i = i + 1;
    }
    assert(crate::tmux::env_view(r@) =~= pairs_view(pairs@));
    r
}

/// The session name: the project folder's name, followed by `-<worktree>`
/// when the session runs in a worktree.
pub open spec fn session_name_v(folder: Seq<char>, worktree: Option<Seq<char>>) -> Seq<char> {
    match worktree {
        Some(n) => folder + "-"@ + n,
        None => folder,
    }
}

pub fn session_name(folder: &str, worktree: Option<&str>) -> (r: String)
    ensures
        r@ == session_name_v(
            folder@,
            match worktree {
                Some(n) => Some(n@),
                None => None,
            },
        ),
{
    match worktree {
        Some(name) => compose(folder, name),
        None => folder.to_owned(),
    }
}

/// What `-w` asks for.
#[derive(Debug, Clone, PartialEq)]
pub enum WorktreeRequest {
    /// `-w` was not given: the group's default decides (or the prompt).
    Unspecified,
    /// `-w` without a name: a worktree with a random name.
    Random,
    /// `-w NAME`.
    Named(String),
}

pub fn worktree_request(flag: Option<&str>) -> (r: WorktreeRequest)
    ensures
        match flag {
            None => r == WorktreeRequest::Unspecified,
            Some(f) => if f@.len() == 0 {
                r == WorktreeRequest::Random
            } else {
                r matches WorktreeRequest::Named(n) && n@ == f@
            },
        },
{
    match flag {
        None => WorktreeRequest::Unspecified,
        Some(f) => if f.unicode_len() == 0 {
            WorktreeRequest::Random
        } else {
            WorktreeRequest::Named(f.to_owned())
        },
    }
}


/// Where a launch stands.
#[derive(Debug, Clone, Copy, PartialEq, Eq, Structural)]
pub enum Stage {
    Begin,
    LoadingConfig,
    PickingGroup,
    PromptRoot,
    PromptName,
    PromptAnswer,
    WorktreeRoot,
    WorktreeName,
    Ensuring,
    SettingUp,
    CheckingSession,
    RunningTmux,
    Attaching,
    Finished,
    Failed,
}

/// What the launch needs done next; the outcome comes back as an `Event`.
pub enum Action {
    /// Load the merged configuration seen from this directory.
    LoadConfig(String),
    /// Ask which of these config groups to use.
    PickGroup(Vec<String>),
    /// Find the git repository root of this directory.
    FindRepoRoot(String),
    /// Generate a random worktree name.
    GenerateName,
    /// Ask whether to create a worktree (with this default) and its name
    /// (suggesting this one).
    AskWorktree(bool, String),
    /// Make sure worktree `name` of the repository at `root` exists.
    EnsureWorktree(String, String),
    /// Run these setup commands in this directory with this environment.
    RunSetup(String, Vec<(String, String)>, Vec<String>),
    /// Check whether a tmux session of this name exists.
    CheckSession(String),
    /// Run these tmux commands, in order.
    RunTmux(Vec<Vec<String>>),
    /// Attach to (or switch to) this session.
    Attach(String),
    /// Give up with this message.
    Fail(String),
    /// Nothing more to do.
    Finish,
}

/// The outcome of the last action.
pub enum Event {
    Start,
    ConfigLoaded(Config),
    GroupPicked(String),
    RepoRoot(Option<String>),
    NameGenerated(String),
    WorktreeAnswered(Option<String>),
    /// The worktree's path, and whether it was created just now.
    WorktreeReady(String, bool),
    SetupFinished,
    SessionChecked(bool),
    TmuxFinished,
    Attached,
}

pub enum ActionV {
    LoadConfig(Seq<char>),
    PickGroup(Seq<Seq<char>>),
    FindRepoRoot(Seq<char>),
    GenerateName,
    AskWorktree(bool, Seq<char>),
    EnsureWorktree(Seq<char>, Seq<char>),
    RunSetup(Seq<char>, Seq<(Seq<char>, Seq<char>)>, Seq<Seq<char>>),
    CheckSession(Seq<char>),
    RunTmux(Seq<Seq<Seq<char>>>),
    Attach(Seq<char>),
    Fail(Seq<char>),
    Finish,
}

pub enum EventV {
    Start,
    ConfigLoaded(Map<Seq<char>, GroupV>),
    GroupPicked(Seq<char>),
    RepoRoot(Option<Seq<char>>),
    NameGenerated(Seq<char>),
    WorktreeAnswered(Option<Seq<char>>),
    WorktreeReady(Seq<char>, bool),
    SetupFinished,
    SessionChecked(bool),
    TmuxFinished,
    Attached,
}

impl View for Action {
    type V = ActionV;

    open spec fn view(&self) -> ActionV {
        match self {
            Action::LoadConfig(d) => ActionV::LoadConfig(d@),
            Action::PickGroup(n) => ActionV::PickGroup(strings_view(n@)),
            Action::FindRepoRoot(d) => ActionV::FindRepoRoot(d@),
            Action::GenerateName => ActionV::GenerateName,
            Action::AskWorktree(b, p) => ActionV::AskWorktree(*b, p@),
            Action::EnsureWorktree(r, n) => ActionV::EnsureWorktree(r@, n@),
            Action::RunSetup(w, e, c) => ActionV::RunSetup(w@, pairs_view(e@), strings_view(c@)),
            Action::CheckSession(s) => ActionV::CheckSession(s@),
            Action::RunTmux(c) => ActionV::RunTmux(commands_view(c@)),
            Action::Attach(s) => ActionV::Attach(s@),
            Action::Fail(m) => ActionV::Fail(m@),
            Action::Finish => ActionV::Finish,
        }
    }
}

impl View for Event {
    type V = EventV;

    open spec fn view(&self) -> EventV {
        match self {
            Event::Start => EventV::Start,
            Event::ConfigLoaded(c) => EventV::ConfigLoaded(c@),
            Event::GroupPicked(g) => EventV::GroupPicked(g@),
            Event::RepoRoot(r) => EventV::RepoRoot(crate::config::opt_view(*r)),
            Event::NameGenerated(n) => EventV::NameGenerated(n@),
            Event::WorktreeAnswered(a) => EventV::WorktreeAnswered(crate::config::opt_view(*a)),
            Event::WorktreeReady(p, c) => EventV::WorktreeReady(p@, *c),
            Event::SetupFinished => EventV::SetupFinished,
            Event::SessionChecked(b) => EventV::SessionChecked(*b),
            Event::TmuxFinished => EventV::TmuxFinished,
            Event::Attached => EventV::Attached,
        }
    }
}

/// The state of a launch, from the command line to the attached session.
pub struct Launch {
    picker_mode: bool,
    config_flag: Option<String>,
    worktree_flag: Option<String>,
    project: String,
    stage: Stage,
    cfg: Config,
    active: String,
    group_default: bool,
    want: bool,
    name_override: Option<String>,
    root: String,
    name: String,
    cwd: String,
    folder: String,
    in_worktree: bool,
    session: String,
}

pub struct LaunchV {
    /// No project path was given: the project came from the picker, and
    /// the config and worktree prompts may be shown.
    pub picker_mode: bool,
    /// The `-c` value, when it was given on the command line.
    pub config_flag: Option<Seq<char>>,
    /// The `-w` value, when the flag was given.
    pub worktree_flag: Option<Seq<char>>,
    pub project: Seq<char>,
    pub stage: Stage,
    pub cfg: Map<Seq<char>, GroupV>,
    /// The active config group.
    pub active: Seq<char>,
    /// The active group's worktree default (false when unset).
    pub group_default: bool,
    /// Whether a worktree is wanted.
    pub want: bool,
    /// The worktree name chosen so far, if any.
    pub name_override: Option<Seq<char>>,
    pub root: Seq<char>,
    /// The worktree's name.
    pub name: Seq<char>,
    /// The directory the session starts in.
    pub cwd: Seq<char>,
    /// The directory whose name names the session.
    pub folder: Seq<char>,
    pub in_worktree: bool,
    pub session: Seq<char>,
}

impl View for Launch {
    type V = LaunchV;

    closed spec fn view(&self) -> LaunchV {
        LaunchV {
            picker_mode: self.picker_mode,
            config_flag: crate::config::opt_view(self.config_flag),
            worktree_flag: crate::config::opt_view(self.worktree_flag),
            project: self.project@,
            stage: self.stage,
            cfg: self.cfg@,
            active: self.active@,
            group_default: self.group_default,
            want: self.want,
            name_override: crate::config::opt_view(self.name_override),
            root: self.root@,
            name: self.name@,
            cwd: self.cwd@,
            folder: self.folder@,
            in_worktree: self.in_worktree,
            session: self.session@,
        }
    }
}

/// The active group from the `-c` value and the prompt's answer.
pub open spec fn resolved_group(flag: Option<Seq<char>>, picked: Option<Seq<char>>) -> Seq<char> {
    match (flag, picked) {
        (Some(f), _) => f,
        (None, Some(p)) => p,
        (None, None) => "default"@,
    }
}

/// The worktree default of group `id` (false when unset or missing).
pub open spec fn worktree_default(cfg: Map<Seq<char>, GroupV>, id: Seq<char>) -> bool {
    if cfg.dom().contains(id) && cfg[id].worktree is Some {
        cfg[id].worktree->0
    } else {
        false
    }
}

/// The setup commands of group `id`, if it has any.
pub open spec fn setup_of(cfg: Map<Seq<char>, GroupV>, id: Seq<char>) -> Option<Seq<Seq<char>>> {
    if cfg.dom().contains(id) {
        cfg[id].setup
    } else {
        None
    }
}

/// Name the session after the folder, or fail when the folder has no name.
pub open spec fn check_session_v(s: LaunchV) -> (LaunchV, ActionV) {
    match path_file_name(s.folder) {
        None => (LaunchV { stage: Stage::Failed, ..s }, ActionV::Fail("project path has no folder name"@)),
        Some(f) => {
            let session = session_name_v(f, if s.in_worktree { Some(s.name) } else { None });
            (
                LaunchV { session, stage: Stage::CheckingSession, ..s },
                ActionV::CheckSession(session),
            )
        },
    }
}

/// The session starts in the project itself.
pub open spec fn without_worktree(s: LaunchV) -> LaunchV {
    LaunchV { cwd: s.project, folder: s.project, in_worktree: false, ..s }
}

/// Once it is known whether a worktree is wanted.
pub open spec fn begin_worktree_v(s: LaunchV) -> (LaunchV, ActionV) {
    if s.want {
        (LaunchV { stage: Stage::WorktreeRoot, ..s }, ActionV::FindRepoRoot(s.project))
    } else {
        check_session_v(without_worktree(s))
    }
}

/// Once the active group is known.
pub open spec fn after_group_v(s: LaunchV) -> (LaunchV, ActionV) {
    match s.worktree_flag {
        Some(f) => begin_worktree_v(
            LaunchV {
                want: true,
                name_override: if f.len() == 0 {
                    None
                } else {
                    Some(f)
                },
                ..s
            },
        ),
        None => {
            let d = worktree_default(s.cfg, s.active);
            if s.picker_mode {
                (
                    LaunchV { group_default: d, stage: Stage::PromptRoot, ..s },
                    ActionV::FindRepoRoot(s.project),
                )
            } else {
                begin_worktree_v(LaunchV { group_default: d, want: d, name_override: None, ..s })
            }
        },
    }
}

/// How a launch proceeds: from its state and the outcome of the last
/// action, its next state and the next action.
pub open spec fn next(s: LaunchV, e: EventV) -> (LaunchV, ActionV) {
    match (s.stage, e) {
        (Stage::Begin, EventV::Start) => (
            LaunchV { stage: Stage::LoadingConfig, ..s },
            ActionV::LoadConfig(s.project),
        ),
        (Stage::LoadingConfig, EventV::ConfigLoaded(c)) => {
            let names = group_names(c);
            if asks_for_group(s.picker_mode, s.config_flag is Some, names.len()) {
                (LaunchV { cfg: c, stage: Stage::PickingGroup, ..s }, ActionV::PickGroup(names))
            } else {
                after_group_v(
                    LaunchV { cfg: c, active: unprompted_group(s.picker_mode, s.config_flag, names), ..s },
                )
            }
        },
        (Stage::PickingGroup, EventV::GroupPicked(g)) => after_group_v(
            LaunchV { active: resolved_group(s.config_flag, Some(g)), ..s },
        ),
        (Stage::PromptRoot, EventV::RepoRoot(r)) => if r is Some {
            (LaunchV { stage: Stage::PromptName, ..s }, ActionV::GenerateName)
        } else {
            begin_worktree_v(LaunchV { want: s.group_default, name_override: None, ..s })
        },
        (Stage::PromptName, EventV::NameGenerated(n)) => (
            LaunchV { stage: Stage::PromptAnswer, ..s },
            ActionV::AskWorktree(s.group_default, n),
        ),
        (Stage::PromptAnswer, EventV::WorktreeAnswered(a)) => match a {
            None => begin_worktree_v(LaunchV { want: false, name_override: None, ..s }),
            Some(n) => begin_worktree_v(LaunchV { want: true, name_override: Some(n), ..s }),
        },
        (Stage::WorktreeRoot, EventV::RepoRoot(r)) => match r {
            Some(root) => match s.name_override {
                Some(n) => (
                    LaunchV { root, name: n, stage: Stage::Ensuring, ..s },
                    ActionV::EnsureWorktree(root, n),
                ),
                None => (LaunchV { root, stage: Stage::WorktreeName, ..s }, ActionV::GenerateName),
            },
            None => check_session_v(without_worktree(s)),
        },
        (Stage::WorktreeName, EventV::NameGenerated(n)) => (
            LaunchV { name: n, stage: Stage::Ensuring, ..s },
            ActionV::EnsureWorktree(s.root, n),
        ),
        (Stage::Ensuring, EventV::WorktreeReady(path, created)) => {
            let s1 = LaunchV { cwd: path, folder: s.root, in_worktree: true, ..s };
            match setup_of(s.cfg, s.active) {
                Some(cmds) => if created && cmds.len() > 0 {
                    (
                        LaunchV { stage: Stage::SettingUp, ..s1 },
                        ActionV::RunSetup(path, setup_env_v(s.active, s.name, s.root), cmds),
                    )
                } else {
                    check_session_v(s1)
                },
                None => check_session_v(s1),
            }
        },
        (Stage::SettingUp, EventV::SetupFinished) => check_session_v(s),
        (Stage::CheckingSession, EventV::SessionChecked(exists)) => if exists {
            (LaunchV { stage: Stage::Attaching, ..s }, ActionV::Attach(s.session))
        } else {
            (
                LaunchV { stage: Stage::RunningTmux, ..s },
                ActionV::RunTmux(
                    session_cmds(
                        s.session,
                        s.cwd,
                        resolved_layout(s.cfg, s.active),
                        session_env_v(s.active, s.in_worktree),
                    ),
                ),
            )
        },
        (Stage::RunningTmux, EventV::TmuxFinished) => (
            LaunchV { stage: Stage::Attaching, ..s },
            ActionV::Attach(s.session),
        ),
        (Stage::Attaching, EventV::Attached) => (
            LaunchV { stage: Stage::Finished, ..s },
            ActionV::Finish,
        ),
        _ => (s, ActionV::Fail("unexpected event"@)),
    }
}

/// The state a launch starts in.
pub open spec fn initial(
    picker_mode: bool,
    config_flag: Option<Seq<char>>,
    worktree_flag: Option<Seq<char>>,
    project: Seq<char>,
) -> LaunchV {
    LaunchV {
        picker_mode,
        config_flag,
        worktree_flag,
        project,
        stage: Stage::Begin,
        cfg: Map::empty(),
        active: Seq::empty(),
        group_default: false,
        want: false,
        name_override: None,
        root: Seq::empty(),
        name: Seq::empty(),
        cwd: Seq::empty(),
        folder: Seq::empty(),
        in_worktree: false,
        session: Seq::empty(),
    }
}

fn copy_opt(o: &Option<String>) -> (r: Option<String>)
    ensures
        crate::config::opt_view(r) == crate::config::opt_view(*o),
{
    match o {
        Some(s) => Some(s.clone()),
        None => None,
    }
}

fn copy_slice(v: &[String]) -> (r: Vec<String>)
    ensures
        strings_view(r@) == strings_view(v@),
{
    let mut out: Vec<String> = Vec::new();
    let mut i: usize = 0;
    while i < v.len()
        invariant
            i <= v@.len(),
            out@.len() == i,
            forall|j: int| 0 <= j < i ==> (#[trigger] out@[j])@ == v@[j]@,
        decreases v@.len() - i,
    {
        out.push(v[i].clone());
        i = i + 1;
    }
    assert(strings_view(out@) =~= strings_view(v@));
    out
}

impl Launch {
    /// A launch for `project`: `picker_mode` when the project came from the
    /// picker; the `-c` value when it was given; the `-w` value when the flag
    /// was given (empty for a random name).
    pub fn new(
        picker_mode: bool,
        config_flag: Option<String>,
        worktree_flag: Option<String>,
        project: String,
    ) -> (l: Launch)
        ensures
            l@ == initial(
                picker_mode,
                crate::config::opt_view(config_flag),
                crate::config::opt_view(worktree_flag),
                project@,
            ),
    {
        let l = Launch {
            picker_mode,
            config_flag,
            worktree_flag,
            project,
            stage: Stage::Begin,
            cfg: Config::new(),
            active: String::new(),
            group_default: false,
            want: false,
            name_override: None,
            root: String::new(),
            name: String::new(),
            cwd: String::new(),
            folder: String::new(),
            in_worktree: false,
            session: String::new(),
        };
        assert(l@.cfg =~= Map::<Seq<char>, GroupV>::empty());
        l
    }

    /// The active config group (once known).
    pub fn active_group(&self) -> (r: &str)
        ensures
            r@ == self@.active,
    {
        self.active.as_str()
    }

    /// The worktree the session runs in, if it does.
    pub fn worktree_name(&self) -> (r: Option<&str>)
        ensures
            match r {
                Some(n) => self@.in_worktree && n@ == self@.name,
                None => !self@.in_worktree,
            },
    {
        if self.in_worktree {
            Some(self.name.as_str())
        } else {
            None
        }
    }

    /// The session's name (once known).
    pub fn session(&self) -> (r: &str)
        ensures
            r@ == self@.session,
    {
        self.session.as_str()
    }

    /// Where the launch stands.
    pub fn stage(&self) -> (r: Stage)
        ensures
            r == self@.stage,
    {
        self.stage
    }

    fn check_session(&mut self) -> (a: Action)
        ensures
            (final(self)@, a@) == check_session_v(old(self)@),
    {
        match file_name(self.folder.as_str()) {
            None => {
                self.stage = Stage::Failed;
                Action::Fail("project path has no folder name".to_owned())
            },
            Some(f) => {
                let wt: Option<&str> = if self.in_worktree {
                    Some(self.name.as_str())
                } else {
                    None
                };
                let session = session_name(f.as_str(), wt);
                self.session = session.clone();
                self.stage = Stage::CheckingSession;
                Action::CheckSession(session)
            },
        }
    }

    fn no_worktree(&mut self)
        ensures
            final(self)@ == without_worktree(old(self)@),
    {
        self.cwd = self.project.clone();
        self.folder = self.project.clone();
        self.in_worktree = false;
    }

    fn begin_worktree(&mut self) -> (a: Action)
        ensures
            (final(self)@, a@) == begin_worktree_v(old(self)@),
    {
        if self.want {
            self.stage = Stage::WorktreeRoot;
            Action::FindRepoRoot(self.project.clone())
        } else {
            self.no_worktree();
            self.check_session()
        }
    }

    fn after_group(&mut self) -> (a: Action)
        ensures
            (final(self)@, a@) == after_group_v(old(self)@),
    {
        match &self.worktree_flag {
            Some(f) => {
                let o: Option<String> = if f.as_str().unicode_len() == 0 {
                    None
                } else {
                    Some(f.clone())
                };
                self.want = true;
                self.name_override = o;
                self.begin_worktree()
            },
            None => {
                let d = match group_worktree(&self.cfg, self.active.as_str()) {
                    Some(b) => b,
                    None => false,
                };
                if self.picker_mode {
                    self.group_default = d;
                    self.stage = Stage::PromptRoot;
                    Action::FindRepoRoot(self.project.clone())
                } else {
                    self.group_default = d;
                    self.want = d;
                    self.name_override = None;
                    self.begin_worktree()
                }
            },
        }
    }

    /// Takes the outcome of the last action and gives the next action.
    pub fn step(&mut self, event: Event) -> (a: Action)
        ensures
            (final(self)@, a@) == next(old(self)@, event@),
    {
        match (self.stage, event) {
            (Stage::Begin, Event::Start) => {
                self.stage = Stage::LoadingConfig;
                Action::LoadConfig(self.project.clone())
            },
            (Stage::LoadingConfig, Event::ConfigLoaded(c)) => {
                let names = c.keys();
                self.cfg = c;
                if self.picker_mode && self.config_flag.is_none() && names.len() >= 2 {
                    self.stage = Stage::PickingGroup;
                    Action::PickGroup(names)
                } else {
                    let flag: Option<&str> = match &self.config_flag {
                        Some(f) => Some(f.as_str()),
                        None => None,
                    };
                    let lone: Option<&str> = if self.picker_mode && names.len() == 1 {
                        Some(names[0].as_str())
                    } else {
                        None
                    };
                    self.active = resolve_group_name(flag, lone);
                    self.after_group()
                }
            },
            (Stage::PickingGroup, Event::GroupPicked(g)) => {
                let flag: Option<&str> = match &self.config_flag {
                    Some(f) => Some(f.as_str()),
                    None => None,
                };
                self.active = resolve_group_name(flag, Some(g.as_str()));
                self.after_group()
            },
            (Stage::PromptRoot, Event::RepoRoot(r)) => {
                if r.is_some() {
                    self.stage = Stage::PromptName;
                    Action::GenerateName
                } else {
                    self.want = self.group_default;
                    self.name_override = None;
                    self.begin_worktree()
                }
            },
            (Stage::PromptName, Event::NameGenerated(n)) => {
                self.stage = Stage::PromptAnswer;
                Action::AskWorktree(self.group_default, n)
            },
            (Stage::PromptAnswer, Event::WorktreeAnswered(a)) => {
                match a {
                    None => {
                        self.want = false;
                        self.name_override = None;
                    },
                    Some(n) => {
                        self.want = true;
                        self.name_override = Some(n);
                    },
                }
                self.begin_worktree()
            },
            (Stage::WorktreeRoot, Event::RepoRoot(r)) => {
                match r {
                    Some(root) => {
                        self.root = root.clone();
                        match copy_opt(&self.name_override) {
                            Some(n) => {
                                self.name = n.clone();
                                self.stage = Stage::Ensuring;
                                Action::EnsureWorktree(root, n)
                            },
                            None => {
                                self.stage = Stage::WorktreeName;
                                Action::GenerateName
                            },
                        }
                    },
                    None => {
                        self.no_worktree();
                        self.check_session()
                    },
                }
            },
            (Stage::WorktreeName, Event::NameGenerated(n)) => {
                self.name = n.clone();
                self.stage = Stage::Ensuring;
                Action::EnsureWorktree(self.root.clone(), n)
            },
            (Stage::Ensuring, Event::WorktreeReady(path, created)) => {
                let setup = match group_setup(&self.cfg, self.active.as_str()) {
                    Some(cmds) => Some(copy_slice(cmds)),
                    None => None,
                };
                self.cwd = path.clone();
                self.folder = self.root.clone();
                self.in_worktree = true;
                match setup {
                    Some(cmds) => {
                        if created && cmds.len() > 0 {
                            let env = setup_env(
                                self.active.as_str(),
                                self.name.as_str(),
                                self.root.as_str(),
                            );
                            self.stage = Stage::SettingUp;
                            Action::RunSetup(path, env, cmds)
                        } else {
                            self.check_session()
                        }
                    },
                    None => self.check_session(),
                }
            },
            (Stage::SettingUp, Event::SetupFinished) => self.check_session(),
            (Stage::CheckingSession, Event::SessionChecked(exists)) => {
                if exists {
                    self.stage = Stage::Attaching;
                    Action::Attach(self.session.clone())
                } else {
                    let layout = resolve_layout(&self.cfg, self.active.as_str());
                    let env = session_env(self.active.as_str(), self.in_worktree);
                    let env_refs = borrow_pairs(&env);
                    let cmds = build_commands(
                        self.session.as_str(),
                        self.cwd.as_str(),
                        &layout,
                        env_refs.as_slice(),
                    );
                    self.stage = Stage::RunningTmux;
                    Action::RunTmux(cmds)
                }
            },
            (Stage::RunningTmux, Event::TmuxFinished) => {
                self.stage = Stage::Attaching;
                Action::Attach(self.session.clone())
            },
            (Stage::Attaching, Event::Attached) => {
                self.stage = Stage::Finished;
                Action::Finish
            },
            _ => Action::Fail("unexpected event".to_owned()),
        }
    }
}


/// Setup commands run only right after a worktree was created, in that
/// worktree, with the active group's (non-empty) setup list and the setup
/// environment.
pub proof fn law_setup_only_after_fresh_worktree(s: LaunchV, e: EventV)
    requires
        next(s, e).1 is RunSetup,
    ensures
        s.stage == Stage::Ensuring,
        e matches EventV::WorktreeReady(path, created) && created && next(s, e).1 == ActionV::RunSetup(
            path,
            setup_env_v(s.active, s.name, s.root),
            setup_of(s.cfg, s.active)->0,
        ),
        setup_of(s.cfg, s.active) matches Some(cmds) && cmds.len() > 0,
{
}

/// Re-using an existing worktree never re-runs its setup.
pub proof fn law_existing_worktree_skips_setup(s: LaunchV, path: Seq<char>)
    ensures
        !(next(s, EventV::WorktreeReady(path, false)).1 is RunSetup),
{
}

/// The tmux commands that create a session are exactly those for the
/// active group's layout, in the chosen directory, with `TWRK_CONFIG` set to
/// the active group and `TWRK_WORKTREE=1` exactly when in a worktree.
pub proof fn law_session_built_from_active_layout(s: LaunchV, e: EventV)
    requires
        next(s, e).1 is RunTmux,
    ensures
        s.stage == Stage::CheckingSession,
        e == EventV::SessionChecked(false),
        next(s, e).1 == ActionV::RunTmux(
            session_cmds(
                s.session,
                s.cwd,
                resolved_layout(s.cfg, s.active),
                session_env_v(s.active, s.in_worktree),
            ),
        ),
{
}

/// An existing session is only attached to: nothing is created in it.
pub proof fn law_existing_session_only_attached(s: LaunchV)
    requires
        s.stage == Stage::CheckingSession,
    ensures
        next(s, EventV::SessionChecked(true)).1 == ActionV::Attach(s.session),
{
}

/// While setup runs, only its successful end moves the launch on: any other
/// outcome leaves the state as it was and creates no session.
pub proof fn law_setup_failure_stops_launch(s: LaunchV, e: EventV)
    requires
        s.stage == Stage::SettingUp,
        e != EventV::SetupFinished,
    ensures
        next(s, e).0 == s,
        next(s, e).1 is Fail,
{
}

/// The config prompt is offered only in picker mode, only when `-c` was
/// not given, and only with at least two groups to choose from: exactly the
/// config's own groups, in name order.
pub proof fn law_group_prompt_conditions(s: LaunchV, e: EventV)
    requires
        next(s, e).1 is PickGroup,
    ensures
        s.picker_mode,
        s.config_flag is None,
        e matches EventV::ConfigLoaded(c) && next(s, e).1 == ActionV::PickGroup(group_names(c)),
        next(s, e).1->PickGroup_0.len() >= 2,
{
}

/// In picker mode without `-c`, a config with a single group uses it with
/// no prompt, and a config without groups uses `default`.
pub proof fn law_lone_group_needs_no_prompt(s: LaunchV, c: Map<Seq<char>, GroupV>)
    requires
        s.stage == Stage::LoadingConfig,
        s.picker_mode,
        s.config_flag is None,
        c.dom().finite(),
        c.dom().len() <= 1,
    ensures
        !(next(s, EventV::ConfigLoaded(c)).1 is PickGroup),
        c.dom().len() == 1 ==> c.dom().contains(next(s, EventV::ConfigLoaded(c)).0.active),
        c.dom().len() == 0 ==> next(s, EventV::ConfigLoaded(c)).0.active == "default"@,
{
    lemma_few_group_names(c);
}

/// The names of a configuration with at most one group.
proof fn lemma_few_group_names(c: Map<Seq<char>, GroupV>)
    requires
        c.dom().finite(),
        c.dom().len() <= 1,
    ensures
        c.dom().len() == 0 ==> group_names(c) == Seq::<Seq<char>>::empty(),
        c.dom().len() == 1 ==> group_names(c) == seq![c.dom().choose()] && c.dom().contains(
            c.dom().choose(),
        ),
{
    let k = c.dom().choose();
    let w = if c.dom().len() == 0 {
        Seq::<Seq<char>>::empty()
    } else {
        seq![k]
    };
    vstd::set_lib::lemma_set_empty_equivalency_len(c.dom());
    if c.dom().len() == 1 {
        assert(c.dom().contains(k));
        assert(c.dom().remove(k).len() == 0);
        vstd::set_lib::lemma_set_empty_equivalency_len(c.dom().remove(k));
    }
    assert forall|x: Seq<char>| #[trigger] c.dom().contains(x) <==> w.contains(x) by {
        if w.contains(x) {
            let i: int = choose|i: int| 0 <= i < w.len() && w[i] == x;
            assert(x == k);
        }
        if c.dom().contains(x) {
            if x != k {
                assert(c.dom().remove(k).contains(x));
            }
            assert(w[0] == x);
        }
    }
    assert(sorted_names(w));
    let g = group_names(c);
    assert(sorted_names(g) && forall|x: Seq<char>| #[trigger] c.dom().contains(x) <==> g.contains(x));
    assert forall|x: Seq<char>| g.contains(x) <==> w.contains(x) by {
        assert(c.dom().contains(x) <==> g.contains(x));
        assert(c.dom().contains(x) <==> w.contains(x));
    }
    lemma_sorted_names_unique(g, w);
}

/// A session in a worktree is named `<project folder>-<worktree>`; without
/// a worktree, after the project folder.
pub proof fn law_session_name(s: LaunchV)
    requires
        path_file_name(s.folder) is Some,
    ensures
        check_session_v(s).1 == ActionV::CheckSession(
            if s.in_worktree {
                path_file_name(s.folder)->0 + "-"@ + s.name
            } else {
                path_file_name(s.folder)->0
            },
        ),
{
}

/// In the worktree prompt's stages, the launch is in picker mode, `-w` was
/// not given, and the prompt's default is the active group's `worktree`.
pub open spec fn prompt_stages_consistent(s: LaunchV) -> bool {
    (s.stage == Stage::PromptRoot || s.stage == Stage::PromptName || s.stage == Stage::PromptAnswer)
        ==> s.picker_mode && s.worktree_flag is None && s.group_default == worktree_default(
        s.cfg,
        s.active,
    )
}

/// Every launch starts consistent, and every step keeps it so.
pub proof fn law_prompt_consistency_kept(s: LaunchV, e: EventV)
    requires
        prompt_stages_consistent(s),
    ensures
        prompt_stages_consistent(next(s, e).0),
        prompt_stages_consistent(initial(s.picker_mode, s.config_flag, s.worktree_flag, s.project)),
{
}

/// The worktree prompt is shown only in picker mode and only when `-w` was
/// not given; its default is the active group's `worktree` (false when
/// unset).
pub proof fn law_worktree_prompt_conditions(s: LaunchV, e: EventV)
    requires
        prompt_stages_consistent(s),
        next(s, e).1 is AskWorktree,
    ensures
        s.picker_mode,
        s.worktree_flag is None,
        next(s, e).1->AskWorktree_0 == worktree_default(s.cfg, s.active),
{
}

/// `-w NAME` asks for a worktree named `NAME`; `-w` alone for one with a
/// generated name. Either way the prompts are skipped.
pub proof fn law_worktree_flag(s: LaunchV, f: Seq<char>)
    requires
        s.worktree_flag == Some(f),
    ensures
        after_group_v(s).0.want,
        after_group_v(s).0.stage != Stage::PromptRoot,
        f.len() > 0 ==> after_group_v(s).0.name_override == Some(f),
        f.len() == 0 ==> after_group_v(s).0.name_override is None,
{
}

/// Once the repository root is known, a chosen name is the worktree's name;
/// without one, a name is generated first.
pub proof fn law_worktree_name_used(s: LaunchV, root: Seq<char>)
    requires
        s.stage == Stage::WorktreeRoot,
    ensures
        s.name_override matches Some(n) ==> next(s, EventV::RepoRoot(Some(root))).1
            == ActionV::EnsureWorktree(root, n),
        s.name_override is None ==> next(s, EventV::RepoRoot(Some(root))).1 == ActionV::GenerateName,
{
}

/// In picker mode without `-c`, a config with two or more groups always
/// brings up the config prompt, offering exactly its groups.
pub proof fn law_several_groups_prompt(s: LaunchV, c: Map<Seq<char>, GroupV>)
    requires
        s.stage == Stage::LoadingConfig,
        s.picker_mode,
        s.config_flag is None,
        group_names(c).len() >= 2,
    ensures
        next(s, EventV::ConfigLoaded(c)).1 == ActionV::PickGroup(group_names(c)),
        next(s, EventV::ConfigLoaded(c)).0.stage == Stage::PickingGroup,
{
}

/// Outside a git repository no worktree is used: the session starts in the
/// project itself, and the worktree prompt is not shown.
pub proof fn law_no_repository_no_worktree(s: LaunchV)
    requires
        s.stage == Stage::WorktreeRoot || s.stage == Stage::PromptRoot,
    ensures
        s.stage == Stage::WorktreeRoot ==> {
            let t = next(s, EventV::RepoRoot(None)).0;
            &&& !t.in_worktree
            &&& t.cwd == s.project
            &&& t.folder == s.project
        },
        s.stage == Stage::PromptRoot ==> !(next(s, EventV::RepoRoot(None)).1 is AskWorktree) && !(next(
            s,
            EventV::RepoRoot(None),
        ).1 is GenerateName),
{
}

/// With a project path and no `-w`, a worktree is wanted exactly when the
/// active group's `worktree` is true (false when unset): the repository
/// root is then looked up; otherwise the session opens in the project.
pub proof fn law_path_mode_worktree_follows_group(s: LaunchV, c: Map<Seq<char>, GroupV>)
    requires
        s.stage == Stage::LoadingConfig,
        !s.picker_mode,
        s.worktree_flag is None,
    ensures
        ({
            let (t, a) = next(s, EventV::ConfigLoaded(c));
            &&& t.cfg == c
            &&& t.want == worktree_default(c, t.active)
            &&& worktree_default(c, t.active) ==> a == ActionV::FindRepoRoot(s.project)
            &&& !worktree_default(c, t.active) ==> !t.in_worktree && t.cwd == s.project && (
            a is CheckSession || a is Fail)
        }),
{
}

/// Once the worktree is ready, the session runs in it and is named after the
/// repository root's folder and the worktree: `<root folder>-<name>`.
pub proof fn law_worktree_session_named_after_repository(s: LaunchV, p: Seq<char>, created: bool)
    requires
        s.stage == Stage::Ensuring,
    ensures
        ({
            let (t, a) = next(s, EventV::WorktreeReady(p, created));
            &&& t.folder == s.root
            &&& t.cwd == p
            &&& t.in_worktree
            &&& a matches ActionV::CheckSession(n) ==> path_file_name(s.root) matches Some(f) && n
                == f + "-"@ + s.name
            &&& a is RunSetup ==> (next(t, EventV::SetupFinished).1 matches ActionV::CheckSession(n)
                ==> path_file_name(s.root) matches Some(f) && n == f + "-"@ + s.name)
        }),
{
}

/// The repository root that git reports is the one the worktree is made in
/// and the session is named after.
pub proof fn law_repository_root_kept(s: LaunchV, root: Seq<char>)
    requires
        s.stage == Stage::WorktreeRoot,
    ensures
        next(s, EventV::RepoRoot(Some(root))).0.root == root,
{
}

} // verus!
