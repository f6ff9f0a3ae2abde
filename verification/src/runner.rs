//! Running a list of commands one after another, stopping at the first
//! that fails: the decisions, apart from the running itself.

use vstd::prelude::*;

verus! {

/// What to do next.
#[derive(Debug, Clone, Copy, PartialEq, Eq, Structural)]
pub enum Step {
    /// Run the command at this index.
    Run(usize),
    /// Every command succeeded.
    Done,
    /// The command at this index failed; nothing more runs.
    Failed(usize),
}

/// The run after the command it asked for ended (`success` or not).
pub open spec fn recorded(v: RunnerV, success: bool) -> RunnerV {
    if v.failed || v.succeeded >= v.total {
        v
    } else if success {
        RunnerV { total: v.total, succeeded: v.succeeded + 1, failed: false }
    } else {
        RunnerV { total: v.total, succeeded: v.succeeded, failed: true }
    }
}

/// The run after the commands it asked for ended as `outcomes` says.
pub open spec fn fed(v: RunnerV, outcomes: Seq<bool>) -> RunnerV
    decreases outcomes.len(),
{
    if outcomes.len() == 0 {
        v
    } else {
        fed(recorded(v, outcomes[0]), outcomes.drop_first())
    }
}

/// Progress through `total` commands.
pub struct Runner {
    total: usize,
    next: usize,
    failed: bool,
}

/// The state of a run: how many commands, how many have succeeded, and
/// whether the one after them failed.
pub struct RunnerV {
    pub total: nat,
    pub succeeded: nat,
    pub failed: bool,
}

impl View for Runner {
    type V = RunnerV;

    closed spec fn view(&self) -> RunnerV {
        RunnerV { total: self.total as nat, succeeded: self.next as nat, failed: self.failed }
    }
}

impl Runner {
    #[verifier::type_invariant]
    closed spec fn inv(self) -> bool {
        self.next <= self.total && (self.failed ==> self.next < self.total)
    }

    /// A run of `total` commands, none run yet.
    pub fn new(total: usize) -> (r: Runner)
        ensures
            r@ == (RunnerV { total: total as nat, succeeded: 0, failed: false }),
    {
        Runner { total, next: 0, failed: false }
    }

    /// The next step: run the next command in order, or stop.
    pub fn step(&self) -> (s: Step)
        ensures
            self@.succeeded <= self@.total,
            self@.failed ==> self@.succeeded < self@.total,
            s == if self@.failed {
                Step::Failed(self@.succeeded as usize)
            } else if self@.succeeded < self@.total {
                Step::Run(self@.succeeded as usize)
            } else {
                Step::Done
            },
    {
        proof {
            use_type_invariant(self);
        }
        if self.failed {
            Step::Failed(self.next)
        } else if self.next < self.total {
            Step::Run(self.next)
        } else {
            Step::Done
        }
    }

    /// Records how the command that `step` asked for ended. Once a command
    /// has failed, or all have run, nothing changes any more.
    pub fn record(&mut self, success: bool)
        ensures
            final(self)@ == recorded(old(self)@, success),
    {
        proof {
            use_type_invariant(&*self);
        }
        if !self.failed && self.next < self.total {
            if success {
                self.next = self.next + 1;
            } else {
                self.failed = true;
            }
        }
    }
}


/// The program and arguments that run `command` with the shell: `$SHELL`
/// when it is set, `/bin/sh` otherwise.
pub fn shell_invocation(shell_var: Option<String>, command: &str) -> (r: (String, Vec<String>))
    ensures
        r.0@ == match shell_var {
            Some(s) => s@,
            None => "/bin/sh"@,
        },
        crate::config::strings_view(r.1@) == seq!["-c"@, command@],
{
    let shell = match shell_var {
        Some(s) => s,
        None => "/bin/sh".to_owned(),
    };
    let mut args: Vec<String> = Vec::new();
    args.push("-c".to_owned());
    args.push(command.to_owned());
    assert(crate::config::strings_view(args@) =~= seq!["-c"@, command@]);
    (shell, args)
}

/// Commands that all succeed run one after another, each once, in order.
pub proof fn law_all_succeed(total: nat, succeeded: nat, outcomes: Seq<bool>)
    requires
        succeeded + outcomes.len() <= total,
        forall|i: int| 0 <= i < outcomes.len() ==> outcomes[i],
    ensures
        fed(RunnerV { total, succeeded, failed: false }, outcomes) == (RunnerV {
            total,
            succeeded: succeeded + outcomes.len(),
            failed: false,
        }),
    decreases outcomes.len(),
{
    if outcomes.len() > 0 {
        assert(outcomes[0]);
        assert forall|i: int| 0 <= i < outcomes.drop_first().len() implies outcomes.drop_first()[i] by {
            assert(outcomes[i + 1]);
        }
        law_all_succeed(total, succeeded + 1, outcomes.drop_first());
    }
}

/// The first command that fails stops the run: nothing after it runs, and
/// the run stays failed whatever else is reported.
pub proof fn law_first_failure_stops(total: nat, succeeded: nat, outcomes: Seq<bool>, k: int)
    requires
        0 <= k < outcomes.len(),
        succeeded + k < total,
        forall|i: int| 0 <= i < k ==> outcomes[i],
        !outcomes[k],
    ensures
        fed(RunnerV { total, succeeded, failed: false }, outcomes) == (RunnerV {
            total,
            succeeded: (succeeded + k) as nat,
            failed: true,
        }),
    decreases outcomes.len(),
{
    if k > 0 {
        assert(outcomes[0]);
        assert forall|i: int| 0 <= i < k - 1 implies outcomes.drop_first()[i] by {
            assert(outcomes[i + 1]);
        }
        law_first_failure_stops(total, succeeded + 1, outcomes.drop_first(), k - 1);
    } else {
        lemma_failed_stays(RunnerV { total, succeeded, failed: true }, outcomes.drop_first());
    }
}

proof fn lemma_failed_stays(v: RunnerV, outcomes: Seq<bool>)
    requires
        v.failed,
    ensures
        fed(v, outcomes) == v,
    decreases outcomes.len(),
{
    if outcomes.len() > 0 {
        lemma_failed_stays(v, outcomes.drop_first());
    }
}

} // verus!
