use twrk::runner::{shell_invocation, Runner, Step};

#[test]
fn commands_run_in_order_until_done() {
    let mut r = Runner::new(2);
    assert_eq!(r.step(), Step::Run(0));
    r.record(true);
    assert_eq!(r.step(), Step::Run(1));
    r.record(true);
    assert_eq!(r.step(), Step::Done);
}

#[test]
fn first_failure_stops_the_run() {
    let mut r = Runner::new(3);
    r.record(true);
    r.record(false);
    assert_eq!(r.step(), Step::Failed(1));
    r.record(true);
    assert_eq!(r.step(), Step::Failed(1));
}

#[test]
fn no_commands_is_done_at_once() {
    let mut r = Runner::new(0);
    assert_eq!(r.step(), Step::Done);
    r.record(false);
    assert_eq!(r.step(), Step::Done);
}

#[test]
fn shell_comes_from_shell_variable() {
    let (prog, args) = shell_invocation(Some("/bin/zsh".into()), "make");
    assert_eq!(prog, "/bin/zsh");
    assert_eq!(args, vec!["-c", "make"]);
}

#[test]
fn shell_defaults_to_bin_sh() {
    let (prog, args) = shell_invocation(None, "ls -l");
    assert_eq!(prog, "/bin/sh");
    assert_eq!(args, vec!["-c", "ls -l"]);
}

#[test]
fn bails_on_first_non_zero_exit() {
    let cmds = ["touch before", "exit 7", "touch after"];
    let mut r = Runner::new(cmds.len());
    let mut ran = Vec::new();
    loop {
        match r.step() {
            Step::Run(i) => {
                ran.push(cmds[i]);
                r.record(cmds[i] != "exit 7");
            }
            Step::Done => panic!("should not finish"),
            Step::Failed(i) => {
                assert_eq!(cmds[i], "exit 7");
                break;
            }
        }
    }
    assert_eq!(ran, vec!["touch before", "exit 7"]);
}

#[test]
fn empty_commands_is_noop() {
    assert_eq!(Runner::new(0).step(), Step::Done);
}
