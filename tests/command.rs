use usbipd_manager::command::{
    attach_args, bind_args, command_line, detach_args, elevated_outcome, list_args, unbind_args,
    BoundedRun, ChildStatus, CommandError, WaitStep, DEFAULT_TIMEOUT_MS, SETTLE_DELAY_MS,
};

#[test]
fn argument_lists() {
    assert_eq!(list_args(), vec!["list"]);
    assert_eq!(bind_args("1-6", true), vec!["bind", "--busid", "1-6", "--force"]);
    assert_eq!(bind_args("1-6", false), vec!["bind", "--busid", "1-6"]);
    assert_eq!(unbind_args("2-1"), vec!["unbind", "--busid", "2-1"]);
    assert_eq!(
        attach_args("Ubuntu-24.04", "2-1", false),
        vec!["attach", "--wsl", "Ubuntu-24.04", "--busid", "2-1"]
    );
    assert_eq!(
        attach_args("Ubuntu-24.04", "2-1", true),
        vec!["attach", "--wsl", "Ubuntu-24.04", "--busid", "2-1", "--auto-attach"]
    );
    assert_eq!(detach_args("3-1"), vec!["detach", "--busid", "3-1"]);
}

#[test]
fn command_line_joins_with_spaces() {
    assert_eq!(command_line(&bind_args("1-6", true)), "bind --busid 1-6 --force");
    assert_eq!(command_line(&Vec::new()), "");
}

#[test]
fn elevated_launch_threshold() {
    assert_eq!(elevated_outcome(33), Ok(()));
    assert_eq!(elevated_outcome(42), Ok(()));
    assert_eq!(elevated_outcome(32), Err(CommandError::LaunchRefused(32)));
    assert_eq!(elevated_outcome(5), Err(CommandError::LaunchRefused(5)));
    assert_eq!(elevated_outcome(-1), Err(CommandError::LaunchRefused(-1)));
}

#[test]
fn default_delays() {
    assert_eq!(DEFAULT_TIMEOUT_MS, 20000);
    assert_eq!(SETTLE_DELAY_MS, 1000);
}

#[test]
fn hanging_detach_is_killed_and_times_out() {
    let mut run = BoundedRun::new(DEFAULT_TIMEOUT_MS);
    let mut elapsed = 0u64;
    let mut kills = 0;
    let result = loop {
        let status = if kills > 0 {
            ChildStatus::Exited { success: false, stderr: String::from("killed") }
        } else {
            ChildStatus::Running
        };
        match run.step(elapsed, status) {
            WaitStep::Wait => elapsed += 250,
            WaitStep::Kill => kills += 1,
            WaitStep::Done(r) => break r,
        }
        assert!(elapsed <= 30000, "the run must end");
    };
    assert_eq!(kills, 1);
    assert_eq!(elapsed, DEFAULT_TIMEOUT_MS);
    assert_eq!(result, Err(CommandError::Timeout));
}

#[test]
fn command_that_exits_in_time() {
    let mut run = BoundedRun::new(DEFAULT_TIMEOUT_MS);
    assert_eq!(run.step(100, ChildStatus::Running), WaitStep::Wait);
    assert_eq!(
        run.step(200, ChildStatus::Exited { success: true, stderr: String::new() }),
        WaitStep::Done(Ok(()))
    );
    let mut failing = BoundedRun::new(DEFAULT_TIMEOUT_MS);
    assert_eq!(
        failing.step(300, ChildStatus::Exited { success: false, stderr: String::from("no such device") }),
        WaitStep::Done(Err(CommandError::Failure(String::from("no such device"))))
    );
    assert!(!failing.killed);
}

#[test]
fn still_running_after_kill_waits() {
    let mut run = BoundedRun::new(10);
    assert_eq!(run.step(10, ChildStatus::Running), WaitStep::Kill);
    assert!(run.killed);
    assert_eq!(run.step(11, ChildStatus::Running), WaitStep::Wait);
    assert_eq!(
        run.step(12, ChildStatus::Exited { success: true, stderr: String::new() }),
        WaitStep::Done(Err(CommandError::Timeout))
    );
}
