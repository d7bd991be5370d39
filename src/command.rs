//! Invocations of the backend tool: the argument lists, how a one-shot run is
//! judged, and the decisions of a run that is bounded by a timeout.
use vstd::prelude::*;

use crate::text::join_words;

verus! {

/// How long callers let a one-shot command run, in milliseconds.
pub const DEFAULT_TIMEOUT_MS: u64 = 20000;

/// How long to wait after a mutating command before listing again, in milliseconds.
pub const SETTLE_DELAY_MS: u64 = 1000;

/// Return codes of the elevated launch mechanism above this value mean that
/// the launch succeeded.
pub const LAUNCH_OK_ABOVE: i64 = 32;

/// Why a command did not succeed.
#[derive(Clone, Debug, PartialEq, Eq)]
pub enum CommandError {
    /// The process could not be started; the text says why.
    Launch(String),
    /// The elevated launch was refused with this return code.
    LaunchRefused(i64),
    /// The process ran past its deadline and was killed.
    Timeout,
    /// The process exited with a failure; the text is its standard error.
    Failure(String),
}

/// The views of a list of arguments.
pub open spec fn args_view(v: Seq<String>) -> Seq<Seq<char>> {
    v.map_values(|s: String| s@)
}

fn text_of(s: &str) -> (r: String)
    ensures
        r@ == s@,
{
    String::from_str(s)
}

/// Arguments that list the devices.
pub fn list_args() -> (r: Vec<String>)
    ensures
        args_view(r@) == seq!["list"@],
{
    let r = vec![text_of("list")];
    assert(args_view(r@) =~= seq!["list"@]);
    r
}

/// Arguments that share a device (`--force` binds it even where a driver claims it).
pub fn bind_args(bus_id: &str, force: bool) -> (r: Vec<String>)
    ensures
        force ==> args_view(r@) == seq!["bind"@, "--busid"@, bus_id@, "--force"@],
        !force ==> args_view(r@) == seq!["bind"@, "--busid"@, bus_id@],
{
    let mut r = vec![text_of("bind"), text_of("--busid"), text_of(bus_id)];
    if force {
        r.push(text_of("--force"));
        assert(args_view(r@) =~= seq!["bind"@, "--busid"@, bus_id@, "--force"@]);
    } else {
        assert(args_view(r@) =~= seq!["bind"@, "--busid"@, bus_id@]);
    }
    r
}

/// Arguments that stop sharing a device.
pub fn unbind_args(bus_id: &str) -> (r: Vec<String>)
    ensures
        args_view(r@) == seq!["unbind"@, "--busid"@, bus_id@],
{
    let r = vec![text_of("unbind"), text_of("--busid"), text_of(bus_id)];
    assert(args_view(r@) =~= seq!["unbind"@, "--busid"@, bus_id@]);
    r
}

/// Arguments that attach a device to the guest `target`; with `auto`, the
/// process stays and attaches the device again whenever it comes back.
pub fn attach_args(target: &str, bus_id: &str, auto: bool) -> (r: Vec<String>)
    ensures
        auto ==> args_view(r@) == seq![
            "attach"@,
            "--wsl"@,
            target@,
            "--busid"@,
            bus_id@,
            "--auto-attach"@,
        ],
        !auto ==> args_view(r@) == seq!["attach"@, "--wsl"@, target@, "--busid"@, bus_id@],
{
    let mut r = vec![
        text_of("attach"),
        text_of("--wsl"),
        text_of(target),
        text_of("--busid"),
        text_of(bus_id),
    ];
    if auto {
        r.push(text_of("--auto-attach"));
        assert(args_view(r@) =~= seq![
            "attach"@,
            "--wsl"@,
            target@,
            "--busid"@,
            bus_id@,
            "--auto-attach"@,
        ]);
    } else {
        assert(args_view(r@) =~= seq!["attach"@, "--wsl"@, target@, "--busid"@, bus_id@]);
    }
    r
}

/// Arguments that detach a device from the guest.
pub fn detach_args(bus_id: &str) -> (r: Vec<String>)
    ensures
        args_view(r@) == seq!["detach"@, "--busid"@, bus_id@],
{
    let r = vec![text_of("detach"), text_of("--busid"), text_of(bus_id)];
    assert(args_view(r@) =~= seq!["detach"@, "--busid"@, bus_id@]);
    r
}

/// The arguments as one command line, separated by single spaces.
pub fn command_line(args: &Vec<String>) -> (r: String)
    ensures
        r@ == join_words(args_view(args@)),
{
    let ghost ws = args_view(args@);
    let mut out = String::new();
    let mut k: usize = 0;
    while k < args.len()
        invariant
            k <= args@.len(),
            ws == args_view(args@),
            out@ == join_words(ws.take(k as int)),
        decreases args@.len() - k,
    {
        if k > 0 {
            out.append(" ");
            proof {
                reveal_strlit(" ");
            }
        }
        out.append(args[k].as_str());
        proof {
            let next = ws.take(k + 1);
            assert(next.drop_last() =~= ws.take(k as int));
            if k == 0 {
                assert(out@ =~= next[0]);
            } else {
                assert(out@ =~= join_words(next.drop_last()) + seq![' '] + next.last());
            }
        }
        k = k + 1;
    }
    assert(ws.take(args@.len() as int) =~= ws);
    out
}

/// Judges an elevated launch by the launch mechanism's return code. Only the
/// launch is judged: what the command then did is learnt by listing again.
pub fn elevated_outcome(code: i64) -> (r: Result<(), CommandError>)
    ensures
        code > LAUNCH_OK_ABOVE ==> r == Ok::<(), CommandError>(()),
        code <= LAUNCH_OK_ABOVE ==> r == Err::<(), CommandError>(CommandError::LaunchRefused(code)),
{
    if code > LAUNCH_OK_ABOVE {
        Ok(())
    } else {
        Err(CommandError::LaunchRefused(code))
    }
}

/// What a poll of a running one-shot command found.
#[derive(Debug)]
pub enum ChildStatus {
    /// Still running.
    Running,
    /// Exited; `stderr` is what it wrote to standard error.
    Exited { success: bool, stderr: String },
}

/// What to do next with a one-shot command.
#[derive(Debug, PartialEq, Eq)]
pub enum WaitStep {
    /// Poll again later.
    Wait,
    /// Kill the process, then wait for it to be reaped.
    Kill,
    /// The command is over, with this result.
    Done(Result<(), CommandError>),
}

/// The decisions of a one-shot command that runs under a deadline.
#[derive(Debug)]
pub struct BoundedRun {
    pub timeout_ms: u64,
    /// The process was told to die because it ran past the deadline.
    pub killed: bool,
}

/// The next state and step of a bounded run, from a poll at `elapsed_ms`
/// after the start that found `status`.
pub open spec fn bounded_step(run: BoundedRun, elapsed_ms: u64, status: ChildStatus) -> (
    BoundedRun,
    WaitStep,
) {
    match status {
        ChildStatus::Exited { success, stderr } => {
            if run.killed {
                (run, WaitStep::Done(Err(CommandError::Timeout)))
            } else if success {
                (run, WaitStep::Done(Ok(())))
            } else {
                (run, WaitStep::Done(Err(CommandError::Failure(stderr))))
            }
        },
        ChildStatus::Running => {
            if run.killed {
                (run, WaitStep::Wait)
            } else if elapsed_ms >= run.timeout_ms {
                (BoundedRun { killed: true, ..run }, WaitStep::Kill)
            } else {
                (run, WaitStep::Wait)
            }
        },
    }
}

impl BoundedRun {
    /// A run that has not yet been polled.
    pub fn new(timeout_ms: u64) -> (r: BoundedRun)
        ensures
            r == (BoundedRun { timeout_ms, killed: false }),
    {
        BoundedRun { timeout_ms, killed: false }
    }

    /// Decides what to do after a poll at `elapsed_ms` after the start.
    pub fn step(&mut self, elapsed_ms: u64, status: ChildStatus) -> (r: WaitStep)
        ensures
            (*final(self), r) == bounded_step(*old(self), elapsed_ms, status),
    {
        match status {
            ChildStatus::Exited { success, stderr } => {
                if self.killed {
                    WaitStep::Done(Err(CommandError::Timeout))
                } else if success {
                    WaitStep::Done(Ok(()))
                } else {
                    WaitStep::Done(Err(CommandError::Failure(stderr)))
                }
            },
            ChildStatus::Running => {
                if !self.killed && elapsed_ms >= self.timeout_ms {
                    self.killed = true;
                    WaitStep::Kill
                } else {
                    WaitStep::Wait
                }
            },
        }
    }
}

/// A child that is still running at the deadline is killed, and once it is
/// reaped the run ends in a timeout, whatever its exit; before the deadline
/// it is only polled again, so the run ends at the first poll at or after
/// the deadline plus the reaping.
pub proof fn lemma_timeout_kills(
    timeout_ms: u64,
    early_ms: u64,
    late_ms: u64,
    reaped_ms: u64,
    success: bool,
    stderr: String,
)
    requires
        early_ms < timeout_ms <= late_ms,
    ensures
        bounded_step(BoundedRun { timeout_ms, killed: false }, early_ms, ChildStatus::Running)
            == (BoundedRun { timeout_ms, killed: false }, WaitStep::Wait),
        bounded_step(BoundedRun { timeout_ms, killed: false }, late_ms, ChildStatus::Running)
            == (BoundedRun { timeout_ms, killed: true }, WaitStep::Kill),
        bounded_step(
            BoundedRun { timeout_ms, killed: true },
            reaped_ms,
            ChildStatus::Exited { success, stderr },
        ).1 == WaitStep::Done(Err(CommandError::Timeout)),
{
}

} // verus!
