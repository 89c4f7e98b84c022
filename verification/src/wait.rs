//! What the operating system reports about a child process, and the exit
//! status that the shell derives from it.

use nix::sys::wait::{waitpid, WaitPidFlag, WaitStatus};
use nix::unistd::Pid;
use vstd::prelude::*;

verus! {

/// The report of one wait on a child process. Process identifiers and signal
/// numbers are carried as plain integers.
#[derive(Clone, Copy, Debug, PartialEq, Eq, Structural)]
pub enum WaitOutcome {
    /// The process `.0` exited normally with status `.1`.
    Exited(i32, i32),
    /// The process `.0` was killed by signal `.1`; `.2` tells whether it dumped core.
    Signaled(i32, i32, bool),
    /// The process `.0` was stopped by signal `.1` and is still alive.
    Stopped(i32, i32),
    /// Nothing to report yet: the process is still running.
    StillAlive,
    /// A report of a category that the shell does not model.
    Unsupported,
}

/// The wait call itself failed; `errno` is the error number of the system.
#[derive(Clone, Copy, Debug, PartialEq, Eq, Structural)]
pub struct WaitError {
    pub errno: i32,
}

/// The status reserved for a report of a category that is not modelled.
pub const UNSUPPORTED_STATUS: i32 = 1;

/// The offset added to a signal number to make an exit status.
pub const SIGNAL_BASE: i32 = 128;

/// The exit status that a report stands for: the status of a normal exit,
/// 128 plus the signal number for a process killed or stopped by a signal
/// (held at the largest `i32` where the sum would not fit), and 1 for
/// anything else.
pub open spec fn exit_status_of(outcome: WaitOutcome) -> int {
    match outcome {
        WaitOutcome::Exited(_, status) => status as int,
        WaitOutcome::Signaled(_, signal, _) => signal_status(signal),
        WaitOutcome::Stopped(_, signal) => signal_status(signal),
        _ => UNSUPPORTED_STATUS as int,
    }
}

/// 128 plus the signal number, held at the largest `i32`.
pub open spec fn signal_status(signal: i32) -> int {
    if SIGNAL_BASE + signal <= i32::MAX {
        SIGNAL_BASE + signal
    } else {
        i32::MAX as int
    }
}

/// Whether a report says that the process will not run again.
pub open spec fn is_definitive(outcome: WaitOutcome) -> bool {
    outcome != WaitOutcome::StillAlive
}

/// The process that a report speaks of; a report that nothing changed, or
/// one of a category that is not modelled, names none.
pub open spec fn reported_pid(outcome: WaitOutcome) -> Option<i32> {
    match outcome {
        WaitOutcome::Exited(pid, _) => Some(pid),
        WaitOutcome::Signaled(pid, _, _) => Some(pid),
        WaitOutcome::Stopped(pid, _) => Some(pid),
        _ => None,
    }
}

/// Whether a report can be the answer to a wait on the process `pid`: where
/// one process was asked after and the report names a process, it names that
/// one.
pub open spec fn answers_for(outcome: WaitOutcome, pid: i32) -> bool {
    pid > 0 && reported_pid(outcome) is Some ==> reported_pid(outcome) == Some(pid)
}

/// Whether the reports can be the answers to waits on the processes of
/// `order`, one report for each process, in that order.
pub open spec fn answer_in_order(reports: Seq<WaitOutcome>, order: Seq<i32>) -> bool {
    &&& reports.len() == order.len()
    &&& forall|k: int| 0 <= k < reports.len() ==> answers_for(#[trigger] reports[k], order[k])
}

/// For each report whether it says that the process is finished.
pub open spec fn answers_of(reports: Seq<WaitOutcome>) -> Seq<bool> {
    reports.map_values(|outcome: WaitOutcome| is_definitive(outcome))
}

/// Computes [`exit_status_of`].
pub fn exit_status(outcome: &WaitOutcome) -> (status: i32)
    ensures
        status == exit_status_of(*outcome),
{
    match outcome {
        WaitOutcome::Exited(_, status) => *status,
        WaitOutcome::Signaled(_, signal, _) => signal_exit_status(*signal),
        WaitOutcome::Stopped(_, signal) => signal_exit_status(*signal),
        _ => UNSUPPORTED_STATUS,
    }
}

fn signal_exit_status(signal: i32) -> (status: i32)
    ensures
        status == signal_status(signal),
{
    if signal <= i32::MAX - SIGNAL_BASE {
        SIGNAL_BASE + signal
    } else {
        i32::MAX
    }
}

/// Calls `nix::sys::wait::waitpid` on the process `pid` with the flag
/// `WUNTRACED`, so that the call blocks until the process exits, is killed or
/// is stopped. The report is carried over variant by variant; every variant
/// other than the four named ones becomes `Unsupported`, and a failure of the
/// call becomes its error number. Two things are claimed of what comes back.
/// Without `WNOHANG` the call never reports `StillAlive`. And a report names
/// the process that the system call returned, which for a `pid` above 0 is
/// the one process that the system was asked to wait for.
#[verifier::external_body]
pub(crate) fn wait_blocking(pid: i32) -> (r: Result<WaitOutcome, WaitError>)
    ensures
        r matches Ok(outcome) ==> outcome != WaitOutcome::StillAlive,
        r matches Ok(outcome) ==> answers_for(outcome, pid),
{
    match waitpid(Pid::from_raw(pid), Some(WaitPidFlag::WUNTRACED)) {
        Ok(WaitStatus::Exited(p, status)) => Ok(WaitOutcome::Exited(p.as_raw(), status)),
        Ok(WaitStatus::Signaled(p, s, core)) => Ok(WaitOutcome::Signaled(p.as_raw(), s as i32, core)),
        Ok(WaitStatus::Stopped(p, s)) => Ok(WaitOutcome::Stopped(p.as_raw(), s as i32)),
        Ok(WaitStatus::StillAlive) => Ok(WaitOutcome::StillAlive),
        Ok(_) => Ok(WaitOutcome::Unsupported),
        Err(e) => Err(WaitError { errno: e as i32 }),
    }
}

/// Calls `nix::sys::wait::waitpid` on the process `pid` with the flag
/// `WNOHANG`, so that the call returns at once. The report is carried over as
/// in [`wait_blocking`]. One thing is claimed of what comes back: a report
/// names the process that the system call returned, which for a `pid` above 0
/// is the one process that the system was asked after.
#[verifier::external_body]
pub(crate) fn wait_polling(pid: i32) -> (r: Result<WaitOutcome, WaitError>)
    ensures
        r matches Ok(outcome) ==> answers_for(outcome, pid),
{
    match waitpid(Pid::from_raw(pid), Some(WaitPidFlag::WNOHANG)) {
        Ok(WaitStatus::Exited(p, status)) => Ok(WaitOutcome::Exited(p.as_raw(), status)),
        Ok(WaitStatus::Signaled(p, s, core)) => Ok(WaitOutcome::Signaled(p.as_raw(), s as i32, core)),
        Ok(WaitStatus::Stopped(p, s)) => Ok(WaitOutcome::Stopped(p.as_raw(), s as i32)),
        Ok(WaitStatus::StillAlive) => Ok(WaitOutcome::StillAlive),
        Ok(_) => Ok(WaitOutcome::Unsupported),
        Err(e) => Err(WaitError { errno: e as i32 }),
    }
}

/// For each report of a poll whether it says that the process is finished.
pub fn answers(reports: &Vec<WaitOutcome>) -> (done: Vec<bool>)
    ensures
        done@ == answers_of(reports@),
{
    let mut done: Vec<bool> = Vec::new();
    let mut k: usize = 0;
    while k < reports.len()
        invariant
            k <= reports@.len(),
            done@ == answers_of(reports@.take(k as int)),
        decreases reports@.len() - k,
    {
        done.push(finished(&reports[k]));
        proof {
            assert(done@ =~= answers_of(reports@.take(k + 1)));
        }
        k += 1;
    }
    proof {
        assert(reports@.take(k as int) =~= reports@);
    }
    done
}

/// Whether a report of a poll says that the process is finished.
pub fn finished(outcome: &WaitOutcome) -> (b: bool)
    ensures
        b == is_definitive(*outcome),
{
    match outcome {
        WaitOutcome::StillAlive => false,
        _ => true,
    }
}

} // verus!
