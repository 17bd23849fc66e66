//! Stopping processes by escalation: ask politely with SIGTERM, give the
//! process time to exit, then force it with SIGKILL.
//!
//! Two sequences are decided here, step by step; the caller sends the
//! signals, waits, lists a port's owners, and hands back what happened.
//! - Stopping a project: SIGTERM to its process group, up to
//!   `STOP_GRACE_MS` for it to exit, then SIGKILL.
//! - Freeing a port: SIGTERM to every process listening on it, a pause of
//!   `PORT_KILL_SETTLE_MS`, then SIGKILL to every one still listening.
//! A process (group) that is already gone when signalled is no failure.

use crate::error::AppError;
use crate::port_checker::kill_failed;
use crate::process_manager::{signal_context, signal_failed};
use crate::text::{decimal_text, signed_decimal_text};
use vstd::prelude::*;

verus! {

/// How long a stopped project gets to exit after SIGTERM.
pub const STOP_GRACE_MS: u64 = 3000;

/// How long a port's owners get to exit after SIGTERM.
pub const PORT_KILL_SETTLE_MS: u64 = 500;

/// The signals an escalation sends.
#[derive(Debug, Clone, Copy, PartialEq, Eq, Structural)]
pub enum StopSignal {
    Term,
    Kill,
}

/// The POSIX number of a signal: SIGTERM is 15, SIGKILL is 9.
pub open spec fn signal_number(s: StopSignal) -> i32 {
    match s {
        StopSignal::Term => 15,
        StopSignal::Kill => 9,
    }
}

pub fn signal_code(s: StopSignal) -> (n: i32)
    ensures
        n == signal_number(s),
{
    match s {
        StopSignal::Term => 15,
        StopSignal::Kill => 9,
    }
}

/// What sending a signal came to.
#[derive(Debug)]
pub enum SignalOutcome {
    Delivered,
    /// The target no longer exists (`ESRCH`).
    AlreadyGone,
    /// Any other failure, with the system's reason.
    Failed(String),
}

// ---------------------------------------------------------------------------
// Stopping a project
// ---------------------------------------------------------------------------

/// Where a stop stands.
#[derive(Debug, Clone, Copy, PartialEq, Eq, Structural)]
pub enum StopStage {
    /// SIGTERM is being sent.
    Terminating,
    /// Waiting for the process to exit.
    AwaitingExit,
    /// SIGKILL is being sent.
    Killing,
    /// The stop is over.
    Stopped,
}

/// What the caller does next for a stop.
#[derive(Debug)]
pub enum StopAction {
    /// Send this signal to the process group.
    Send(StopSignal),
    /// Wait at most this many milliseconds for the process to exit.
    AwaitExit(u64),
    /// The stop is over, with this result.
    Finish(Result<(), AppError>),
}

/// What happened when the caller performed a stop action.
#[derive(Debug)]
pub enum StopEvent {
    Sent(SignalOutcome),
    /// The wait ended; `exited` tells whether the process exited in time.
    Waited { exited: bool },
}

/// Whether `event` answers what `stage` asked for.
pub open spec fn stop_answers(stage: StopStage, event: StopEvent) -> bool {
    match stage {
        StopStage::Terminating | StopStage::Killing => event is Sent,
        StopStage::AwaitingExit => event is Waited,
        StopStage::Stopped => false,
    }
}

/// `e` is the error for `signal` failing on process group `pid` of project
/// `id`, for reason `why`.
pub open spec fn is_signal_error(e: AppError, id: Seq<char>, signal: StopSignal, pid: i32, why: Seq<char>) -> bool {
    &&& e.module@ == "process_manager"@
    &&& e.code@ == "PROC_KILL_FAILED"@
    &&& e.message@ == "Could not send signal "@ + signed_decimal_text(signal_number(signal) as int) + " to process "@
        + signed_decimal_text(pid as int) + ": "@ + why
    &&& e.context matches Some(c) && c@ == signal_context(id, pid)
}

/// How a stop begins: with SIGTERM.
pub fn stop_begin() -> (r: (StopStage, StopAction))
    ensures
        r.0 == StopStage::Terminating,
        r.1 matches StopAction::Send(s) && s == StopSignal::Term,
{
    (StopStage::Terminating, StopAction::Send(StopSignal::Term))
}

/// One step of stopping project `id`, whose process group is `pid`:
/// - SIGTERM sent (or the group gone already): wait up to `STOP_GRACE_MS`;
/// - the process exited in time: the stop succeeded;
/// - it did not: send SIGKILL;
/// - SIGKILL sent (or the group gone): the stop succeeded;
/// - a signal that failed otherwise ends the stop with that failure.
pub fn stop_step(id: &str, pid: i32, stage: StopStage, event: StopEvent) -> (r: (StopStage, StopAction))
    requires
        stop_answers(stage, event),
    ensures
        match (stage, event) {
            (StopStage::Terminating, StopEvent::Sent(SignalOutcome::Failed(why))) =>
                r.0 == StopStage::Stopped && (r.1 matches StopAction::Finish(Err(e))
                    && is_signal_error(e, id@, StopSignal::Term, pid, why@)),
            (StopStage::Terminating, StopEvent::Sent(_)) =>
                r.0 == StopStage::AwaitingExit && (r.1 matches StopAction::AwaitExit(ms) && ms == STOP_GRACE_MS),
            (StopStage::AwaitingExit, StopEvent::Waited { exited }) => if exited {
                r.0 == StopStage::Stopped && (r.1 matches StopAction::Finish(Ok(())))
            } else {
                r.0 == StopStage::Killing && (r.1 matches StopAction::Send(s) && s == StopSignal::Kill)
            },
            (StopStage::Killing, StopEvent::Sent(SignalOutcome::Failed(why))) =>
                r.0 == StopStage::Stopped && (r.1 matches StopAction::Finish(Err(e))
                    && is_signal_error(e, id@, StopSignal::Kill, pid, why@)),
            (StopStage::Killing, StopEvent::Sent(_)) =>
                r.0 == StopStage::Stopped && (r.1 matches StopAction::Finish(Ok(()))),
            _ => false,
        },
{
    match (stage, event) {
        (StopStage::Terminating, StopEvent::Sent(SignalOutcome::Failed(why))) => {
            let e = signal_failed(id, signal_code(StopSignal::Term), pid, why.as_str());
            (StopStage::Stopped, StopAction::Finish(Err(e)))
        },
        (StopStage::Terminating, StopEvent::Sent(_)) => (StopStage::AwaitingExit, StopAction::AwaitExit(STOP_GRACE_MS)),
        (StopStage::AwaitingExit, StopEvent::Waited { exited }) => {
            if exited {
                (StopStage::Stopped, StopAction::Finish(Ok(())))
            } else {
                (StopStage::Killing, StopAction::Send(StopSignal::Kill))
            }
        },
        (StopStage::Killing, StopEvent::Sent(SignalOutcome::Failed(why))) => {
            let e = signal_failed(id, signal_code(StopSignal::Kill), pid, why.as_str());
            (StopStage::Stopped, StopAction::Finish(Err(e)))
        },
        (_, _) => (StopStage::Stopped, StopAction::Finish(Ok(()))),
    }
}

// ---------------------------------------------------------------------------
// Freeing a port
// ---------------------------------------------------------------------------

/// Where freeing a port stands.
#[derive(Debug)]
pub enum PortKillStage {
    /// Listing the port's owners.
    Listing,
    /// SIGTERM is being sent to every owner.
    Terminating,
    /// Giving them time to exit.
    Settling,
    /// Listing who still listens.
    Relisting,
    /// SIGKILL is being sent to `pids[next]`.
    Killing { pids: Vec<i32>, next: usize },
    /// Over.
    Done,
}

/// What the caller does next to free a port.
#[derive(Debug)]
pub enum PortKillAction {
    /// List the processes listening on the port.
    ListOwners,
    /// Send SIGTERM to each of these processes (failures are ignored).
    TerminateAll(Vec<i32>),
    /// Sleep this many milliseconds.
    Sleep(u64),
    /// Send SIGKILL to this process.
    Kill(i32),
    /// Over, with this result.
    Finish(Result<(), AppError>),
}

/// What happened when the caller performed a port-freeing action.
#[derive(Debug)]
pub enum PortKillEvent {
    Listed(Result<Vec<i32>, AppError>),
    Terminated,
    Slept,
    Killed(SignalOutcome),
}

/// Whether `event` answers what `stage` asked for.
pub open spec fn port_kill_answers(stage: PortKillStage, event: PortKillEvent) -> bool {
    match stage {
        PortKillStage::Listing | PortKillStage::Relisting => event is Listed,
        PortKillStage::Terminating => event is Terminated,
        PortKillStage::Settling => event is Slept,
        PortKillStage::Killing { pids, next } => next < pids.len() && event is Killed,
        PortKillStage::Done => false,
    }
}

/// `e` is the error for process `pid` on `port` surviving SIGKILL, for
/// reason `why`.
pub open spec fn is_kill_error(e: AppError, pid: i32, port: u16, why: Seq<char>) -> bool {
    &&& e.module@ == "port_checker"@
    &&& e.code@ == "PORT_KILL_OWNER_FAILED"@
    &&& e.message@ == "Could not kill process "@ + signed_decimal_text(pid as int) + " on port "@
        + decimal_text(port as nat) + ": "@ + why
}

/// How freeing a port begins: by listing its owners.
pub fn port_kill_begin() -> (r: (PortKillStage, PortKillAction))
    ensures
        r.0 is Listing,
        r.1 is ListOwners,
{
    (PortKillStage::Listing, PortKillAction::ListOwners)
}

/// After the owners of `port` were killed from index `next` on, or there
/// were none left: kill the following one, or finish.
fn kill_from(pids: Vec<i32>, next: usize) -> (r: (PortKillStage, PortKillAction))
    requires
        next <= pids.len(),
    ensures
        next < pids.len() ==> (r.0 matches PortKillStage::Killing { pids: p, next: n } && p@ == pids@ && n == next
            && (r.1 matches PortKillAction::Kill(pid) && pid == pids@[next as int])),
        next == pids.len() ==> (r.0 is Done && (r.1 matches PortKillAction::Finish(Ok(())))),
{
    if next < pids.len() {
        let pid = pids[next];
        (PortKillStage::Killing { pids, next }, PortKillAction::Kill(pid))
    } else {
        (PortKillStage::Done, PortKillAction::Finish(Ok(())))
    }
}

/// One step of freeing `port`:
/// - a listing that failed ends it with that failure;
/// - no owner at the first listing: nothing to do;
/// - owners: SIGTERM to each, then a pause of `PORT_KILL_SETTLE_MS`, then a
///   second listing;
/// - SIGKILL to each owner the second listing finds, in order; one that
///   fails for a reason other than the process being gone ends it with
///   that failure; after the last, the port is free.
pub fn port_kill_step(port: u16, stage: PortKillStage, event: PortKillEvent) -> (r: (PortKillStage, PortKillAction))
    requires
        port_kill_answers(stage, event),
    ensures
        match (stage, event) {
            (PortKillStage::Listing, PortKillEvent::Listed(Err(e))) =>
                r.0 is Done && (r.1 matches PortKillAction::Finish(Err(f)) && f == e),
            (PortKillStage::Listing, PortKillEvent::Listed(Ok(pids))) => if pids@.len() == 0 {
                r.0 is Done && (r.1 matches PortKillAction::Finish(Ok(())))
            } else {
                r.0 is Terminating && (r.1 matches PortKillAction::TerminateAll(ps) && ps@ == pids@)
            },
            (PortKillStage::Terminating, PortKillEvent::Terminated) =>
                r.0 is Settling && (r.1 matches PortKillAction::Sleep(ms) && ms == PORT_KILL_SETTLE_MS),
            (PortKillStage::Settling, PortKillEvent::Slept) => r.0 is Relisting && r.1 is ListOwners,
            (PortKillStage::Relisting, PortKillEvent::Listed(Err(e))) =>
                r.0 is Done && (r.1 matches PortKillAction::Finish(Err(f)) && f == e),
            (PortKillStage::Relisting, PortKillEvent::Listed(Ok(pids))) => if pids@.len() == 0 {
                r.0 is Done && (r.1 matches PortKillAction::Finish(Ok(())))
            } else {
                r.0 matches PortKillStage::Killing { pids: p, next: n } && p@ == pids@ && n == 0
                    && (r.1 matches PortKillAction::Kill(pid) && pid == pids@[0])
            },
            (PortKillStage::Killing { pids, next }, PortKillEvent::Killed(SignalOutcome::Failed(why))) =>
                r.0 is Done && (r.1 matches PortKillAction::Finish(Err(e))
                    && is_kill_error(e, pids@[next as int], port, why@)),
            (PortKillStage::Killing { pids, next }, PortKillEvent::Killed(_)) => if next + 1 < pids@.len() {
                r.0 matches PortKillStage::Killing { pids: p, next: n } && p@ == pids@ && n == next + 1
                    && (r.1 matches PortKillAction::Kill(pid) && pid == pids@[next + 1])
            } else {
                r.0 is Done && (r.1 matches PortKillAction::Finish(Ok(())))
            },
            _ => false,
        },
{
    match (stage, event) {
        (PortKillStage::Listing, PortKillEvent::Listed(Err(e))) => (PortKillStage::Done, PortKillAction::Finish(Err(e))),
        (PortKillStage::Listing, PortKillEvent::Listed(Ok(pids))) => {
            if pids.len() == 0 {
                (PortKillStage::Done, PortKillAction::Finish(Ok(())))
            } else {
                (PortKillStage::Terminating, PortKillAction::TerminateAll(pids))
            }
        },
        (PortKillStage::Terminating, PortKillEvent::Terminated) => {
            (PortKillStage::Settling, PortKillAction::Sleep(PORT_KILL_SETTLE_MS))
        },
        (PortKillStage::Settling, PortKillEvent::Slept) => (PortKillStage::Relisting, PortKillAction::ListOwners),
        (PortKillStage::Relisting, PortKillEvent::Listed(Err(e))) => (PortKillStage::Done, PortKillAction::Finish(Err(e))),
        (PortKillStage::Relisting, PortKillEvent::Listed(Ok(pids))) => kill_from(pids, 0),
        (PortKillStage::Killing { pids, next }, PortKillEvent::Killed(outcome)) => match outcome {
            SignalOutcome::Failed(why) => {
                let e = kill_failed(pids[next], port, why.as_str());
                (PortKillStage::Done, PortKillAction::Finish(Err(e)))
            },
            _ => kill_from(pids, next + 1),
        },
        (_, _) => (PortKillStage::Done, PortKillAction::Finish(Ok(()))),
    }
}

} // verus!
