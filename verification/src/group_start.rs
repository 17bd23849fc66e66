//! Starting a group: its projects one at a time, in order, each waited on
//! for readiness before the next. A project with a port is ready once the
//! port accepts connections (polled every `GROUP_READINESS_POLL_MS`, for at
//! most `GROUP_READINESS_TIMEOUT_MS`); one without a port gets a fixed grace
//! period. A project that fails to start is skipped.
//!
//! The caller runs the loop: it performs each action (start a project,
//! check a port, sleep) and hands back what happened; the decisions are here.

use crate::project_store::Project;
use vstd::prelude::*;

verus! {

/// How long a started project's port is polled before moving on.
pub const GROUP_READINESS_TIMEOUT_MS: u64 = 8000;

/// The pause between two checks of a port.
pub const GROUP_READINESS_POLL_MS: u64 = 300;

/// How long a project without a port is given before the next one starts.
pub const GROUP_GRACE_MS: u64 = 2000;

/// Where the group start stands.
#[derive(Debug, Clone, Copy, PartialEq, Eq, Structural)]
pub enum GroupStart {
    /// Project `index` is being started.
    Launching { index: usize },
    /// Project `index` started; its port is being checked.
    Polling { index: usize, port: u16, deadline_ms: u64 },
    /// Project `index`'s port was not open yet; pausing before the next check.
    Pausing { index: usize, port: u16, deadline_ms: u64 },
    /// Project `index` has no port; its grace period is running.
    Grace { index: usize },
    /// Every project has been dealt with.
    Finished,
}

/// What the caller does next.
#[derive(Debug, Clone, Copy, PartialEq, Eq, Structural)]
pub enum GroupAction {
    /// Start the project at this index.
    Start(usize),
    /// Check whether `port` accepts connections.
    PollPort { port: u16, deadline_ms: u64 },
    /// Sleep this many milliseconds.
    Sleep(u64),
    /// Nothing more to do.
    Done,
}

/// What happened when the caller performed the last action. Times are
/// milliseconds on a clock that never goes back.
#[derive(Debug, Clone, Copy, PartialEq, Eq, Structural)]
pub enum GroupEvent {
    /// The project started, at `now_ms`.
    Started { now_ms: u64 },
    /// The project could not be started.
    StartFailed,
    /// The port was checked at `now_ms`; `port_open` is false too when the
    /// check itself failed.
    Polled { now_ms: u64, port_open: bool },
    /// The sleep ended, at `now_ms`.
    Slept { now_ms: u64 },
}

/// The action a state waits to see performed.
pub open spec fn pending_action(state: GroupStart) -> GroupAction {
    match state {
        GroupStart::Launching { index } => GroupAction::Start(index),
        GroupStart::Polling { port, deadline_ms, .. } => GroupAction::PollPort { port, deadline_ms },
        GroupStart::Pausing { .. } => GroupAction::Sleep(GROUP_READINESS_POLL_MS),
        GroupStart::Grace { .. } => GroupAction::Sleep(GROUP_GRACE_MS),
        GroupStart::Finished => GroupAction::Done,
    }
}

/// Moving on to the project after `index`, or finishing after the last.
pub open spec fn after(count: nat, index: int) -> (GroupStart, GroupAction) {
    if index + 1 < count {
        (GroupStart::Launching { index: (index + 1) as usize }, GroupAction::Start((index + 1) as usize))
    } else {
        (GroupStart::Finished, GroupAction::Done)
    }
}

/// The readiness deadline of a project that started at `now`.
pub open spec fn readiness_deadline(now: u64) -> u64 {
    if now + GROUP_READINESS_TIMEOUT_MS <= u64::MAX { (now + GROUP_READINESS_TIMEOUT_MS) as u64 } else { u64::MAX }
}

/// How a group of `projects` starts: with the first project, or at once
/// done when there is none.
pub open spec fn group_start_first(projects: Seq<Project>) -> (GroupStart, GroupAction) {
    after(projects.len(), -1)
}

/// One step of a group start:
/// - a started project with a port is polled until `now + 8000`; one
///   without a port gets the grace period;
/// - a project that failed to start is skipped;
/// - an open port moves on to the next project; a closed one pauses, and
///   after the pause it is checked again while the deadline has not
///   passed, else the group moves on;
/// - the grace period's end moves on;
/// - after the last project, the group is done.
/// An event that does not answer the pending action changes nothing and
/// asks for that action again.
pub open spec fn group_step(projects: Seq<Project>, state: GroupStart, event: GroupEvent) -> (GroupStart, GroupAction) {
    let unchanged = (state, pending_action(state));
    match state {
        GroupStart::Launching { index } => match event {
            GroupEvent::Started { now_ms } => if index < projects.len() {
                match projects[index as int].port {
                    Some(port) => {
                        let deadline_ms = readiness_deadline(now_ms);
                        (GroupStart::Polling { index, port, deadline_ms }, GroupAction::PollPort { port, deadline_ms })
                    },
                    None => (GroupStart::Grace { index }, GroupAction::Sleep(GROUP_GRACE_MS)),
                }
            } else {
                (GroupStart::Finished, GroupAction::Done)
            },
            GroupEvent::StartFailed => after(projects.len(), index as int),
            _ => unchanged,
        },
        GroupStart::Polling { index, port, deadline_ms } => match event {
            GroupEvent::Polled { port_open, .. } => if port_open {
                after(projects.len(), index as int)
            } else {
                (GroupStart::Pausing { index, port, deadline_ms }, GroupAction::Sleep(GROUP_READINESS_POLL_MS))
            },
            _ => unchanged,
        },
        GroupStart::Pausing { index, port, deadline_ms } => match event {
            GroupEvent::Slept { now_ms } => if now_ms < deadline_ms {
                (GroupStart::Polling { index, port, deadline_ms }, GroupAction::PollPort { port, deadline_ms })
            } else {
                after(projects.len(), index as int)
            },
            _ => unchanged,
        },
        GroupStart::Grace { index } => match event {
            GroupEvent::Slept { .. } => after(projects.len(), index as int),
            _ => unchanged,
        },
        GroupStart::Finished => unchanged,
    }
}

fn next_after(count: usize, index: usize) -> (r: (GroupStart, GroupAction))
    ensures
        r == after(count as nat, index as int),
{
    if index < count && index + 1 < count {
        (GroupStart::Launching { index: index + 1 }, GroupAction::Start(index + 1))
    } else {
        (GroupStart::Finished, GroupAction::Done)
    }
}

fn pending(state: GroupStart) -> (r: GroupAction)
    ensures
        r == pending_action(state),
{
    match state {
        GroupStart::Launching { index } => GroupAction::Start(index),
        GroupStart::Polling { port, deadline_ms, .. } => GroupAction::PollPort { port, deadline_ms },
        GroupStart::Pausing { .. } => GroupAction::Sleep(GROUP_READINESS_POLL_MS),
        GroupStart::Grace { .. } => GroupAction::Sleep(GROUP_GRACE_MS),
        GroupStart::Finished => GroupAction::Done,
    }
}

/// The first step of starting `projects` in order.
pub fn group_start_begin(projects: &Vec<Project>) -> (r: (GroupStart, GroupAction))
    ensures
        r == group_start_first(projects@),
        projects@.len() == 0 ==> r == (GroupStart::Finished, GroupAction::Done),
        projects@.len() > 0 ==> r == (GroupStart::Launching { index: 0 }, GroupAction::Start(0)),
{
    if projects.len() == 0 {
        (GroupStart::Finished, GroupAction::Done)
    } else {
        (GroupStart::Launching { index: 0 }, GroupAction::Start(0))
    }
}

/// The next state and action of a group start, given what the last action
/// led to (see `group_step`).
pub fn group_start_step(projects: &Vec<Project>, state: &GroupStart, event: GroupEvent) -> (r: (GroupStart, GroupAction))
    ensures
        r == group_step(projects@, *state, event),
{
    let count = projects.len();
    match *state {
        GroupStart::Launching { index } => match event {
            GroupEvent::Started { now_ms } => {
                if index < count {
                    match projects[index].port {
                        Some(port) => {
                            let deadline_ms = now_ms.saturating_add(GROUP_READINESS_TIMEOUT_MS);
                            (GroupStart::Polling { index, port, deadline_ms }, GroupAction::PollPort { port, deadline_ms })
                        },
                        None => (GroupStart::Grace { index }, GroupAction::Sleep(GROUP_GRACE_MS)),
                    }
                } else {
                    (GroupStart::Finished, GroupAction::Done)
                }
            },
            GroupEvent::StartFailed => next_after(count, index),
            _ => (*state, pending(*state)),
        },
        GroupStart::Polling { index, port, deadline_ms } => match event {
            GroupEvent::Polled { port_open, .. } => {
                if port_open {
                    next_after(count, index)
                } else {
                    (GroupStart::Pausing { index, port, deadline_ms }, GroupAction::Sleep(GROUP_READINESS_POLL_MS))
                }
            },
            _ => (*state, pending(*state)),
        },
        GroupStart::Pausing { index, port, deadline_ms } => match event {
            GroupEvent::Slept { now_ms } => {
                if now_ms < deadline_ms {
                    (GroupStart::Polling { index, port, deadline_ms }, GroupAction::PollPort { port, deadline_ms })
                } else {
                    next_after(count, index)
                }
            },
            _ => (*state, pending(*state)),
        },
        GroupStart::Grace { index } => match event {
            GroupEvent::Slept { .. } => next_after(count, index),
            _ => (*state, pending(*state)),
        },
        GroupStart::Finished => (GroupStart::Finished, GroupAction::Done),
    }
}

} // verus!

verus! {

/// How far along the group a state is: the index of the project it deals
/// with, or the number of projects once finished.
pub open spec fn position(count: nat, state: GroupStart) -> int {
    match state {
        GroupStart::Launching { index } => index as int,
        GroupStart::Polling { index, .. } => index as int,
        GroupStart::Pausing { index, .. } => index as int,
        GroupStart::Grace { index } => index as int,
        GroupStart::Finished => count as int,
    }
}

/// Projects are started in order, each at most once per pass: a step never
/// goes back, and a `Start` it asks for is either the one still pending or
/// that of the very next project.
pub proof fn law_group_starts_in_order(projects: Seq<Project>, state: GroupStart, event: GroupEvent)
    requires
        projects.len() <= usize::MAX,
        position(projects.len(), state) <= projects.len(),
    ensures
        ({
            let (next, action) = group_step(projects, state, event);
            &&& position(projects.len(), state) <= position(projects.len(), next) <= projects.len()
            &&& action == pending_action(next)
            &&& (action matches GroupAction::Start(j) ==> (j == position(projects.len(), state)
                || j == position(projects.len(), state) + 1))
        }),
{
}

/// A port is polled only until the deadline set when its project started
/// (eight seconds later): checking again needs the pause to have ended
/// before it, and the deadline never moves while the project is waited on.
pub proof fn law_readiness_wait_is_bounded(projects: Seq<Project>, state: GroupStart, event: GroupEvent)
    ensures
        ({
            let (next, action) = group_step(projects, state, event);
            &&& match (state, event) {
                (GroupStart::Launching { index }, GroupEvent::Started { now_ms }) =>
                    index < projects.len() && projects[index as int].port is Some ==> (next matches GroupStart::Polling {
                        deadline_ms,
                        ..
                    } && deadline_ms == readiness_deadline(now_ms)),
                (GroupStart::Pausing { deadline_ms, .. }, GroupEvent::Slept { now_ms }) =>
                    (action is PollPort <==> now_ms < deadline_ms),
                _ => true,
            }
            &&& match (state, next) {
                (GroupStart::Polling { index: i, deadline_ms: d, .. }, GroupStart::Pausing { index: j, deadline_ms: e, .. }) =>
                    i == j && d == e,
                (GroupStart::Pausing { index: i, deadline_ms: d, .. }, GroupStart::Polling { index: j, deadline_ms: e, .. }) =>
                    i == j && d == e,
                _ => true,
            }
        }),
{
}

} // verus!
