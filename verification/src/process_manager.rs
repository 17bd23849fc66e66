//! Supervision bookkeeping for project processes: which are running, their
//! last known status, their output scrollback, their error counters, and
//! the auto-restart policy (exponential backoff, bounded attempts, and
//! cancellation by any explicit stop).
//!
//! Spawning, signalling and reaping the processes themselves happens
//! outside the library; each of those steps reports to the manager, which
//! decides the next state and the events to emit.

use crate::error::AppError;
use crate::id_map::IdMap;
use crate::protocol::{events_view, Event, EventView};
use crate::output::{count_error_matches, detect_url, error_line_count, local_url_of};
use crate::env_resolver::{overrides, overrides_of};
use crate::project_store::env_rows;
use crate::text::{
    decimal_text, i64_text, json_string, json_string_text, signed_decimal_text, to_owned_string, u64_text, utf8_lossy,
    utf8_lossy_text,
};
use vstd::prelude::*;

verus! {

const MODULE: &'static str = "process_manager";

/// How many automatic restarts a crashing project gets.
pub const MAX_RESTART_ATTEMPTS: u32 = 5;

/// Delay before the first automatic restart.
pub const RESTART_BASE_DELAY_MS: u64 = 1000;

/// Upper bound on the delay before any automatic restart.
pub const RESTART_MAX_DELAY_MS: u64 = 30000;

/// A process that ran at least this long before crashing starts a fresh
/// backoff sequence instead of continuing the previous one.
pub const MIN_UPTIME_FOR_RESTART_RESET_MS: u64 = 5000;

/// How much scrollback is kept per process.
pub const RING_BUFFER_MAX: usize = 1024 * 1024;

#[derive(Debug, Clone, Copy, PartialEq, Eq, Structural)]
pub enum ProjectStatus {
    Stopped,
    Starting,
    Running,
    Crashed,
}

/// A project's status and, while it runs, its pid.
#[derive(Debug)]
pub struct StatusPayload {
    pub id: String,
    pub status: ProjectStatus,
    pub pid: Option<u32>,
}

// ---------------------------------------------------------------------------
// Spawning
// ---------------------------------------------------------------------------

/// The variables a spawn sets on top of the inherited environment, in the
/// order they are set, a later one winning: `PORT` first when the project
/// has a port (most dev servers bind where `$PORT` says, and a `PORT` among
/// the project's own variables still overrides it), then the overrides.
pub open spec fn spawn_env_of(
    port: Option<u16>,
    resolved_path: Option<Seq<char>>,
    extra: Seq<(Seq<char>, Seq<char>)>,
) -> Seq<(Seq<char>, Seq<char>)> {
    let head = match port {
        Some(p) => seq![("PORT"@, decimal_text(p as nat))],
        None => Seq::empty(),
    };
    head + overrides_of(resolved_path, extra)
}

pub fn spawn_environment(port: Option<u16>, resolved_path: Option<&String>, extra: &Vec<(String, String)>) -> (r: Vec<(String, String)>)
    ensures
        env_rows(r@) == spawn_env_of(
            port,
            match resolved_path {
                Some(p) => Some(p@),
                None => None,
            },
            env_rows(extra@),
        ),
{
    let rest = overrides(resolved_path, extra);
    let mut out: Vec<(String, String)> = Vec::new();
    match port {
        Some(p) => out.push((to_owned_string("PORT"), u64_text(p as u64))),
        None => {},
    }
    let ghost head = env_rows(out@);
    let mut i: usize = 0;
    while i < rest.len()
        invariant
            i <= rest@.len(),
            head == match port {
                Some(p) => seq![("PORT"@, decimal_text(p as nat))],
                None => Seq::<(Seq<char>, Seq<char>)>::empty(),
            },
            env_rows(out@) == head + env_rows(rest@.take(i as int)),
        decreases rest@.len() - i,
    {
        let ghost before = out@;
        let row = &rest[i];
        out.push((row.0.clone(), row.1.clone()));
        assert(env_rows(out@) =~= env_rows(before).push((row.0@, row.1@)));
        assert(env_rows(rest@.take(i + 1)) =~= env_rows(rest@.take(i as int)).push((row.0@, row.1@)));
        i += 1;
    }
    assert(rest@.take(rest@.len() as int) =~= rest@);
    out
}

/// The output event for the bytes a process printed since the last one:
/// none when it printed nothing, else its text, decoded leniently.
pub fn output_event(id: &str, pending: &[u8]) -> (r: Option<Event>)
    ensures
        pending@.len() == 0 ==> r is None,
        pending@.len() > 0 ==> (r matches Some(e) && e@ == (EventView::Output { id: id@, chunk: utf8_lossy_text(pending@) })),
{
    if pending.len() == 0 {
        None
    } else {
        Some(Event::Output { id: to_owned_string(id), chunk: utf8_lossy(pending) })
    }
}

/// The error log's detail for a failure of project `id`.
pub open spec fn project_context(id: Seq<char>) -> Seq<char> {
    "{\"projectId\":"@ + json_string(id) + "}"@
}

/// The error log's detail for a command of project `id` that did not start.
pub open spec fn command_context(id: Seq<char>, command: Seq<char>) -> Seq<char> {
    "{\"command\":"@ + json_string(command) + ",\"projectId\":"@ + json_string(id) + "}"@
}

/// The error log's detail for a signal to process `pid` of project `id`.
pub open spec fn signal_context(id: Seq<char>, pid: i32) -> Seq<char> {
    "{\"pid\":"@ + signed_decimal_text(pid as int) + ",\"projectId\":"@ + json_string(id) + "}"@
}

/// The error for a terminal that could not be opened for project `id`.
pub fn pty_open_failed(id: &str, reason: &str) -> (e: AppError)
    ensures
        e.module@ == "process_manager"@,
        e.code@ == "PTY_SPAWN_FAILED"@,
        e.message@ == "Could not open the PTY: "@ + reason@,
        e.context matches Some(c) && c@ == project_context(id@),
{
    let context = String::from_str("{\"projectId\":").concat(json_string_text(id).as_str()).concat("}");
    AppError::new(MODULE, "PTY_SPAWN_FAILED", String::from_str("Could not open the PTY: ").concat(reason))
        .with_context(context)
}

/// The error for project `id`'s command that could not be started.
pub fn command_start_failed(id: &str, command: &str, reason: &str) -> (e: AppError)
    ensures
        e.module@ == "process_manager"@,
        e.code@ == "PTY_SPAWN_FAILED"@,
        e.message@ == "Could not start \""@ + command@ + "\": "@ + reason@,
        e.context matches Some(c) && c@ == command_context(id@, command@),
{
    let context = String::from_str("{\"command\":")
        .concat(json_string_text(command).as_str())
        .concat(",\"projectId\":")
        .concat(json_string_text(id).as_str())
        .concat("}");
    AppError::new(
        MODULE,
        "PTY_SPAWN_FAILED",
        String::from_str("Could not start \"").concat(command).concat("\": ").concat(reason),
    ).with_context(context)
}

/// The error for a started process that reported no pid.
pub fn missing_pid() -> (e: AppError)
    ensures
        e.module@ == "process_manager"@,
        e.code@ == "PTY_SPAWN_FAILED"@,
        e.message@ == "The process didn't return a PID"@,
{
    AppError::new(MODULE, "PTY_SPAWN_FAILED", to_owned_string("The process didn't return a PID"))
}

/// The error for a terminal whose output could not be read.
pub fn pty_reader_failed(reason: &str) -> (e: AppError)
    ensures
        e.module@ == "process_manager"@,
        e.code@ == "PTY_READ_ERROR"@,
        e.message@ == "Could not get the PTY reader: "@ + reason@,
{
    AppError::new(MODULE, "PTY_READ_ERROR", String::from_str("Could not get the PTY reader: ").concat(reason))
}

/// The error for a signal that could not be sent to the process group of
/// project `id`, for a reason other than the group being gone already.
pub fn signal_failed(id: &str, signal: i32, pid: i32, reason: &str) -> (e: AppError)
    ensures
        e.module@ == "process_manager"@,
        e.code@ == "PROC_KILL_FAILED"@,
        e.message@ == "Could not send signal "@ + signed_decimal_text(signal as int) + " to process "@
            + signed_decimal_text(pid as int) + ": "@ + reason@,
        e.context matches Some(c) && c@ == signal_context(id@, pid),
{
    let message = String::from_str("Could not send signal ")
        .concat(i64_text(signal as i64).as_str())
        .concat(" to process ")
        .concat(i64_text(pid as i64).as_str())
        .concat(": ")
        .concat(reason);
    let context = String::from_str("{\"pid\":")
        .concat(i64_text(pid as i64).as_str())
        .concat(",\"projectId\":")
        .concat(json_string_text(id).as_str())
        .concat("}");
    AppError::new(MODULE, "PROC_KILL_FAILED", message).with_context(context)
}

// ---------------------------------------------------------------------------
// Restart backoff
// ---------------------------------------------------------------------------

/// Two to the power `n`.
pub open spec fn two_to(n: nat) -> nat
    decreases n,
{
    if n == 0 { 1 } else { 2 * two_to((n - 1) as nat) }
}

/// The delay before restart attempt `attempt` (counted from 1): one second,
/// doubled for every earlier attempt, capped at thirty seconds.
pub open spec fn restart_delay(attempt: u32) -> u64 {
    let raw = RESTART_BASE_DELAY_MS * two_to((attempt - 1) as nat);
    if raw > RESTART_MAX_DELAY_MS { RESTART_MAX_DELAY_MS } else { raw as u64 }
}

proof fn lemma_two_to_monotone(a: nat, b: nat)
    requires
        a <= b,
    ensures
        two_to(a) <= two_to(b),
        two_to(a) >= 1,
    decreases b,
{
    if b > a {
        lemma_two_to_monotone(a, (b - 1) as nat);
    } else if a > 0 {
        lemma_two_to_monotone((a - 1) as nat, (a - 1) as nat);
    }
}

/// Exponential backoff for restart attempt `attempt` (1-indexed): 1s, 2s,
/// 4s, 8s, 16s, … capped at `RESTART_MAX_DELAY_MS`.
pub fn backoff_delay_ms(attempt: u32) -> (d: u64)
    requires
        1 <= attempt,
    ensures
        d == restart_delay(attempt),
        RESTART_BASE_DELAY_MS <= d <= RESTART_MAX_DELAY_MS,
{
    let mut delay: u64 = RESTART_BASE_DELAY_MS;
    let mut i: u32 = 1;
    while i < attempt && delay < RESTART_MAX_DELAY_MS
        invariant
            1 <= i <= attempt,
            delay == RESTART_BASE_DELAY_MS * two_to((i - 1) as nat),
            delay < 2 * RESTART_MAX_DELAY_MS,
        decreases attempt - i,
    {
        assert(two_to(i as nat) == 2 * two_to((i - 1) as nat));
        delay = delay * 2;
        i = i + 1;
    }
    proof {
        lemma_two_to_monotone((i - 1) as nat, (attempt - 1) as nat);
    }
    if delay > RESTART_MAX_DELAY_MS {
        RESTART_MAX_DELAY_MS
    } else if i < attempt {
        RESTART_MAX_DELAY_MS
    } else {
        delay
    }
}

// ---------------------------------------------------------------------------
// State
// ---------------------------------------------------------------------------

/// A process the manager currently supervises. `handle` is whatever the
/// caller needs to reach the live process (its terminal, its exit signal).
pub struct RunningProcess<H> {
    pub pid: i32,
    /// Set by an explicit stop, so the exit that follows counts as a stop
    /// rather than a crash.
    pub stopping: bool,
    /// The most recent output, at most `RING_BUFFER_MAX` bytes.
    pub output: Vec<u8>,
    pub handle: H,
}

pub struct ProcessView<H> {
    pub pid: i32,
    pub stopping: bool,
    pub output: Seq<u8>,
    pub handle: H,
}

impl<H> View for RunningProcess<H> {
    type V = ProcessView<H>;

    open spec fn view(&self) -> ProcessView<H> {
        ProcessView { pid: self.pid, stopping: self.stopping, output: self.output@, handle: self.handle }
    }
}

/// Auto-restart progress for one project. `epoch` changes on every explicit
/// stop, so a restart scheduled before it can tell it was cancelled.
#[derive(Clone, Copy)]
pub struct RestartState {
    pub attempts: u32,
    pub epoch: u64,
}

/// Everything the manager knows, by project id.
pub struct ManagerState<H> {
    pub processes: Map<Seq<char>, ProcessView<H>>,
    pub statuses: Map<Seq<char>, ProjectStatus>,
    pub error_counts: Map<Seq<char>, u32>,
    pub restarts: Map<Seq<char>, RestartState>,
}

pub struct ProcessManager<H> {
    processes: IdMap<RunningProcess<H>>,
    /// Last known status, kept after the process is gone (a crash has to
    /// stay visible).
    statuses: IdMap<ProjectStatus>,
    /// Error/warning-looking lines seen since the log was last opened.
    error_counts: IdMap<u32>,
    restart_state: IdMap<RestartState>,
}

impl<H> View for ProcessManager<H> {
    type V = ManagerState<H>;

    closed spec fn view(&self) -> ManagerState<H> {
        ManagerState {
            processes: self.processes@.map_values(|p: RunningProcess<H>| p@),
            statuses: self.statuses@,
            error_counts: self.error_counts@,
            restarts: self.restart_state@,
        }
    }
}

// ---------------------------------------------------------------------------
// Transitions, stated over the manager's state
// ---------------------------------------------------------------------------

/// The restart progress recorded for `id`, or none yet.
pub open spec fn restart_entry<H>(s: ManagerState<H>, id: Seq<char>) -> RestartState {
    if s.restarts.contains_key(id) { s.restarts[id] } else { RestartState { attempts: 0, epoch: 0 } }
}

pub open spec fn with_status<H>(s: ManagerState<H>, id: Seq<char>, st: ProjectStatus) -> ManagerState<H> {
    ManagerState { statuses: s.statuses.insert(id, st), ..s }
}

/// The epoch after `epoch`; wraps around instead of overflowing.
pub open spec fn next_epoch(epoch: u64) -> u64 {
    if epoch == u64::MAX { 0 } else { (epoch + 1) as u64 }
}

/// After an explicit stop: the restart epoch moves on, and a live process
/// is marked as being stopped.
pub open spec fn stopped_state<H>(s: ManagerState<H>, id: Seq<char>) -> ManagerState<H> {
    let e = restart_entry(s, id);
    ManagerState {
        restarts: s.restarts.insert(id, RestartState { attempts: e.attempts, epoch: next_epoch(e.epoch) }),
        processes: if s.processes.contains_key(id) {
            s.processes.insert(id, ProcessView { stopping: true, ..s.processes[id] })
        } else {
            s.processes
        },
        ..s
    }
}

/// A restart scheduled in `epoch` may still go ahead.
pub open spec fn restart_valid<H>(s: ManagerState<H>, id: Seq<char>, epoch: u64) -> bool {
    s.restarts.contains_key(id) && s.restarts[id].epoch == epoch
}

/// What the policy decided for a crashed project.
#[derive(Debug, Clone, Copy)]
pub enum RestartDecision {
    /// Restart after `delay_ms`, unless an explicit stop moves the epoch on.
    Scheduled { attempt: u32, delay_ms: u64, epoch: u64 },
    /// Out of attempts: nothing more happens automatically.
    Exhausted { attempt: u32 },
}

pub open spec fn next_attempt<H>(s: ManagerState<H>, id: Seq<char>) -> u32 {
    let a = restart_entry(s, id).attempts;
    if a == u32::MAX { a } else { (a + 1) as u32 }
}

pub open spec fn restart_decision<H>(s: ManagerState<H>, id: Seq<char>) -> RestartDecision {
    let attempt = next_attempt(s, id);
    if attempt > MAX_RESTART_ATTEMPTS {
        RestartDecision::Exhausted { attempt }
    } else {
        RestartDecision::Scheduled {
            attempt,
            delay_ms: restart_delay(attempt),
            epoch: restart_entry(s, id).epoch,
        }
    }
}

pub open spec fn scheduled_state<H>(s: ManagerState<H>, id: Seq<char>) -> ManagerState<H> {
    ManagerState {
        restarts: s.restarts.insert(
            id,
            RestartState { attempts: next_attempt(s, id), epoch: restart_entry(s, id).epoch },
        ),
        ..s
    }
}

/// How a process exit is classified: a stop the user asked for, or a clean
/// exit, is `Stopped`; anything else is a crash.
pub open spec fn exit_status<H>(s: ManagerState<H>, id: Seq<char>, success: bool) -> ProjectStatus {
    if success || (s.processes.contains_key(id) && s.processes[id].stopping) {
        ProjectStatus::Stopped
    } else {
        ProjectStatus::Crashed
    }
}

/// The state after the crash bookkeeping of an exit: a long-lived process
/// starts a new backoff sequence; an auto-restarting one counts an attempt.
pub open spec fn crash_state<H>(s: ManagerState<H>, id: Seq<char>, uptime_ms: u64, auto_restart: bool) -> ManagerState<H> {
    let reset = if uptime_ms >= MIN_UPTIME_FOR_RESTART_RESET_MS {
        ManagerState { restarts: s.restarts.remove(id), ..s }
    } else {
        s
    };
    if auto_restart { scheduled_state(reset, id) } else { reset }
}

pub open spec fn crash_decision<H>(s: ManagerState<H>, id: Seq<char>, uptime_ms: u64) -> RestartDecision {
    let reset = if uptime_ms >= MIN_UPTIME_FOR_RESTART_RESET_MS {
        ManagerState { restarts: s.restarts.remove(id), ..s }
    } else {
        s
    };
    restart_decision(reset, id)
}

pub open spec fn exited_state<H>(s: ManagerState<H>, id: Seq<char>, success: bool, uptime_ms: u64, auto_restart: bool) -> ManagerState<H> {
    let st = exit_status(s, id, success);
    let gone = ManagerState { processes: s.processes.remove(id), ..s };
    let after = if st == ProjectStatus::Crashed { crash_state(gone, id, uptime_ms, auto_restart) } else { gone };
    with_status(after, id, st)
}

/// The events an exit produces, in order.
pub open spec fn exit_events<H>(s: ManagerState<H>, id: Seq<char>, name: Seq<char>, code: i32, success: bool, uptime_ms: u64, auto_restart: bool) -> Seq<EventView> {
    let st = exit_status(s, id, success);
    let gone = ManagerState { processes: s.processes.remove(id), ..s };
    let crash = if st == ProjectStatus::Crashed {
        seq![EventView::Crashed { id, name, code }] + if auto_restart {
            match crash_decision(gone, id, uptime_ms) {
                RestartDecision::Scheduled { attempt, delay_ms, .. } => seq![EventView::RestartScheduled {
                    id,
                    attempt,
                    max_attempts: MAX_RESTART_ATTEMPTS,
                    delay_ms,
                }],
                RestartDecision::Exhausted { .. } => seq![EventView::RestartExhausted { id }],
            }
        } else {
            Seq::empty()
        }
    } else {
        Seq::empty()
    };
    crash + seq![EventView::Status { id, status: st, pid: None }, EventView::Exit { id, code }]
}

/// What an exit led to.
#[derive(Debug)]
pub struct ExitOutcome {
    pub status: ProjectStatus,
    /// The restart to carry out later, if one was scheduled.
    pub restart: Option<RestartDecision>,
    /// Whether the restart budget ran out on this exit.
    pub exhausted: bool,
    pub events: Vec<Event>,
}

impl<H> ProcessManager<H> {
    pub fn new() -> (m: Self)
        ensures
            m@.processes == Map::<Seq<char>, ProcessView<H>>::empty(),
            m@.statuses == Map::<Seq<char>, ProjectStatus>::empty(),
            m@.error_counts == Map::<Seq<char>, u32>::empty(),
            m@.restarts == Map::<Seq<char>, RestartState>::empty(),
    {
        let m = ProcessManager {
            processes: IdMap::new(),
            statuses: IdMap::new(),
            error_counts: IdMap::new(),
            restart_state: IdMap::new(),
        };
        assert(m@.processes =~= Map::<Seq<char>, ProcessView<H>>::empty());
        m
    }

    /// Marks `id` as starting, unless it is already running.
    pub fn begin_start(&mut self, id: &str, name: &str) -> (r: Result<Event, AppError>)
        ensures
            match r {
                Ok(e) => !old(self)@.processes.contains_key(id@)
                    && final(self)@ == with_status(old(self)@, id@, ProjectStatus::Starting)
                    && e@ == (EventView::Status { id: id@, status: ProjectStatus::Starting, pid: None }),
                Err(e) => old(self)@.processes.contains_key(id@)
                    && final(self)@ == old(self)@
                    && e.code == "PROC_ALREADY_RUNNING"
                    && e.message@ == "Project \""@ + name@ + "\" is already running"@,
            },
    {
        if self.processes.contains(id) {
            let message = String::from_str("Project \"").concat(name).concat("\" is already running");
            return Err(AppError::new(MODULE, "PROC_ALREADY_RUNNING", message));
        }
        self.statuses.insert(id, ProjectStatus::Starting);
        proof {
            assert(self@.processes =~= old(self)@.processes);
        }
        Ok(Event::Status { id: to_owned_string(id), status: ProjectStatus::Starting, pid: None })
    }
}


impl<H> ProcessManager<H> {
    /// Records that starting `id` failed before a process existed.
    pub fn spawn_failed(&mut self, id: &str) -> (e: Event)
        ensures
            final(self)@ == with_status(old(self)@, id@, ProjectStatus::Crashed),
            e@ == (EventView::Status { id: id@, status: ProjectStatus::Crashed, pid: None }),
    {
        self.statuses.insert(id, ProjectStatus::Crashed);
        proof {
            assert(self@.processes =~= old(self)@.processes);
        }
        Event::Status { id: to_owned_string(id), status: ProjectStatus::Crashed, pid: None }
    }

    /// Records a freshly spawned process and marks it running.
    pub fn register_spawned(&mut self, id: &str, pid: i32, handle: H) -> (e: Event)
        ensures
            final(self)@ == (ManagerState {
                processes: old(self)@.processes.insert(
                    id@,
                    ProcessView { pid, stopping: false, output: Seq::empty(), handle },
                ),
                ..with_status(old(self)@, id@, ProjectStatus::Running)
            }),
            e@ == (EventView::Status { id: id@, status: ProjectStatus::Running, pid: Some(pid as u32) }),
    {
        let running = RunningProcess { pid, stopping: false, output: Vec::new(), handle };
        proof {
            assert(running@ == ProcessView { pid, stopping: false, output: Seq::<u8>::empty(), handle });
        }
        self.processes.insert(id, running);
        self.statuses.insert(id, ProjectStatus::Running);
        proof {
            assert(self@.processes =~= old(self)@.processes.insert(
                id@,
                ProcessView { pid, stopping: false, output: Seq::empty(), handle },
            ));
        }
        Event::Status { id: to_owned_string(id), status: ProjectStatus::Running, pid: Some(pid as u32) }
    }

    /// An explicit stop (manual, restart, or before a delete): cancels any
    /// pending auto-restart and marks a live process as being stopped.
    /// Returns the pid to signal, if the project is running.
    pub fn begin_stop(&mut self, id: &str) -> (r: Option<i32>)
        ensures
            final(self)@ == stopped_state(old(self)@, id@),
            r == (if old(self)@.processes.contains_key(id@) {
                Some(old(self)@.processes[id@].pid)
            } else {
                None
            }),
    {
        let entry = match self.restart_state.get(id) {
            Some(e) => *e,
            None => RestartState { attempts: 0, epoch: 0 },
        };
        let next = if entry.epoch == u64::MAX { 0 } else { entry.epoch + 1 };
        let bumped = RestartState { attempts: entry.attempts, epoch: next };
        self.restart_state.insert(id, bumped);
        let ghost mid = self@;
        let r = match self.processes.remove(id) {
            Some(p) => {
                let pid = p.pid;
                let marked = RunningProcess { stopping: true, ..p };
                self.processes.insert(id, marked);
                Some(pid)
            },
            None => None,
        };
        proof {
            let e = restart_entry(old(self)@, id@);
            assert(bumped == RestartState { attempts: e.attempts, epoch: next_epoch(e.epoch) });
            assert(self@.processes =~= stopped_state(old(self)@, id@).processes);
            assert(self@.restarts =~= stopped_state(old(self)@, id@).restarts);
        }
        r
    }

    /// Whether a restart scheduled in `epoch` may still go ahead.
    pub fn restart_still_valid(&self, id: &str, epoch: u64) -> (r: bool)
        ensures
            r == restart_valid(self@, id@, epoch),
    {
        match self.restart_state.get(id) {
            Some(e) => e.epoch == epoch,
            None => false,
        }
    }

    fn schedule_restart(&mut self, id: &str) -> (d: RestartDecision)
        ensures
            final(self)@ == scheduled_state(old(self)@, id@),
            d == restart_decision(old(self)@, id@),
    {
        let entry = match self.restart_state.get(id) {
            Some(e) => *e,
            None => RestartState { attempts: 0, epoch: 0 },
        };
        let attempt = entry.attempts.saturating_add(1);
        self.restart_state.insert(id, RestartState { attempts: attempt, epoch: entry.epoch });
        proof {
            assert(self@.processes =~= old(self)@.processes);
        }
        if attempt > MAX_RESTART_ATTEMPTS {
            RestartDecision::Exhausted { attempt }
        } else {
            RestartDecision::Scheduled { attempt, delay_ms: backoff_delay_ms(attempt), epoch: entry.epoch }
        }
    }

    /// Records that the process of `id` exited, with exit `code` and whether
    /// it reported success, after running `uptime_ms`. Classifies the exit,
    /// applies the restart policy when `auto_restart` is on, and returns the
    /// events to emit in order.
    pub fn on_exit(
        &mut self,
        id: &str,
        name: &str,
        code: i32,
        success: bool,
        uptime_ms: u64,
        auto_restart: bool,
    ) -> (out: ExitOutcome)
        ensures
            final(self)@ == exited_state(old(self)@, id@, success, uptime_ms, auto_restart),
            out.status == exit_status(old(self)@, id@, success),
            events_view(out.events@) == exit_events(old(self)@, id@, name@, code, success, uptime_ms, auto_restart),
            out.restart == (if out.status == ProjectStatus::Crashed && auto_restart {
                match crash_decision(
                    ManagerState { processes: old(self)@.processes.remove(id@), ..old(self)@ },
                    id@,
                    uptime_ms,
                ) {
                    RestartDecision::Scheduled { attempt, delay_ms, epoch } => Some(
                        RestartDecision::Scheduled { attempt, delay_ms, epoch },
                    ),
                    RestartDecision::Exhausted { .. } => None,
                }
            } else {
                None
            }),
            out.exhausted == (out.status == ProjectStatus::Crashed && auto_restart
                && crash_decision(
                    ManagerState { processes: old(self)@.processes.remove(id@), ..old(self)@ },
                    id@,
                    uptime_ms,
                ) is Exhausted),
    {
        let was_stopping = match self.processes.get(id) {
            Some(p) => p.stopping,
            None => false,
        };
        self.processes.remove(id);
        let ghost gone = self@;
        proof {
            assert(gone.processes =~= old(self)@.processes.remove(id@));
            assert(gone == ManagerState { processes: old(self)@.processes.remove(id@), ..old(self)@ });
        }
        let status = if was_stopping || success { ProjectStatus::Stopped } else { ProjectStatus::Crashed };
        let mut events: Vec<Event> = Vec::new();
        let mut restart: Option<RestartDecision> = None;
        let mut exhausted = false;
        if status == ProjectStatus::Crashed {
            events.push(Event::Crashed { id: to_owned_string(id), name: to_owned_string(name), code });
            if uptime_ms >= MIN_UPTIME_FOR_RESTART_RESET_MS {
                self.restart_state.remove(id);
            }
            let ghost reset = self@;
            proof {
                assert(self@.processes =~= gone.processes);
                if uptime_ms >= MIN_UPTIME_FOR_RESTART_RESET_MS {
                    assert(reset == ManagerState { restarts: gone.restarts.remove(id@), ..gone });
                } else {
                    assert(reset == gone);
                }
            }
            if auto_restart {
                let decision = self.schedule_restart(id);
                match decision {
                    RestartDecision::Scheduled { attempt, delay_ms, epoch } => {
                        events.push(Event::RestartScheduled {
                            id: to_owned_string(id),
                            attempt,
                            max_attempts: MAX_RESTART_ATTEMPTS,
                            delay_ms,
                        });
                        restart = Some(RestartDecision::Scheduled { attempt, delay_ms, epoch });
                    },
                    RestartDecision::Exhausted { attempt } => {
                        events.push(Event::RestartExhausted { id: to_owned_string(id) });
                        exhausted = true;
                    },
                }
            }
        }
        self.statuses.insert(id, status);
        events.push(Event::Status { id: to_owned_string(id), status, pid: None });
        events.push(Event::Exit { id: to_owned_string(id), code });
        proof {
            assert(status == exit_status(old(self)@, id@, success));
            assert(self@.processes =~= exited_state(old(self)@, id@, success, uptime_ms, auto_restart).processes);
            assert(self@ == exited_state(old(self)@, id@, success, uptime_ms, auto_restart));
            assert(events_view(events@) =~= exit_events(old(self)@, id@, name@, code, success, uptime_ms, auto_restart));
        }
        ExitOutcome { status, restart, exhausted, events }
    }
}


/// The scrollback after appending `chunk` to `buf`: everything, or only the
/// most recent `RING_BUFFER_MAX` bytes once that is exceeded.
pub open spec fn ring_append(buf: Seq<u8>, chunk: Seq<u8>) -> Seq<u8> {
    let all = buf + chunk;
    if all.len() > RING_BUFFER_MAX {
        all.subrange(all.len() - RING_BUFFER_MAX, all.len() as int)
    } else {
        all
    }
}

/// Appends `chunk` to the scrollback `ring`, dropping the oldest bytes
/// beyond `RING_BUFFER_MAX`.
pub fn append_to_ring(ring: &mut Vec<u8>, chunk: &[u8])
    ensures
        final(ring)@ == ring_append(old(ring)@, chunk@),
{
    let mut i: usize = 0;
    while i < chunk.len()
        invariant
            i <= chunk@.len(),
            ring@ == old(ring)@ + chunk@.take(i as int),
        decreases chunk@.len() - i,
    {
        ring.push(chunk[i]);
        i += 1;
        assert(ring@ =~= old(ring)@ + chunk@.take(i as int));
    }
    assert(chunk@.take(chunk@.len() as int) =~= chunk@);
    let len = ring.len();
    if len > RING_BUFFER_MAX {
        let excess = len - RING_BUFFER_MAX;
        let mut kept: Vec<u8> = Vec::new();
        let mut j: usize = excess;
        while j < len
            invariant
                excess <= j <= len,
                len == ring@.len(),
                kept@ == ring@.subrange(excess as int, j as int),
            decreases len - j,
        {
            kept.push(ring[j]);
            j += 1;
            assert(kept@ =~= ring@.subrange(excess as int, j as int));
        }
        *ring = kept;
    }
}

/// Running or on its way up.
pub open spec fn is_live(st: ProjectStatus) -> bool {
    st == ProjectStatus::Running || st == ProjectStatus::Starting
}

/// The ids among `ids` whose status is live, in order.
pub open spec fn live_among(ids: Seq<Seq<char>>, statuses: Map<Seq<char>, ProjectStatus>) -> Seq<Seq<char>>
    decreases ids.len(),
{
    if ids.len() == 0 {
        seq![]
    } else {
        let rest = live_among(ids.drop_last(), statuses);
        if is_live(statuses[ids.last()]) { rest.push(ids.last()) } else { rest }
    }
}

/// The error counter after `matches` more error lines (saturating).
pub open spec fn bumped_count<H>(s: ManagerState<H>, id: Seq<char>, matches: u32) -> u32 {
    let old = if s.error_counts.contains_key(id) { s.error_counts[id] } else { 0 };
    if old + matches > u32::MAX { u32::MAX } else { (old + matches) as u32 }
}

/// The events a chunk of output produces: the first local URL (unless one
/// was already reported) and the new error count (if the chunk added any).
pub open spec fn scan_events<H>(s: ManagerState<H>, id: Seq<char>, chunk: Seq<u8>, url_found: bool) -> Seq<EventView> {
    let text = utf8_lossy_text(chunk);
    let url = if !url_found && local_url_of(text) is Some {
        seq![EventView::UrlDetected { id, url: local_url_of(text)->0 }]
    } else {
        seq![]
    };
    let matches = error_line_count(text) as u32;
    let errors = if matches > 0 {
        seq![EventView::ErrorCount { id, count: bumped_count(s, id, matches) }]
    } else {
        seq![]
    };
    url + errors
}

pub open spec fn scanned_state<H>(s: ManagerState<H>, id: Seq<char>, chunk: Seq<u8>) -> ManagerState<H> {
    let matches = error_line_count(utf8_lossy_text(chunk)) as u32;
    ManagerState {
        processes: if s.processes.contains_key(id) {
            s.processes.insert(id, ProcessView { output: ring_append(s.processes[id].output, chunk), ..s.processes[id] })
        } else {
            s.processes
        },
        error_counts: if matches > 0 { s.error_counts.insert(id, bumped_count(s, id, matches)) } else { s.error_counts },
        ..s
    }
}

impl<H> ProcessManager<H> {
    /// The ids that have a status, in the order a snapshot lists them.
    pub closed spec fn status_order(&self) -> Seq<Seq<char>> {
        self.statuses.ids()
    }

    /// The snapshot order lists each project with a status once.
    proof fn lemma_status_order(&self)
        requires
            self.statuses.wf(),
        ensures
            self.status_order().no_duplicates(),
            self.status_order().to_set() == self@.statuses.dom(),
    {
        self.statuses.lemma_dom_is_ids();
    }

    /// Every project's last known status.
    pub fn snapshot_statuses(&self) -> (r: IdMap<ProjectStatus>)
        ensures
            r@ == self@.statuses,
    {
        self.statuses.copy()
    }

    /// Error/warning lines counted for `id` since its log was last opened.
    pub fn error_count(&self, id: &str) -> (n: u32)
        ensures
            n == (if self@.error_counts.contains_key(id@) { self@.error_counts[id@] } else { 0 }),
    {
        match self.error_counts.get(id) {
            Some(n) => *n,
            None => 0,
        }
    }

    pub fn reset_error_count(&mut self, id: &str)
        ensures
            final(self)@ == (ManagerState { error_counts: old(self)@.error_counts.remove(id@), ..old(self)@ }),
    {
        self.error_counts.remove(id);
        assert(self@.processes =~= old(self)@.processes);
    }

    /// Drops all bookkeeping for a deleted project.
    pub fn forget(&mut self, id: &str)
        ensures
            final(self)@ == (ManagerState {
                statuses: old(self)@.statuses.remove(id@),
                error_counts: old(self)@.error_counts.remove(id@),
                restarts: old(self)@.restarts.remove(id@),
                ..old(self)@
            }),
    {
        self.statuses.remove(id);
        self.error_counts.remove(id);
        self.restart_state.remove(id);
        assert(self@.processes =~= old(self)@.processes);
    }

    /// The pid of the running process of `id`.
    pub fn pid_of(&self, id: &str) -> (r: Option<i32>)
        ensures
            r == (if self@.processes.contains_key(id@) { Some(self@.processes[id@].pid) } else { None }),
    {
        match self.processes.get(id) {
            Some(p) => Some(p.pid),
            None => None,
        }
    }

    /// What the caller keeps to reach the running process of `id`.
    pub fn handle_of(&self, id: &str) -> (r: Option<&H>)
        ensures
            match r {
                Some(h) => self@.processes.contains_key(id@) && *h == self@.processes[id@].handle,
                None => !self@.processes.contains_key(id@),
            },
    {
        match self.processes.get(id) {
            Some(p) => Some(&p.handle),
            None => None,
        }
    }

    /// `r` lists, in snapshot order, every project's id, status and the
    /// pid of its running process.
    pub open spec fn is_snapshot(&self, r: Seq<StatusPayload>) -> bool {
        &&& self.status_order().no_duplicates()
        &&& self.status_order().to_set() == self@.statuses.dom()
        &&& r.len() == self.status_order().len()
        &&& forall|i: int| 0 <= i < r.len() ==> {
            let k = #[trigger] self.status_order()[i];
            &&& r[i].id@ == k
            &&& r[i].status == self@.statuses[k]
            &&& r[i].pid == (if self@.processes.contains_key(k) {
                Some(self@.processes[k].pid as u32)
            } else {
                None
            })
        }
    }

    /// Status and pid of every project the manager has seen.
    pub fn snapshot_all(&self) -> (r: Vec<StatusPayload>)
        ensures
            self.is_snapshot(r@),
    {
        proof {
            use_type_invariant(&self.statuses);
            self.lemma_status_order();
        }
        let mut out: Vec<StatusPayload> = Vec::new();
        let n = self.statuses.len();
        let mut i: usize = 0;
        while i < n
            invariant
                n == self.status_order().len(),
                i <= n,
                out@.len() == i,
                forall|j: int| 0 <= j < i ==> {
                    let k = #[trigger] self.status_order()[j];
                    &&& out@[j].id@ == k
                    &&& out@[j].status == self@.statuses[k]
                    &&& out@[j].pid == (if self@.processes.contains_key(k) {
                        Some(self@.processes[k].pid as u32)
                    } else {
                        None
                    })
                },
            decreases n - i,
        {
            let (id, status) = self.statuses.entry(i);
            let pid = match self.processes.get(id.as_str()) {
                Some(p) => Some(p.pid as u32),
                None => None,
            };
            out.push(StatusPayload { id: id.clone(), status: *status, pid });
            i += 1;
        }
        out
    }

    /// The projects that are running or starting, in snapshot order.
    pub fn live_ids(&self) -> (r: Vec<String>)
        ensures
            r@.map_values(|s: String| s@) == live_among(self.status_order(), self@.statuses),
    {
        let mut out: Vec<String> = Vec::new();
        let n = self.statuses.len();
        let mut i: usize = 0;
        while i < n
            invariant
                n == self.status_order().len(),
                i <= n,
                out@.map_values(|s: String| s@) == live_among(self.status_order().take(i as int), self@.statuses),
            decreases n - i,
        {
            let (id, status) = self.statuses.entry(i);
            proof {
                assert(self.status_order().take(i + 1).drop_last() =~= self.status_order().take(i as int));
            }
            let ghost before = out@;
            if *status == ProjectStatus::Running || *status == ProjectStatus::Starting {
                out.push(id.clone());
                assert(out@.map_values(|s: String| s@) =~= before.map_values(|s: String| s@).push(id@));
            }
            i += 1;
        }
        assert(self.status_order().take(n as int) =~= self.status_order());
        out
    }

    /// How many projects are running or starting.
    pub fn running_count(&self) -> (n: usize)
        ensures
            n == live_among(self.status_order(), self@.statuses).len(),
    {
        self.live_ids().len()
    }

    /// The scrollback of the running process of `id`, decoded.
    pub fn get_output(&self, id: &str) -> (r: String)
        ensures
            r@ == (if self@.processes.contains_key(id@) {
                utf8_lossy_text(self@.processes[id@].output)
            } else {
                Seq::empty()
            }),
    {
        match self.processes.get(id) {
            Some(p) => utf8_lossy(p.output.as_slice()),
            None => String::new(),
        }
    }

    /// Takes in a chunk read from the process of `id`: keeps it in the
    /// scrollback, reports the first local URL (unless `url_found`), and
    /// adds its error lines to the counter. Returns the events to emit and
    /// whether a URL has now been found.
    pub fn scan_output(&mut self, id: &str, chunk: &[u8], url_found: bool) -> (r: (Vec<Event>, bool))
        ensures
            final(self)@ == scanned_state(old(self)@, id@, chunk@),
            counter_after_chunk(old(self)@, final(self)@, id@, error_line_count(utf8_lossy_text(chunk@))),
            events_view(r.0@) == scan_events(old(self)@, id@, chunk@, url_found),
            r.1 == (url_found || local_url_of(utf8_lossy_text(chunk@)) is Some),
    {
        let ghost s0 = self@;
        match self.processes.remove(id) {
            Some(p) => {
                let mut output = p.output;
                append_to_ring(&mut output, chunk);
                self.processes.insert(id, RunningProcess { output, ..p });
            },
            None => {},
        }
        proof {
            assert(self@.processes =~= scanned_state(s0, id@, chunk@).processes);
        }
        let mut events: Vec<Event> = Vec::new();
        let mut found = url_found;
        if !url_found {
            match detect_url(chunk) {
                Some(url) => {
                    events.push(Event::UrlDetected { id: to_owned_string(id), url });
                    found = true;
                },
                None => {},
            }
        }
        let ghost url_events = events@;
        let text = utf8_lossy(chunk);
        let matches = count_error_matches(text.as_str());
        if matches > 0 {
            let previous = self.error_count(id);
            let total = previous.saturating_add(matches);
            self.error_counts.insert(id, total);
            events.push(Event::ErrorCount { id: to_owned_string(id), count: total });
        }
        proof {
            assert(self@.processes =~= scanned_state(s0, id@, chunk@).processes);
            assert(self@.error_counts =~= scanned_state(s0, id@, chunk@).error_counts);
            assert(events_view(events@) =~= scan_events(s0, id@, chunk@, url_found));
            law_error_lines_raise_the_counter(s0, id@, chunk@, url_found);
        }
        (events, found)
    }
}


// ---------------------------------------------------------------------------
// Laws
// ---------------------------------------------------------------------------

/// The counter of project `id` went from its value in `before` to its value
/// in `after` by taking in `lines` error lines: it rose by exactly that
/// many, saturating at `u32::MAX` (no line, no change); every other
/// project's counter is untouched.
pub open spec fn counter_after_chunk<H>(before: ManagerState<H>, after: ManagerState<H>, id: Seq<char>, lines: nat) -> bool {
    let prev: int = if before.error_counts.contains_key(id) { before.error_counts[id] as int } else { 0 };
    &&& (1 <= lines <= u32::MAX ==> after.error_counts.contains_key(id) && after.error_counts[id] as int == (
        if prev + lines > u32::MAX { u32::MAX as int } else { prev + lines }))
    &&& (lines == 0 ==> after.error_counts == before.error_counts)
    &&& forall|other: Seq<char>| other != id ==> after.error_counts.contains_key(other) == before.error_counts.contains_key(other)
        && (before.error_counts.contains_key(other) ==> #[trigger] after.error_counts[other] == before.error_counts[other])
}

/// Each chunk of output raises the project's error counter by the number
/// of error or warning lines it holds (saturating at `u32::MAX`), whatever
/// that number, and reports the new total; a chunk without such lines
/// changes no counter and reports nothing.
pub proof fn law_error_lines_raise_the_counter<H>(s: ManagerState<H>, id: Seq<char>, chunk: Seq<u8>, url_found: bool)
    ensures
        ({
            let lines = error_line_count(utf8_lossy_text(chunk));
            let after = scanned_state(s, id, chunk);
            let events = scan_events(s, id, chunk, url_found);
            &&& counter_after_chunk(s, after, id, lines)
            &&& (1 <= lines <= u32::MAX ==> events.len() > 0
                && events.last() == (EventView::ErrorCount { id, count: after.error_counts[id] }))
            &&& (lines == 0 ==> forall|k: int| 0 <= k < events.len() ==> !(#[trigger] events[k] is ErrorCount))
        }),
{
    let text = utf8_lossy_text(chunk);
    let lines = error_line_count(text);
    let after = scanned_state(s, id, chunk);
    let events = scan_events(s, id, chunk, url_found);
    if lines == 0 {
        assert(after.error_counts == s.error_counts);
        let url = if !url_found && local_url_of(text) is Some {
            seq![EventView::UrlDetected { id, url: local_url_of(text)->0 }]
        } else {
            seq![]
        };
        assert(events =~= url);
    }
}

/// An explicit stop cancels every restart scheduled before it.
pub proof fn law_stop_cancels_pending_restart<H>(s: ManagerState<H>, id: Seq<char>, epoch: u64)
    requires
        restart_valid(s, id, epoch),
    ensures
        !restart_valid(stopped_state(s, id), id, epoch),
{
}

/// The first restart waits one second, and each further one twice as long
/// as the one before, up to thirty seconds.
pub proof fn law_restart_delay_doubles_until_cap(attempt: u32)
    requires
        1 <= attempt < u32::MAX,
    ensures
        restart_delay(1) == RESTART_BASE_DELAY_MS,
        restart_delay((attempt + 1) as u32) == (if 2 * restart_delay(attempt) > RESTART_MAX_DELAY_MS {
            RESTART_MAX_DELAY_MS as int
        } else {
            2 * restart_delay(attempt)
        }),
        restart_delay(attempt) <= RESTART_MAX_DELAY_MS,
{
    assert(two_to(attempt as nat) == 2 * two_to((attempt - 1) as nat));
    assert(two_to(0) == 1);
}

/// Later attempts never wait less: every delay lies between one and thirty
/// seconds, and it does not shrink as the attempt number grows.
pub proof fn law_restart_delay_is_monotone(a: u32, b: u32)
    requires
        1 <= a <= b,
    ensures
        RESTART_BASE_DELAY_MS <= restart_delay(a) <= restart_delay(b) <= RESTART_MAX_DELAY_MS,
{
    lemma_two_to_monotone((a - 1) as nat, (b - 1) as nat);
    lemma_two_to_monotone(0, (a - 1) as nat);
    assert(two_to(0) == 1);
}

/// A crashing project is restarted at most `MAX_RESTART_ATTEMPTS` times in
/// a row: the policy gives up exactly when that many attempts are recorded.
pub proof fn law_restart_budget<H>(s: ManagerState<H>, id: Seq<char>)
    ensures
        restart_decision(s, id) is Exhausted <==> restart_entry(s, id).attempts >= MAX_RESTART_ATTEMPTS,
        restart_entry(scheduled_state(s, id), id).attempts == next_attempt(s, id),
{
}

/// A crash after a short run continues the backoff sequence; a crash after
/// running at least `MIN_UPTIME_FOR_RESTART_RESET_MS` starts it over at the
/// first attempt and its one-second delay.
pub proof fn law_uptime_resets_backoff<H>(s: ManagerState<H>, id: Seq<char>, uptime_ms: u64)
    ensures
        uptime_ms >= MIN_UPTIME_FOR_RESTART_RESET_MS ==> crash_decision(s, id, uptime_ms) == (RestartDecision::Scheduled {
            attempt: 1,
            delay_ms: RESTART_BASE_DELAY_MS,
            epoch: 0,
        }),
        uptime_ms < MIN_UPTIME_FOR_RESTART_RESET_MS ==> crash_decision(s, id, uptime_ms) == restart_decision(s, id),
{
    if uptime_ms >= MIN_UPTIME_FOR_RESTART_RESET_MS {
        let reset = ManagerState { restarts: s.restarts.remove(id), ..s };
        assert(!reset.restarts.contains_key(id));
        assert(two_to(0) == 1);
    }
}

/// Stopping a running project never counts as a crash: its exit, whatever
/// the exit code, is a plain stop that schedules nothing.
pub proof fn law_stopped_exit_is_not_a_crash<H>(
    s: ManagerState<H>,
    id: Seq<char>,
    name: Seq<char>,
    code: i32,
    success: bool,
    uptime_ms: u64,
    auto_restart: bool,
)
    requires
        s.processes.contains_key(id),
    ensures
        exit_status(stopped_state(s, id), id, success) == ProjectStatus::Stopped,
        exit_events(stopped_state(s, id), id, name, code, success, uptime_ms, auto_restart) == seq![
            EventView::Status { id, status: ProjectStatus::Stopped, pid: None },
            EventView::Exit { id, code },
        ],
{
    assert(exit_events(stopped_state(s, id), id, name, code, success, uptime_ms, auto_restart) =~= seq![
        EventView::Status { id, status: ProjectStatus::Stopped, pid: None },
        EventView::Exit { id, code },
    ]);
}

/// The scrollback never exceeds `RING_BUFFER_MAX` bytes and always holds
/// the most recent output: it is a suffix of everything appended, and a
/// chunk that fits is kept whole at its end.
pub proof fn law_ring_keeps_recent_output(buf: Seq<u8>, chunk: Seq<u8>)
    ensures
        ring_append(buf, chunk).len() <= RING_BUFFER_MAX || ring_append(buf, chunk) == buf + chunk,
        buf.len() + chunk.len() <= RING_BUFFER_MAX ==> ring_append(buf, chunk) == buf + chunk,
        buf.len() <= RING_BUFFER_MAX ==> ring_append(buf, chunk).len() <= RING_BUFFER_MAX,
        ring_append(buf, chunk) == (buf + chunk).subrange(
            (buf + chunk).len() - ring_append(buf, chunk).len(),
            (buf + chunk).len() as int,
        ),
        chunk.len() <= RING_BUFFER_MAX ==> ring_append(buf, chunk).subrange(
            ring_append(buf, chunk).len() - chunk.len(),
            ring_append(buf, chunk).len() as int,
        ) == chunk,
{
    let all = buf + chunk;
    let r = ring_append(buf, chunk);
    assert(all.subrange(0, all.len() as int) =~= all);
    if chunk.len() <= RING_BUFFER_MAX {
        assert(r.subrange(r.len() - chunk.len(), r.len() as int) =~= chunk);
    }
}

/// A project is started only when it is not already running, and starting
/// it changes nothing but its status.
pub proof fn law_start_only_when_not_running<H>(s: ManagerState<H>, id: Seq<char>)
    ensures
        with_status(s, id, ProjectStatus::Starting).processes == s.processes,
        with_status(s, id, ProjectStatus::Starting).statuses[id] == ProjectStatus::Starting,
{
}

} // verus!

verus! {

// ---------------------------------------------------------------------------
// Reading a process's whole output
// ---------------------------------------------------------------------------

/// The last `n` bytes of `s` (all of it when shorter).
pub open spec fn last_bytes(s: Seq<u8>, n: nat) -> Seq<u8> {
    if s.len() > n { s.subrange(s.len() - n, s.len() as int) } else { s }
}

/// The chunks one after the other.
pub open spec fn joined(chunks: Seq<Seq<u8>>) -> Seq<u8>
    decreases chunks.len(),
{
    if chunks.len() == 0 { seq![] } else { joined(chunks.drop_last()) + chunks.last() }
}

/// How many URL reports `events` hold.
pub open spec fn url_reports(events: Seq<EventView>) -> nat
    decreases events.len(),
{
    if events.len() == 0 {
        0
    } else {
        url_reports(events.drop_last()) + if events.last() is UrlDetected { 1nat } else { 0nat }
    }
}

/// Scanning `chunks` from process `id` in turn, the URL flag handed from
/// each scan to the next: the final state, every event in order, and the
/// final flag.
pub open spec fn scan_all<H>(s: ManagerState<H>, id: Seq<char>, chunks: Seq<Seq<u8>>, url_found: bool) -> (
    ManagerState<H>,
    Seq<EventView>,
    bool,
)
    decreases chunks.len(),
{
    if chunks.len() == 0 {
        (s, seq![], url_found)
    } else {
        let (s1, events, found) = scan_all(s, id, chunks.drop_last(), url_found);
        let c = chunks.last();
        (
            scanned_state(s1, id, c),
            events + scan_events(s1, id, c, found),
            found || local_url_of(utf8_lossy_text(c)) is Some,
        )
    }
}

proof fn lemma_url_reports_add(a: Seq<EventView>, b: Seq<EventView>)
    ensures
        url_reports(a + b) == url_reports(a) + url_reports(b),
    decreases b.len(),
{
    if b.len() == 0 {
        assert(a + b =~= a);
    } else {
        assert((a + b).drop_last() =~= a + b.drop_last());
        lemma_url_reports_add(a, b.drop_last());
    }
}

proof fn lemma_last_bytes_append(x: Seq<u8>, c: Seq<u8>, n: nat)
    ensures
        last_bytes(last_bytes(x, n) + c, n) == last_bytes(x + c, n),
{
    let y = last_bytes(x, n);
    if x.len() > n {
        if c.len() == 0 {
            assert(y + c =~= y);
            assert(x + c =~= x);
        } else {
            assert(last_bytes(y + c, n) =~= last_bytes(x + c, n));
        }
    }
}

/// Whatever a running process prints, chunk after chunk, its scrollback
/// ends up as the most recent `RING_BUFFER_MAX` bytes of all it printed
/// after what was kept before; its URL is reported at most once (never
/// when one was already found), and once reported the flag stays set.
pub proof fn law_output_over_chunks<H>(s: ManagerState<H>, id: Seq<char>, chunks: Seq<Seq<u8>>, url_found: bool)
    requires
        s.processes.contains_key(id),
    ensures
        ({
            let (s2, events, found) = scan_all(s, id, chunks, url_found);
            &&& s2.processes.contains_key(id)
            &&& s2.processes[id].output == last_bytes(s.processes[id].output + joined(chunks), RING_BUFFER_MAX as nat)
                || (chunks.len() == 0 && s2.processes[id].output == s.processes[id].output)
            &&& url_reports(events) <= 1
            &&& (url_found ==> url_reports(events) == 0 && found)
            &&& (url_reports(events) == 1 ==> found)
        }),
    decreases chunks.len(),
{
    if chunks.len() > 0 {
        let rest = chunks.drop_last();
        let c = chunks.last();
        law_output_over_chunks(s, id, rest, url_found);
        let (s1, events, found) = scan_all(s, id, rest, url_found);
        let o = s.processes[id].output;
        let new_events = scan_events(s1, id, c, found);
        lemma_url_reports_add(events, new_events);
        let text = utf8_lossy_text(c);
        let url_part: Seq<EventView> = if !found && local_url_of(text) is Some {
            seq![EventView::UrlDetected { id, url: local_url_of(text)->0 }]
        } else {
            seq![]
        };
        let matches = error_line_count(text) as u32;
        let err_part: Seq<EventView> = if matches > 0 {
            seq![EventView::ErrorCount { id, count: bumped_count(s1, id, matches) }]
        } else {
            seq![]
        };
        assert(new_events == url_part + err_part);
        lemma_url_reports_add(url_part, err_part);
        assert(url_reports(err_part) == 0) by {
            reveal_with_fuel(url_reports, 2);
            if matches > 0 {
                assert(err_part.drop_last() =~= Seq::<EventView>::empty());
            }
        }
        assert(url_reports(url_part) == (if !found && local_url_of(text) is Some { 1nat } else { 0nat })) by {
            reveal_with_fuel(url_reports, 2);
            if !found && local_url_of(text) is Some {
                assert(url_part.drop_last() =~= Seq::<EventView>::empty());
            }
        }
        assert(joined(chunks) == joined(rest) + c);
        if rest.len() == 0 {
            assert(joined(rest) =~= Seq::<u8>::empty());
            assert(o + joined(chunks) =~= o + c);
        } else {
            lemma_last_bytes_append(o + joined(rest), c, RING_BUFFER_MAX as nat);
            assert(o + joined(rest) + c =~= o + joined(chunks));
        }
    }
}

} // verus!
