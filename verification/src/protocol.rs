//! The messages the process supervisor and its clients exchange, and how a
//! process event is presented to the frontend.
//!
//! Serialization to line-delimited JSON happens outside the library; these
//! are the plain values it carries.

use crate::error::AppError;
use crate::process_manager::ProjectStatus;
use crate::project_store::Project;
use crate::text::to_owned_string;
use vstd::prelude::*;

verus! {

/// Something that happened to a managed process.
#[derive(Debug)]
pub enum Event {
    Status { id: String, status: ProjectStatus, pid: Option<u32> },
    Output { id: String, chunk: String },
    Exit { id: String, code: i32 },
    UrlDetected { id: String, url: String },
    ErrorCount { id: String, count: u32 },
    RestartScheduled { id: String, attempt: u32, max_attempts: u32, delay_ms: u64 },
    RestartExhausted { id: String },
    /// Turned into a native notification by the GUI; has no frontend event.
    Crashed { id: String, name: String, code: i32 },
}

/// An [`Event`] with its text taken by value.
pub enum EventView {
    Status { id: Seq<char>, status: ProjectStatus, pid: Option<u32> },
    Output { id: Seq<char>, chunk: Seq<char> },
    Exit { id: Seq<char>, code: i32 },
    UrlDetected { id: Seq<char>, url: Seq<char> },
    ErrorCount { id: Seq<char>, count: u32 },
    RestartScheduled { id: Seq<char>, attempt: u32, max_attempts: u32, delay_ms: u64 },
    RestartExhausted { id: Seq<char> },
    Crashed { id: Seq<char>, name: Seq<char>, code: i32 },
}

impl View for Event {
    type V = EventView;

    open spec fn view(&self) -> EventView {
        match self {
            Event::Status { id, status, pid } => EventView::Status { id: id@, status: *status, pid: *pid },
            Event::Output { id, chunk } => EventView::Output { id: id@, chunk: chunk@ },
            Event::Exit { id, code } => EventView::Exit { id: id@, code: *code },
            Event::UrlDetected { id, url } => EventView::UrlDetected { id: id@, url: url@ },
            Event::ErrorCount { id, count } => EventView::ErrorCount { id: id@, count: *count },
            Event::RestartScheduled { id, attempt, max_attempts, delay_ms } =>
                EventView::RestartScheduled {
                    id: id@,
                    attempt: *attempt,
                    max_attempts: *max_attempts,
                    delay_ms: *delay_ms,
                },
            Event::RestartExhausted { id } => EventView::RestartExhausted { id: id@ },
            Event::Crashed { id, name, code } => EventView::Crashed { id: id@, name: name@, code: *code },
        }
    }
}

/// The views of a list of events.
pub open spec fn events_view(events: Seq<Event>) -> Seq<EventView> {
    events.map_values(|e: Event| e@)
}


/// An error as it travels to a client: its code and message.
#[derive(Debug)]
pub struct WireError {
    pub code: String,
    pub message: String,
}

impl WireError {
    /// The wire form of `e`.
    pub fn from_app_error(e: AppError) -> (w: WireError)
        ensures
            w.code@ == e.code@,
            w.message@ == e.message@,
    {
        WireError { code: to_owned_string(e.code), message: e.message }
    }

    /// `[code] message`, as it is shown to the user.
    pub fn describe(&self) -> (r: String)
        ensures
            r@ == "["@ + self.code@ + "] "@ + self.message@,
    {
        String::from_str("[").concat(self.code.as_str()).concat("] ").concat(self.message.as_str())
    }
}

/// A command from the GUI to the supervisor.
#[derive(Debug)]
pub enum Request {
    /// Proves that the socket belongs to a live supervisor.
    Ping,
    Start { project: Box<Project> },
    Stop { id: String },
    Restart { project: Box<Project> },
    StartGroup { projects: Vec<Project> },
    StopGroup { project_ids: Vec<String> },
    /// The scrollback kept for a project.
    GetOutput { id: String },
    ListStatuses,
    ErrorCount { id: String },
    ResetErrorCount { id: String },
    Forget { id: String },
    GetStats { id: String },
}

/// A request paired with the id its response will carry.
#[derive(Debug)]
pub struct Envelope {
    pub id: u64,
    pub request: Request,
}

// ---------------------------------------------------------------------------
// Frontend events
// ---------------------------------------------------------------------------

/// A value in a frontend event payload.
#[derive(Debug)]
pub enum PayloadValue {
    Text(String),
    Unsigned(u64),
    Signed(i64),
    Null,
}

pub enum PayloadView {
    Text(Seq<char>),
    Unsigned(u64),
    Signed(i64),
    Null,
}

impl View for PayloadValue {
    type V = PayloadView;

    open spec fn view(&self) -> PayloadView {
        match self {
            PayloadValue::Text(s) => PayloadView::Text(s@),
            PayloadValue::Unsigned(n) => PayloadView::Unsigned(*n),
            PayloadValue::Signed(n) => PayloadView::Signed(*n),
            PayloadValue::Null => PayloadView::Null,
        }
    }
}

/// An event name and its payload's fields, as the frontend listens for it.
#[derive(Debug)]
pub struct FrontendEvent {
    pub name: &'static str,
    pub fields: Vec<(&'static str, PayloadValue)>,
}

pub open spec fn fields_view(fields: Seq<(&'static str, PayloadValue)>) -> Seq<(Seq<char>, PayloadView)> {
    fields.map_values(|f: (&'static str, PayloadValue)| (f.0@, f.1@))
}

/// The wire name of a status.
pub open spec fn status_text(st: ProjectStatus) -> Seq<char> {
    match st {
        ProjectStatus::Stopped => "stopped"@,
        ProjectStatus::Starting => "starting"@,
        ProjectStatus::Running => "running"@,
        ProjectStatus::Crashed => "crashed"@,
    }
}

pub fn status_name(st: ProjectStatus) -> (r: &'static str)
    ensures
        r@ == status_text(st),
{
    match st {
        ProjectStatus::Stopped => "stopped",
        ProjectStatus::Starting => "starting",
        ProjectStatus::Running => "running",
        ProjectStatus::Crashed => "crashed",
    }
}

/// The frontend event for `e`: its `process:*` name and payload fields.
pub open spec fn frontend_event_of(e: EventView) -> Option<(Seq<char>, Seq<(Seq<char>, PayloadView)>)> {
    match e {
        EventView::Status { id, status, pid } => Some((
            "process:status"@,
            seq![
                ("id"@, PayloadView::Text(id)),
                ("status"@, PayloadView::Text(status_text(status))),
                ("pid"@, match pid {
                    Some(p) => PayloadView::Unsigned(p as u64),
                    None => PayloadView::Null,
                }),
            ],
        )),
        EventView::Output { id, chunk } => Some((
            "process:output"@,
            seq![("id"@, PayloadView::Text(id)), ("chunk"@, PayloadView::Text(chunk))],
        )),
        EventView::Exit { id, code } => Some((
            "process:exit"@,
            seq![("id"@, PayloadView::Text(id)), ("code"@, PayloadView::Signed(code as i64))],
        )),
        EventView::UrlDetected { id, url } => Some((
            "process:url-detected"@,
            seq![("id"@, PayloadView::Text(id)), ("url"@, PayloadView::Text(url))],
        )),
        EventView::ErrorCount { id, count } => Some((
            "process:error-count"@,
            seq![("id"@, PayloadView::Text(id)), ("count"@, PayloadView::Unsigned(count as u64))],
        )),
        EventView::RestartScheduled { id, attempt, max_attempts, delay_ms } => Some((
            "process:restart-scheduled"@,
            seq![
                ("id"@, PayloadView::Text(id)),
                ("attempt"@, PayloadView::Unsigned(attempt as u64)),
                ("maxAttempts"@, PayloadView::Unsigned(max_attempts as u64)),
                ("delayMs"@, PayloadView::Unsigned(delay_ms)),
            ],
        )),
        EventView::RestartExhausted { id } => Some((
            "process:restart-exhausted"@,
            seq![("id"@, PayloadView::Text(id))],
        )),
        EventView::Crashed { .. } => None,
    }
}

fn text_field(key: &'static str, s: &String) -> (f: (&'static str, PayloadValue))
    ensures
        f.0 == key,
        f.1@ == PayloadView::Text(s@),
{
    (key, PayloadValue::Text(s.clone()))
}

impl Event {
    /// The frontend event this maps onto. `Crashed` has none: the GUI turns
    /// it into a native notification instead.
    pub fn frontend_event(&self) -> (r: Option<FrontendEvent>)
        ensures
            match frontend_event_of(self@) {
                Some((name, fields)) => r matches Some(f) && f.name@ == name && fields_view(f.fields@) == fields,
                None => r is None,
            },
    {
        let (name, fields): (&'static str, Vec<(&'static str, PayloadValue)>) = match self {
            Event::Status { id, status, pid } => {
                let pid_value = match pid {
                    Some(p) => PayloadValue::Unsigned(*p as u64),
                    None => PayloadValue::Null,
                };
                let mut v = Vec::new();
                v.push(text_field("id", id));
                v.push(("status", PayloadValue::Text(to_owned_string(status_name(*status)))));
                v.push(("pid", pid_value));
                ("process:status", v)
            },
            Event::Output { id, chunk } => {
                let mut v = Vec::new();
                v.push(text_field("id", id));
                v.push(text_field("chunk", chunk));
                ("process:output", v)
            },
            Event::Exit { id, code } => {
                let mut v = Vec::new();
                v.push(text_field("id", id));
                v.push(("code", PayloadValue::Signed(*code as i64)));
                ("process:exit", v)
            },
            Event::UrlDetected { id, url } => {
                let mut v = Vec::new();
                v.push(text_field("id", id));
                v.push(text_field("url", url));
                ("process:url-detected", v)
            },
            Event::ErrorCount { id, count } => {
                let mut v = Vec::new();
                v.push(text_field("id", id));
                v.push(("count", PayloadValue::Unsigned(*count as u64)));
                ("process:error-count", v)
            },
            Event::RestartScheduled { id, attempt, max_attempts, delay_ms } => {
                let mut v = Vec::new();
                v.push(text_field("id", id));
                v.push(("attempt", PayloadValue::Unsigned(*attempt as u64)));
                v.push(("maxAttempts", PayloadValue::Unsigned(*max_attempts as u64)));
                v.push(("delayMs", PayloadValue::Unsigned(*delay_ms)));
                ("process:restart-scheduled", v)
            },
            Event::RestartExhausted { id } => {
                let mut v = Vec::new();
                v.push(text_field("id", id));
                ("process:restart-exhausted", v)
            },
            Event::Crashed { .. } => {
                return None;
            },
        };
        proof {
            let expected = frontend_event_of(self@)->0;
            assert(fields_view(fields@) =~= expected.1);
        }
        Some(FrontendEvent { name, fields })
    }
}

impl FrontendEvent {
    /// The payload field named `key`, if there is one.
    pub fn field(&self, key: &str) -> (r: Option<&PayloadValue>)
        ensures
            match r {
                Some(v) => exists|i: int| 0 <= i < self.fields@.len() && self.fields@[i].0@ == key@
                    && self.fields@[i].1 == *v,
                None => forall|i: int| 0 <= i < self.fields@.len() ==> self.fields@[i].0@ != key@,
            },
    {
        let mut i: usize = 0;
        while i < self.fields.len()
            invariant
                i <= self.fields@.len(),
                forall|j: int| 0 <= j < i ==> self.fields@[j].0@ != key@,
            decreases self.fields@.len() - i,
        {
            if crate::text::str_eq(self.fields[i].0, key) {
                return Some(&self.fields[i].1);
            }
            i += 1;
        }
        None
    }
}

} // verus!
