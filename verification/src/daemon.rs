//! The supervisor's side of the protocol and the client's reading of its
//! answers: which requests the bookkeeping answers by itself, how an
//! operation's outcome becomes a reply, and how a reply becomes a result.
//!
//! The socket, the threads and the JSON framing stay outside the library.
//! Process statistics travel as `S`, a type the caller chooses.

use crate::error::AppError;
use crate::process_manager::{ManagerState, ProcessManager, StatusPayload};
use crate::protocol::{Event, Request, WireError};
use crate::text::{to_owned_string, utf8_lossy_text};
use vstd::prelude::*;

verus! {

/// The supervisor's reply to a request.
#[derive(Debug)]
pub enum ResponseBody<S> {
    /// The request was carried out (`ok` on the wire).
    Done,
    Error { error: WireError },
    Output { text: String },
    Statuses { statuses: Vec<StatusPayload> },
    Count { count: u32 },
    Stats { stats: Option<S> },
}

/// Everything the supervisor sends a client: a reply to the request with
/// the same id, or an event broadcast to every client.
#[derive(Debug)]
pub enum Message<S> {
    Response { id: u64, body: ResponseBody<S> },
    Event { event: Event },
}

impl<S> ResponseBody<S> {
    /// The reply for an operation that either succeeded or failed with `e`.
    pub fn from_outcome(outcome: Result<(), AppError>) -> (r: ResponseBody<S>)
        ensures
            match outcome {
                Ok(()) => r is Done,
                Err(e) => r matches ResponseBody::Error { error } && error.code@ == e.code@
                    && error.message@ == e.message@,
            },
    {
        match outcome {
            Ok(()) => ResponseBody::Done,
            Err(e) => ResponseBody::Error { error: WireError::from_app_error(e) },
        }
    }

    /// The reply a client gives every request still waiting when the
    /// connection closes.
    pub fn disconnected() -> (r: ResponseBody<S>)
        ensures
            r matches ResponseBody::Error { error } && error.code@ == "DAEMON_DISCONNECTED"@
                && error.message@ == "the daemon closed the connection"@,
    {
        ResponseBody::Error {
            error: WireError {
                code: to_owned_string("DAEMON_DISCONNECTED"),
                message: to_owned_string("the daemon closed the connection"),
            },
        }
    }
}

/// A reply as the caller of a request sees it: an error reply becomes an
/// `Err` carrying the error's `[code] message`, any other reply is passed
/// on.
pub fn into_result<S>(body: ResponseBody<S>) -> (r: Result<ResponseBody<S>, AppError>)
    ensures
        match body {
            ResponseBody::Error { error } => r matches Err(e) && e.module@ == "daemon_client"@
                && e.code@ == "DAEMON_REQUEST_FAILED"@
                && e.message@ == "["@ + error.code@ + "] "@ + error.message@,
            _ => r == Ok::<ResponseBody<S>, AppError>(body),
        },
{
    match body {
        ResponseBody::Error { error } => Err(AppError::new("daemon_client", "DAEMON_REQUEST_FAILED", error.describe())),
        other => Ok(other),
    }
}

/// The error for a request made while no supervisor is connected.
pub fn unavailable() -> (e: AppError)
    ensures
        e.module@ == "daemon_client"@,
        e.code@ == "DAEMON_UNAVAILABLE"@,
        e.message@ == "not connected to the easy-term daemon"@,
{
    AppError::new("daemon_client", "DAEMON_UNAVAILABLE", to_owned_string("not connected to the easy-term daemon"))
}

/// The result of a request: without a connection (`connected` false) it
/// fails as unavailable; otherwise `sent` is what sending it gave, and an
/// error reply in it is read by [`into_result`].
pub fn call_result<S>(connected: bool, sent: Result<ResponseBody<S>, AppError>) -> (r: Result<ResponseBody<S>, AppError>)
    ensures
        !connected ==> (r matches Err(e) && e.code@ == "DAEMON_UNAVAILABLE"@),
        connected ==> match sent {
            Err(e) => r == Err::<ResponseBody<S>, AppError>(e),
            Ok(ResponseBody::Error { error }) => r matches Err(e) && e.code@ == "DAEMON_REQUEST_FAILED"@
                && e.message@ == "["@ + error.code@ + "] "@ + error.message@,
            Ok(body) => r == Ok::<ResponseBody<S>, AppError>(body),
        },
{
    if !connected {
        return Err(unavailable());
    }
    match sent {
        Err(e) => Err(e),
        Ok(body) => into_result(body),
    }
}

/// The scrollback a reply carries, or nothing.
pub fn output_or_empty<S>(r: Result<ResponseBody<S>, AppError>) -> (t: String)
    ensures
        match r {
            Ok(ResponseBody::Output { text }) => t@ == text@,
            _ => t@ == Seq::<char>::empty(),
        },
{
    match r {
        Ok(ResponseBody::Output { text }) => text,
        _ => String::new(),
    }
}

/// The statuses a reply carries, or none.
pub fn statuses_or_empty<S>(r: Result<ResponseBody<S>, AppError>) -> (v: Vec<StatusPayload>)
    ensures
        match r {
            Ok(ResponseBody::Statuses { statuses }) => v == statuses,
            _ => v@.len() == 0,
        },
{
    match r {
        Ok(ResponseBody::Statuses { statuses }) => statuses,
        _ => Vec::new(),
    }
}

/// The count a reply carries, or zero.
pub fn count_or_zero<S>(r: Result<ResponseBody<S>, AppError>) -> (n: u32)
    ensures
        match r {
            Ok(ResponseBody::Count { count }) => n == count,
            _ => n == 0,
        },
{
    match r {
        Ok(ResponseBody::Count { count }) => count,
        _ => 0,
    }
}

/// The statistics a reply carries, or none.
pub fn stats_or_none<S>(r: Result<ResponseBody<S>, AppError>) -> (s: Option<S>)
    ensures
        match r {
            Ok(ResponseBody::Stats { stats }) => s == stats,
            _ => s is None,
        },
{
    match r {
        Ok(ResponseBody::Stats { stats }) => stats,
        _ => None,
    }
}

/// Whether the bookkeeping answers `request` by itself; the others start,
/// stop or measure processes.
pub open spec fn answered_by_bookkeeping(request: Request) -> bool {
    match request {
        Request::Ping => true,
        Request::GetOutput { .. } => true,
        Request::ListStatuses => true,
        Request::ErrorCount { .. } => true,
        Request::ResetErrorCount { .. } => true,
        Request::Forget { .. } => true,
        _ => false,
    }
}

/// Answers the requests the supervisor's bookkeeping answers by itself,
/// and returns `None`, changing nothing, for the others.
pub fn answer<H, S>(manager: &mut ProcessManager<H>, request: &Request) -> (r: Option<ResponseBody<S>>)
    ensures
        r is Some <==> answered_by_bookkeeping(*request),
        match *request {
            Request::Ping => r matches Some(ResponseBody::Done) && final(manager)@ == old(manager)@,
            Request::GetOutput { id } => final(manager)@ == old(manager)@
                && (r matches Some(ResponseBody::Output { text }) && text@ == (if old(manager)@.processes.contains_key(id@) {
                    utf8_lossy_text(old(manager)@.processes[id@].output)
                } else {
                    Seq::empty()
                })),
            Request::ListStatuses => final(manager)@ == old(manager)@
                && (r matches Some(ResponseBody::Statuses { statuses }) && old(manager).is_snapshot(statuses@)),
            Request::ErrorCount { id } => final(manager)@ == old(manager)@
                && (r matches Some(ResponseBody::Count { count }) && count == (
                    if old(manager)@.error_counts.contains_key(id@) { old(manager)@.error_counts[id@] } else { 0 })),
            Request::ResetErrorCount { id } => r matches Some(ResponseBody::Done)
                && final(manager)@ == (ManagerState { error_counts: old(manager)@.error_counts.remove(id@), ..old(manager)@ }),
            Request::Forget { id } => r matches Some(ResponseBody::Done)
                && final(manager)@ == (ManagerState {
                    statuses: old(manager)@.statuses.remove(id@),
                    error_counts: old(manager)@.error_counts.remove(id@),
                    restarts: old(manager)@.restarts.remove(id@),
                    ..old(manager)@
                }),
            _ => final(manager)@ == old(manager)@,
        },
{
    match request {
        Request::Ping => Some(ResponseBody::Done),
        Request::GetOutput { id } => Some(ResponseBody::Output { text: manager.get_output(id.as_str()) }),
        Request::ListStatuses => Some(ResponseBody::Statuses { statuses: manager.snapshot_all() }),
        Request::ErrorCount { id } => Some(ResponseBody::Count { count: manager.error_count(id.as_str()) }),
        Request::ResetErrorCount { id } => {
            manager.reset_error_count(id.as_str());
            Some(ResponseBody::Done)
        },
        Request::Forget { id } => {
            manager.forget(id.as_str());
            Some(ResponseBody::Done)
        },
        _ => None,
    }
}


// ---------------------------------------------------------------------------
// Replies a client is waiting for
// ---------------------------------------------------------------------------

/// Whether `b` is the reply given to requests still waiting when the
/// connection closes.
pub open spec fn is_disconnected_reply<S>(b: ResponseBody<S>) -> bool {
    b matches ResponseBody::Error { error } && error.code@ == "DAEMON_DISCONNECTED"@
        && error.message@ == "the daemon closed the connection"@
}

/// Where the slot for request `id` is (the first, if several).
pub open spec fn slot_of<S>(slots: Seq<(u64, Option<ResponseBody<S>>)>, id: u64) -> Option<int>
    decreases slots.len(),
{
    if slots.len() == 0 {
        None
    } else if slots[0].0 == id {
        Some(0)
    } else {
        match slot_of(slots.drop_first(), id) {
            Some(i) => Some(i + 1),
            None => None,
        }
    }
}

proof fn lemma_slot_of<S>(slots: Seq<(u64, Option<ResponseBody<S>>)>, id: u64, i: int)
    requires
        0 <= i <= slots.len(),
        forall|j: int| 0 <= j < i ==> (#[trigger] slots[j]).0 != id,
        i < slots.len() ==> slots[i].0 == id,
    ensures
        slot_of(slots, id) == (if i < slots.len() { Some(i) } else { None::<int> }),
    decreases slots.len(),
{
    if slots.len() > 0 && i > 0 {
        assert forall|j: int| 0 <= j < i - 1 implies (#[trigger] slots.drop_first()[j]).0 != id by {
            assert(slots.drop_first()[j] == slots[j + 1]);
        }
        lemma_slot_of(slots.drop_first(), id, i - 1);
    }
}

/// The slots after a reply `body` for request `id` arrived: it fills that
/// request's slot, or a new one when nobody was waiting (yet).
pub open spec fn with_reply<S>(slots: Seq<(u64, Option<ResponseBody<S>>)>, id: u64, body: ResponseBody<S>) -> Seq<(u64, Option<ResponseBody<S>>)> {
    match slot_of(slots, id) {
        Some(i) => slots.update(i, (id, Some(body))),
        None => slots.push((id, Some(body))),
    }
}

/// The slots once request `id` is waiting: its slot is empty.
pub open spec fn with_waiter<S>(slots: Seq<(u64, Option<ResponseBody<S>>)>, id: u64) -> Seq<(u64, Option<ResponseBody<S>>)> {
    match slot_of(slots, id) {
        Some(i) => slots.update(i, (id, None)),
        None => slots.push((id, None)),
    }
}

/// No two slots are for the same request.
pub open spec fn slots_unique<S>(slots: Seq<(u64, Option<ResponseBody<S>>)>) -> bool {
    forall|i: int, j: int| 0 <= i < j < slots.len() ==> #[trigger] slots[i].0 != #[trigger] slots[j].0
}

/// The requests of a connection still waiting for their reply, and the
/// replies that arrived but were not collected yet.
pub struct Replies<S> {
    slots: Vec<(u64, Option<ResponseBody<S>>)>,
}

impl<S> View for Replies<S> {
    type V = Seq<(u64, Option<ResponseBody<S>>)>;

    closed spec fn view(&self) -> Seq<(u64, Option<ResponseBody<S>>)> {
        self.slots@
    }
}

impl<S> Replies<S> {
    pub fn new() -> (r: Replies<S>)
        ensures
            r@ == Seq::<(u64, Option<ResponseBody<S>>)>::empty(),
    {
        Replies { slots: Vec::new() }
    }

    fn find(&self, id: u64) -> (r: Option<usize>)
        ensures
            match r {
                Some(i) => slot_of(self@, id) == Some(i as int) && i < self@.len(),
                None => slot_of(self@, id) is None,
            },
    {
        let mut i: usize = 0;
        while i < self.slots.len()
            invariant
                i <= self@.len(),
                self@ == self.slots@,
                forall|j: int| 0 <= j < i ==> (#[trigger] self@[j]).0 != id,
            decreases self.slots@.len() - i,
        {
            if self.slots[i].0 == id {
                proof { lemma_slot_of(self@, id, i as int); }
                return Some(i);
            }
            i += 1;
        }
        proof { lemma_slot_of(self@, id, i as int); }
        None
    }

    /// Request `id` starts waiting.
    pub fn expect(&mut self, id: u64)
        ensures
            final(self)@ == with_waiter(old(self)@, id),
    {
        match self.find(id) {
            Some(i) => self.slots.set(i, (id, None)),
            None => self.slots.push((id, None)),
        }
    }

    /// The reply `body` to request `id` arrived.
    pub fn deliver(&mut self, id: u64, body: ResponseBody<S>)
        ensures
            final(self)@ == with_reply(old(self)@, id, body),
    {
        match self.find(id) {
            Some(i) => self.slots.set(i, (id, Some(body))),
            None => self.slots.push((id, Some(body))),
        }
    }

    /// Takes the reply to request `id` if it arrived, which ends the wait;
    /// otherwise the request keeps (or gets) its empty slot and goes on
    /// waiting.
    pub fn collect(&mut self, id: u64) -> (r: Option<ResponseBody<S>>)
        ensures
            match slot_of(old(self)@, id) {
                Some(i) => match old(self)@[i].1 {
                    Some(b) => r == Some(b) && final(self)@ == old(self)@.remove(i),
                    None => r is None && final(self)@ == old(self)@,
                },
                None => r is None && final(self)@ == old(self)@.push((id, None)),
            },
    {
        match self.find(id) {
            Some(i) => {
                if self.slots[i].1.is_some() {
                    let (_, reply) = self.slots.remove(i);
                    reply
                } else {
                    None
                }
            },
            None => {
                self.slots.push((id, None));
                None
            },
        }
    }

    /// Request `id` stops waiting (it timed out): its slot goes.
    pub fn abandon(&mut self, id: u64)
        ensures
            match slot_of(old(self)@, id) {
                Some(i) => final(self)@ == old(self)@.remove(i),
                None => final(self)@ == old(self)@,
            },
    {
        match self.find(id) {
            Some(i) => {
                let _ = self.slots.remove(i);
            },
            None => {},
        }
    }

    /// The connection closed: every slot gets the disconnected reply, so
    /// every waiting request fails at once instead of timing out.
    pub fn disconnect_all(&mut self)
        ensures
            final(self)@.len() == old(self)@.len(),
            forall|i: int| 0 <= i < final(self)@.len() ==> (#[trigger] final(self)@[i]).0 == old(self)@[i].0
                && (final(self)@[i].1 matches Some(b) && is_disconnected_reply(b)),
    {
        let mut i: usize = 0;
        while i < self.slots.len()
            invariant
                i <= self.slots@.len(),
                self.slots@.len() == old(self)@.len(),
                forall|j: int| 0 <= j < self.slots@.len() ==> (#[trigger] self.slots@[j]).0 == old(self)@[j].0,
                forall|j: int| 0 <= j < i ==> ((#[trigger] self.slots@[j]).1 matches Some(b) && is_disconnected_reply(b)),
            decreases self.slots@.len() - i,
        {
            let id = self.slots[i].0;
            self.slots.set(i, (id, Some(ResponseBody::disconnected())));
            i += 1;
        }
    }
}


/// What the slot of request `id` holds: nothing if it has none.
pub open spec fn slot_value<S>(slots: Seq<(u64, Option<ResponseBody<S>>)>, id: u64) -> Option<Option<ResponseBody<S>>> {
    match slot_of(slots, id) {
        Some(i) => Some(slots[i].1),
        None => None,
    }
}

proof fn lemma_slot_at<S>(slots: Seq<(u64, Option<ResponseBody<S>>)>, id: u64)
    requires
        slots_unique(slots),
    ensures
        forall|i: int| 0 <= i < slots.len() && slots[i].0 == id ==> slot_of(slots, id) == Some(i),
        (forall|j: int| 0 <= j < slots.len() ==> (#[trigger] slots[j]).0 != id) ==> slot_of(slots, id) is None,
{
    assert forall|i: int| 0 <= i < slots.len() && slots[i].0 == id implies slot_of(slots, id) == Some(i) by {
        assert forall|j: int| 0 <= j < i implies (#[trigger] slots[j]).0 != id by {
            assert(slots[j].0 != slots[i].0);
        }
        lemma_slot_of(slots, id, i);
    }
    if forall|j: int| 0 <= j < slots.len() ==> (#[trigger] slots[j]).0 != id {
        lemma_slot_of(slots, id, slots.len() as int);
    }
}

proof fn lemma_slot_found<S>(slots: Seq<(u64, Option<ResponseBody<S>>)>, id: u64)
    ensures
        slot_of(slots, id) matches Some(i) ==> 0 <= i < slots.len() && slots[i].0 == id,
        slot_of(slots, id) is None ==> forall|j: int| 0 <= j < slots.len() ==> (#[trigger] slots[j]).0 != id,
    decreases slots.len(),
{
    if slots.len() > 0 {
        lemma_slot_found(slots.drop_first(), id);
        assert forall|j: int| 1 <= j < slots.len() implies slots[j] == slots.drop_first()[j - 1] by {}
    }
}

/// Filling or opening the slot of one request never gives two slots to a
/// request.
pub proof fn law_one_slot_per_request<S>(slots: Seq<(u64, Option<ResponseBody<S>>)>, id: u64, body: ResponseBody<S>)
    requires
        slots_unique(slots),
    ensures
        slots_unique(with_waiter(slots, id)),
        slots_unique(with_reply(slots, id, body)),
        forall|i: int| 0 <= i < slots.len() ==> slots_unique(#[trigger] slots.remove(i)),
{
    lemma_slot_found(slots, id);
    assert forall|i: int| 0 <= i < slots.len() implies slots_unique(#[trigger] slots.remove(i)) by {
        let r = slots.remove(i);
        assert forall|a: int, b: int| 0 <= a < b < r.len() implies #[trigger] r[a].0 != #[trigger] r[b].0 by {
            let a0 = if a < i { a } else { a + 1 };
            let b0 = if b < i { b } else { b + 1 };
            assert(r[a] == slots[a0] && r[b] == slots[b0]);
        }
    }
    let w = with_waiter(slots, id);
    let d = with_reply(slots, id, body);
    assert forall|a: int, b: int| 0 <= a < b < w.len() implies #[trigger] w[a].0 != #[trigger] w[b].0 by {
        if b == slots.len() {
            assert(w[a] == slots[a]);
        } else {
            assert(w[a].0 == slots[a].0 && w[b].0 == slots[b].0);
        }
    }
    assert forall|a: int, b: int| 0 <= a < b < d.len() implies #[trigger] d[a].0 != #[trigger] d[b].0 by {
        if b == slots.len() {
            assert(d[a] == slots[a]);
        } else {
            assert(d[a].0 == slots[a].0 && d[b].0 == slots[b].0);
        }
    }
}

/// A reply reaches the request it answers, and no other: once request
/// `id` waits and its reply `body` arrives, collecting `id` gives `body`;
/// every other request's slot is as it was.
pub proof fn law_reply_reaches_its_request<S>(slots: Seq<(u64, Option<ResponseBody<S>>)>, id: u64, body: ResponseBody<S>, other: u64)
    requires
        slots_unique(slots),
        other != id,
    ensures
        slot_value(with_reply(with_waiter(slots, id), id, body), id) == Some(Some(body)),
        slot_value(with_reply(with_waiter(slots, id), id, body), other) == slot_value(slots, other),
{
    law_one_slot_per_request(slots, id, body);
    let w = with_waiter(slots, id);
    law_one_slot_per_request(w, id, body);
    let d = with_reply(w, id, body);
    lemma_slot_found(slots, id);
    lemma_slot_found(w, id);
    lemma_slot_found(slots, other);
    lemma_slot_at(slots, other);
    lemma_slot_at(d, id);
    lemma_slot_at(d, other);
    match slot_of(slots, id) {
        Some(i) => {
            assert(w == slots.update(i, (id, None)));
            lemma_slot_at(w, id);
            assert(slot_of(w, id) == Some(i));
            assert(d == w.update(i, (id, Some(body))));
            assert(d[i].0 == id);
        },
        None => {
            assert(w == slots.push((id, None)));
            lemma_slot_at(w, id);
            assert(w[slots.len() as int].0 == id);
            assert(slot_of(w, id) == Some(slots.len() as int));
            assert(d == w.update(slots.len() as int, (id, Some(body))));
            assert(d[slots.len() as int].0 == id);
        },
    }
    match slot_of(slots, other) {
        Some(k) => {
            assert(d[k] == slots[k]);
        },
        None => {
            assert forall|j: int| 0 <= j < d.len() implies (#[trigger] d[j]).0 != other by {
                if j < slots.len() {
                    assert(d[j].0 == slots[j].0);
                }
            }
        },
    }
}

/// When the connection closes, every request still waiting gets the
/// disconnected reply.
pub proof fn law_disconnect_answers_every_request<S>(
    before: Seq<(u64, Option<ResponseBody<S>>)>,
    after: Seq<(u64, Option<ResponseBody<S>>)>,
    id: u64,
)
    requires
        slots_unique(before),
        after.len() == before.len(),
        forall|i: int| 0 <= i < after.len() ==> (#[trigger] after[i]).0 == before[i].0
            && (after[i].1 matches Some(b) && is_disconnected_reply(b)),
        slot_of(before, id) is Some,
    ensures
        slot_value(after, id) matches Some(Some(b)) && is_disconnected_reply(b),
{
    lemma_slot_found(before, id);
    let i = slot_of(before, id)->0;
    assert forall|a: int, b: int| 0 <= a < b < after.len() implies #[trigger] after[a].0 != #[trigger] after[b].0 by {
        assert(before[a].0 != before[b].0);
    }
    lemma_slot_at(after, id);
    assert(after[i].0 == id);
}

} // verus!
