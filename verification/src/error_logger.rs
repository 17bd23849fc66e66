//! The app's own diagnostics: structured error events, the rule that keeps
//! a flood of one error from swamping the log, and the housekeeping of the
//! daily log files.
//!
//! Writing the JSON lines, the clock and the file system stay outside the
//! library; they hand in times and file listings and carry out what these
//! functions decide.

use crate::error::AppError;
use crate::script_detector::{json_manifest, read_json_manifest};
use crate::project_store::{clone_opt_text, first_index, lemma_first_index, lemma_first_index_bounds, opt_text};
use crate::text::{byte_prefix, byte_prefix_text, lines_of, split_lines, str_eq, strip_affixes, strip_affixes_of, to_owned_string};
use vstd::prelude::*;

verus! {

/// How long after the first occurrence of an error its window stays open.
pub const DEDUPE_WINDOW_MS: u64 = 60_000;

/// How many occurrences of one error a window writes; the rest are counted
/// and written once, as a summary, when the window closes.
pub const DEDUPE_THRESHOLD: u32 = 10;

/// How severe an event is.
#[derive(Clone, Copy, PartialEq, Eq, Structural, Debug)]
pub enum Level {
    Warn,
    Error,
    Fatal,
}

/// Which half of the app reported an event.
#[derive(Clone, Copy, PartialEq, Eq, Structural, Debug)]
pub enum Source {
    Backend,
    Frontend,
}

/// The name a level is written under.
pub open spec fn level_text(l: Level) -> Seq<char> {
    match l {
        Level::Warn => "warn"@,
        Level::Error => "error"@,
        Level::Fatal => "fatal"@,
    }
}

pub fn level_name(l: Level) -> (r: &'static str)
    ensures
        r@ == level_text(l),
{
    match l {
        Level::Warn => "warn",
        Level::Error => "error",
        Level::Fatal => "fatal",
    }
}

/// The name a source is written under.
pub open spec fn source_text(s: Source) -> Seq<char> {
    match s {
        Source::Backend => "backend"@,
        Source::Frontend => "frontend"@,
    }
}

pub fn source_name(s: Source) -> (r: &'static str)
    ensures
        r@ == source_text(s),
{
    match s {
        Source::Backend => "backend",
        Source::Frontend => "frontend",
    }
}

/// One line of the error log.
#[derive(Debug)]
pub struct ErrorEvent {
    /// When it happened, RFC 3339.
    pub ts: String,
    pub level: Level,
    pub source: Source,
    pub module: String,
    pub code: String,
    pub message: String,
    /// Extra structured detail, as JSON text.
    pub context: Option<String>,
    pub stack: Option<String>,
    /// The id of the run of the app that logged it.
    pub session: String,
    pub app_version: String,
    pub os_version: String,
    /// On a summary line: how many further occurrences were not written.
    pub repeats: Option<u32>,
}

pub struct ErrorEventView {
    pub ts: Seq<char>,
    pub level: Level,
    pub source: Source,
    pub module: Seq<char>,
    pub code: Seq<char>,
    pub message: Seq<char>,
    pub context: Option<Seq<char>>,
    pub stack: Option<Seq<char>>,
    pub session: Seq<char>,
    pub app_version: Seq<char>,
    pub os_version: Seq<char>,
    pub repeats: Option<u32>,
}

impl View for ErrorEvent {
    type V = ErrorEventView;

    open spec fn view(&self) -> ErrorEventView {
        ErrorEventView {
            ts: self.ts@,
            level: self.level,
            source: self.source,
            module: self.module@,
            code: self.code@,
            message: self.message@,
            context: opt_text(self.context),
            stack: opt_text(self.stack),
            session: self.session@,
            app_version: self.app_version@,
            os_version: self.os_version@,
            repeats: self.repeats,
        }
    }
}

impl Clone for ErrorEvent {
    fn clone(&self) -> (r: Self)
        ensures
            r@ == self@,
    {
        ErrorEvent {
            ts: self.ts.clone(),
            level: self.level,
            source: self.source,
            module: self.module.clone(),
            code: self.code.clone(),
            message: self.message.clone(),
            context: clone_opt_text(&self.context),
            stack: clone_opt_text(&self.stack),
            session: self.session.clone(),
            app_version: self.app_version.clone(),
            os_version: self.os_version.clone(),
            repeats: self.repeats,
        }
    }
}

/// What every event of one run shares: its session, the app and OS
/// versions.
#[derive(Debug)]
pub struct LogStamp {
    pub session: String,
    pub app_version: String,
    pub os_version: String,
}

/// The views of a list of events.
pub open spec fn event_views(v: Seq<ErrorEvent>) -> Seq<ErrorEventView> {
    v.map_values(|e: ErrorEvent| e@)
}

impl ErrorEvent {
    /// A fresh event (not a summary), logged at `ts` by the run `stamp`.
    pub fn new(
        ts: String,
        level: Level,
        source: Source,
        module: String,
        code: String,
        message: String,
        context: Option<String>,
        stack: Option<String>,
        stamp: &LogStamp,
    ) -> (e: ErrorEvent)
        ensures
            e@ == (ErrorEventView {
                ts: ts@,
                level,
                source,
                module: module@,
                code: code@,
                message: message@,
                context: opt_text(context),
                stack: opt_text(stack),
                session: stamp.session@,
                app_version: stamp.app_version@,
                os_version: stamp.os_version@,
                repeats: None,
            }),
    {
        ErrorEvent {
            ts,
            level,
            source,
            module,
            code,
            message,
            context,
            stack,
            session: stamp.session.clone(),
            app_version: stamp.app_version.clone(),
            os_version: stamp.os_version.clone(),
            repeats: None,
        }
    }

    /// The event that reports `e` from the backend, at level `error`.
    pub fn from_app_error(e: &AppError, ts: String, stamp: &LogStamp) -> (r: ErrorEvent)
        ensures
            r@.ts == ts@,
            r@.level == Level::Error,
            r@.source == Source::Backend,
            r@.module == e.module@,
            r@.code == e.code@,
            r@.message == e.message@,
            r@.context == opt_text(e.context),
            r@.stack is None,
            r@.session == stamp.session@,
            r@.app_version == stamp.app_version@,
            r@.os_version == stamp.os_version@,
            r@.repeats is None,
    {
        ErrorEvent::new(
            ts,
            Level::Error,
            Source::Backend,
            to_owned_string(e.module),
            to_owned_string(e.code),
            e.message.clone(),
            clone_opt_text(&e.context),
            None,
            stamp,
        )
    }
}

// ---------------------------------------------------------------------------
// Dedupe
// ---------------------------------------------------------------------------

/// The open window of one error, identified by its code and message.
pub struct DedupeWindow {
    pub start_ms: u64,
    /// Occurrences seen since the window opened, the first included.
    pub count: u32,
    /// The occurrence that opened the window.
    pub sample: ErrorEvent,
}

pub struct WindowView {
    pub start_ms: u64,
    pub count: u32,
    pub sample: ErrorEventView,
}

impl View for DedupeWindow {
    type V = WindowView;

    open spec fn view(&self) -> WindowView {
        WindowView { start_ms: self.start_ms, count: self.count, sample: self.sample@ }
    }
}

impl Clone for DedupeWindow {
    fn clone(&self) -> (r: Self)
        ensures
            r@ == self@,
    {
        DedupeWindow { start_ms: self.start_ms, count: self.count, sample: self.sample.clone() }
    }
}

/// Whether window `w` is the one for errors with this code and message.
pub open spec fn for_key(w: WindowView, code: Seq<char>, message: Seq<char>) -> bool {
    w.sample.code == code && w.sample.message == message
}

/// Where the window for this code and message is.
pub open spec fn window_of(ws: Seq<WindowView>, code: Seq<char>, message: Seq<char>) -> Option<int> {
    first_index(ws, |w: WindowView| for_key(w, code, message))
}

/// Milliseconds from `start` to `now`; none if the clock went backwards.
pub open spec fn elapsed_ms(now: u64, start: u64) -> nat {
    if now >= start { (now - start) as nat } else { 0 }
}

/// Whether window `w` is still open at `now`.
pub open spec fn is_open(w: WindowView, now: u64) -> bool {
    elapsed_ms(now, w.start_ms) < DEDUPE_WINDOW_MS
}

/// A window's count after one more occurrence (it stops at `u32::MAX`).
pub open spec fn bumped(c: u32) -> u32 {
    if c < u32::MAX { (c + 1) as u32 } else { c }
}

/// The window a first occurrence at `now` opens.
pub open spec fn opened(e: ErrorEventView, now: u64) -> WindowView {
    WindowView { start_ms: now, count: 1, sample: e }
}

/// The summary line a closing window writes, stamped `ts`: its sample with
/// the number of occurrences past the threshold, when there were any.
pub open spec fn summary_of(w: WindowView, ts: Seq<char>) -> Seq<ErrorEventView> {
    if w.count > DEDUPE_THRESHOLD {
        seq![ErrorEventView { ts, repeats: Some((w.count - DEDUPE_THRESHOLD) as u32), ..w.sample }]
    } else {
        seq![]
    }
}

/// The windows after occurrence `e` at `now`, and the lines it writes
/// (`ts` stamps a summary line).
pub open spec fn handled(ws: Seq<WindowView>, e: ErrorEventView, now: u64, ts: Seq<char>) -> (Seq<WindowView>, Seq<ErrorEventView>) {
    match window_of(ws, e.code, e.message) {
        Some(i) => if is_open(ws[i], now) {
            let c = bumped(ws[i].count);
            (
                ws.update(i, WindowView { count: c, ..ws[i] }),
                if c <= DEDUPE_THRESHOLD { seq![e] } else { seq![] },
            )
        } else {
            (ws.remove(i).push(opened(e, now)), summary_of(ws[i], ts).push(e))
        },
        None => (ws.push(opened(e, now)), seq![e]),
    }
}

/// The windows still open at `now`, in order.
pub open spec fn still_open(ws: Seq<WindowView>, now: u64) -> Seq<WindowView>
    decreases ws.len(),
{
    if ws.len() == 0 {
        seq![]
    } else if is_open(ws.last(), now) {
        still_open(ws.drop_last(), now).push(ws.last())
    } else {
        still_open(ws.drop_last(), now)
    }
}

/// The summary lines the windows closed at `now` write, in order.
pub open spec fn closing_summaries(ws: Seq<WindowView>, now: u64, ts: Seq<char>) -> Seq<ErrorEventView>
    decreases ws.len(),
{
    if ws.len() == 0 {
        seq![]
    } else if is_open(ws.last(), now) {
        closing_summaries(ws.drop_last(), now, ts)
    } else {
        closing_summaries(ws.drop_last(), now, ts) + summary_of(ws.last(), ts)
    }
}

/// No two windows are for the same error.
pub open spec fn keys_unique(ws: Seq<WindowView>) -> bool {
    forall|i: int, j: int|
        0 <= i < j < ws.len() ==> !for_key(#[trigger] ws[i], ws[j].sample.code, #[trigger] ws[j].sample.message)
}

/// The open dedupe windows, one per error.
pub struct Deduper {
    windows: Vec<DedupeWindow>,
}

pub open spec fn window_views(v: Seq<DedupeWindow>) -> Seq<WindowView> {
    v.map_values(|w: DedupeWindow| w@)
}

impl View for Deduper {
    type V = Seq<WindowView>;

    closed spec fn view(&self) -> Seq<WindowView> {
        window_views(self.windows@)
    }
}

impl Deduper {
    pub fn new() -> (d: Deduper)
        ensures
            d@ == Seq::<WindowView>::empty(),
    {
        let d = Deduper { windows: Vec::new() };
        assert(d@ =~= Seq::<WindowView>::empty());
        d
    }

    fn find(&self, code: &str, message: &str) -> (r: Option<usize>)
        ensures
            match r {
                Some(i) => window_of(self@, code@, message@) == Some(i as int) && i < self@.len(),
                None => window_of(self@, code@, message@) is None,
            },
    {
        let ghost pred = |w: WindowView| for_key(w, code@, message@);
        let mut i: usize = 0;
        while i < self.windows.len()
            invariant
                i <= self@.len(),
                self@.len() == self.windows@.len(),
                pred == (|w: WindowView| for_key(w, code@, message@)),
                forall|j: int| 0 <= j < i ==> !pred(#[trigger] self@[j]),
            decreases self.windows@.len() - i,
        {
            let w = &self.windows[i];
            if str_eq(w.sample.code.as_str(), code) && str_eq(w.sample.message.as_str(), message) {
                proof {
                    assert(self@[i as int] == w@);
                    lemma_first_index(self@, pred, i as int);
                }
                return Some(i);
            }
            proof { assert(self@[i as int] == w@); }
            i += 1;
        }
        proof { lemma_first_index(self@, pred, i as int); }
        None
    }

    /// Takes in occurrence `event`, seen at `now_ms`, and returns the lines
    /// to write, in order; `now_ts` stamps a summary line.
    ///
    /// An occurrence inside its error's open window is counted, and written
    /// only while the count is within the threshold. Any other occurrence
    /// closes its error's old window (writing its summary, if occurrences
    /// were held back), is written, and opens a new window.
    pub fn handle(&mut self, event: ErrorEvent, now_ms: u64, now_ts: &str) -> (writes: Vec<ErrorEvent>)
        ensures
            final(self)@ == handled(old(self)@, event@, now_ms, now_ts@).0,
            event_views(writes@) == handled(old(self)@, event@, now_ms, now_ts@).1,
    {
        let ghost ws = self@;
        let mut writes: Vec<ErrorEvent> = Vec::new();
        match self.find(event.code.as_str(), event.message.as_str()) {
            Some(i) => {
                let start = self.windows[i].start_ms;
                let elapsed: u64 = if now_ms >= start { now_ms - start } else { 0 };
                if elapsed < DEDUPE_WINDOW_MS {
                    let mut w = self.windows[i].clone();
                    if w.count < u32::MAX {
                        w.count = w.count + 1;
                    }
                    let c = w.count;
                    self.windows.set(i, w);
                    if c <= DEDUPE_THRESHOLD {
                        writes.push(event);
                    }
                    assert(self@ =~= ws.update(i as int, WindowView { count: c, ..ws[i as int] }));
                } else {
                    let closed = self.windows.remove(i);
                    if closed.count > DEDUPE_THRESHOLD {
                        let mut summary = closed.sample.clone();
                        summary.ts = to_owned_string(now_ts);
                        summary.repeats = Some(closed.count - DEDUPE_THRESHOLD);
                        writes.push(summary);
                    }
                    let copy = event.clone();
                    writes.push(copy);
                    self.windows.push(DedupeWindow { start_ms: now_ms, count: 1, sample: event });
                    assert(self@ =~= ws.remove(i as int).push(opened(event@, now_ms)));
                }
            },
            None => {
                let copy = event.clone();
                writes.push(copy);
                self.windows.push(DedupeWindow { start_ms: now_ms, count: 1, sample: event });
                assert(self@ =~= ws.push(opened(event@, now_ms)));
            },
        }
        assert(event_views(writes@) =~= handled(ws, event@, now_ms, now_ts@).1);
        writes
    }

    /// Closes every window that is no longer open at `now_ms` and returns
    /// the summary lines they write, stamped `now_ts`, in order.
    pub fn sweep(&mut self, now_ms: u64, now_ts: &str) -> (writes: Vec<ErrorEvent>)
        ensures
            final(self)@ == still_open(old(self)@, now_ms),
            event_views(writes@) == closing_summaries(old(self)@, now_ms, now_ts@),
    {
        let ghost ws = self@;
        let mut kept: Vec<DedupeWindow> = Vec::new();
        let mut writes: Vec<ErrorEvent> = Vec::new();
        let mut i: usize = 0;
        while i < self.windows.len()
            invariant
                i <= self.windows@.len(),
                ws == window_views(self.windows@),
                window_views(kept@) == still_open(ws.take(i as int), now_ms),
                event_views(writes@) == closing_summaries(ws.take(i as int), now_ms, now_ts@),
            decreases self.windows@.len() - i,
        {
            proof {
                assert(ws.take(i + 1).drop_last() =~= ws.take(i as int));
                assert(ws.take(i + 1).last() == self.windows@[i as int]@);
            }
            let w = &self.windows[i];
            let elapsed: u64 = if now_ms >= w.start_ms { now_ms - w.start_ms } else { 0 };
            if elapsed < DEDUPE_WINDOW_MS {
                let ghost before = kept@;
                kept.push(w.clone());
                assert(window_views(kept@) =~= window_views(before).push(w@));
            } else if w.count > DEDUPE_THRESHOLD {
                let mut summary = w.sample.clone();
                summary.ts = to_owned_string(now_ts);
                summary.repeats = Some(w.count - DEDUPE_THRESHOLD);
                let ghost before = writes@;
                writes.push(summary);
                assert(event_views(writes@) =~= event_views(before) + summary_of(w@, now_ts@));
            } else {
                assert(summary_of(w@, now_ts@) =~= Seq::<ErrorEventView>::empty());
                assert(closing_summaries(ws.take(i + 1), now_ms, now_ts@)
                    =~= closing_summaries(ws.take(i as int), now_ms, now_ts@));
            }
            i += 1;
        }
        assert(ws.take(self.windows@.len() as int) =~= ws);
        self.windows = kept;
        writes
    }
}


// ---------------------------------------------------------------------------
// Laws of the dedupe
// ---------------------------------------------------------------------------

/// Whether some window in `ws` is for this code and message.
pub open spec fn has_window(ws: Seq<WindowView>, code: Seq<char>, message: Seq<char>) -> bool {
    exists|j: int| 0 <= j < ws.len() && for_key(#[trigger] ws[j], code, message)
}

proof fn lemma_still_open_has_window(ws: Seq<WindowView>, now: u64, code: Seq<char>, message: Seq<char>)
    requires
        has_window(still_open(ws, now), code, message),
    ensures
        has_window(ws, code, message),
    decreases ws.len(),
{
    let so = still_open(ws, now);
    let k = choose|k: int| 0 <= k < so.len() && for_key(#[trigger] so[k], code, message);
    if ws.len() > 0 {
        let dl = ws.drop_last();
        if is_open(ws.last(), now) && k == so.len() - 1 {
            assert(for_key(ws[ws.len() - 1], code, message));
        } else {
            assert(so[k] == still_open(dl, now)[k]);
            assert(has_window(still_open(dl, now), code, message));
            lemma_still_open_has_window(dl, now, code, message);
            let j = choose|j: int| 0 <= j < dl.len() && for_key(#[trigger] dl[j], code, message);
            assert(ws[j] == dl[j]);
        }
    }
}

proof fn lemma_still_open_unique(ws: Seq<WindowView>, now: u64)
    requires
        keys_unique(ws),
    ensures
        keys_unique(still_open(ws, now)),
    decreases ws.len(),
{
    if ws.len() > 0 {
        let dl = ws.drop_last();
        assert(keys_unique(dl)) by {
            assert forall|i: int, j: int| 0 <= i < j < dl.len() implies
                !for_key(#[trigger] dl[i], dl[j].sample.code, #[trigger] dl[j].sample.message) by {
                assert(dl[i] == ws[i] && dl[j] == ws[j]);
            }
        }
        lemma_still_open_unique(dl, now);
        if is_open(ws.last(), now) {
            let so = still_open(dl, now);
            let last = ws.last();
            if has_window(so, last.sample.code, last.sample.message) {
                lemma_still_open_has_window(dl, now, last.sample.code, last.sample.message);
                let j = choose|j: int| 0 <= j < dl.len() && for_key(#[trigger] dl[j], last.sample.code, last.sample.message);
                assert(ws[j] == dl[j]);
                assert(!for_key(ws[j], ws[ws.len() - 1].sample.code, ws[ws.len() - 1].sample.message));
            }
            let so2 = so.push(last);
            assert forall|i: int, j: int| 0 <= i < j < so2.len() implies
                !for_key(#[trigger] so2[i], so2[j].sample.code, #[trigger] so2[j].sample.message) by {
                if j == so2.len() - 1 {
                    assert(so2[i] == so[i]);
                    if for_key(so[i], last.sample.code, last.sample.message) {
                        assert(has_window(so, last.sample.code, last.sample.message));
                    }
                } else {
                    assert(so2[i] == so[i] && so2[j] == so[j]);
                }
            }
        }
    }
}

/// One window per error: taking in an occurrence, or closing the windows
/// that ran out, never leaves two windows for the same error.
pub proof fn law_one_window_per_error(ws: Seq<WindowView>, e: ErrorEventView, now: u64, ts: Seq<char>)
    requires
        keys_unique(ws),
    ensures
        keys_unique(handled(ws, e, now, ts).0),
        keys_unique(still_open(ws, now)),
{
    lemma_still_open_unique(ws, now);
    let pred = |w: WindowView| for_key(w, e.code, e.message);
    lemma_first_index_bounds(ws, pred);
    let r = handled(ws, e, now, ts).0;
    match window_of(ws, e.code, e.message) {
        Some(i) => {
            if is_open(ws[i], now) {
                assert forall|a: int, b: int| 0 <= a < b < r.len() implies
                    !for_key(#[trigger] r[a], r[b].sample.code, #[trigger] r[b].sample.message) by {
                    assert(r[a].sample == ws[a].sample && r[b].sample == ws[b].sample);
                }
            } else {
                let rm = ws.remove(i);
                assert forall|a: int, b: int| 0 <= a < b < r.len() implies
                    !for_key(#[trigger] r[a], r[b].sample.code, #[trigger] r[b].sample.message) by {
                    let a0 = if a < i { a } else { a + 1 };
                    assert(r[a] == ws[a0]);
                    if b == r.len() - 1 {
                        assert(r[b] == opened(e, now));
                        if a0 > i {
                            assert(!for_key(ws[i], ws[a0].sample.code, ws[a0].sample.message));
                        }
                    } else {
                        let b0 = if b < i { b } else { b + 1 };
                        assert(r[b] == ws[b0]);
                    }
                }
            }
        },
        None => {
            assert forall|a: int, b: int| 0 <= a < b < r.len() implies
                !for_key(#[trigger] r[a], r[b].sample.code, #[trigger] r[b].sample.message) by {
                if b == r.len() - 1 {
                    assert(r[a] == ws[a]);
                    assert(!pred(ws[a]));
                } else {
                    assert(r[a] == ws[a] && r[b] == ws[b]);
                }
            }
        },
    }
}

/// The first occurrence of an error, or the first after its window ran
/// out, is always written and opens a new window that counts it.
pub proof fn law_fresh_occurrence_is_written(ws: Seq<WindowView>, e: ErrorEventView, now: u64, ts: Seq<char>)
    requires
        match window_of(ws, e.code, e.message) {
            Some(i) => !is_open(ws[i], now),
            None => true,
        },
    ensures
        handled(ws, e, now, ts).1.len() >= 1,
        handled(ws, e, now, ts).1.last() == e,
        handled(ws, e, now, ts).0.last() == opened(e, now),
{
}

/// How many occurrences a summary line says were held back.
pub open spec fn held_back(summary: Seq<ErrorEventView>) -> nat {
    if summary.len() > 0 && summary[0].repeats is Some {
        summary[0].repeats->0 as nat
    } else {
        0
    }
}

/// The occurrences of a window that are written: up to the threshold.
pub open spec fn written_in_window(count: u32) -> nat {
    if count <= DEDUPE_THRESHOLD { count as nat } else { DEDUPE_THRESHOLD as nat }
}

/// No occurrence goes unaccounted: those a window writes plus those its
/// summary line reports make up its whole count.
pub proof fn law_occurrences_written_or_summarized(w: WindowView, ts: Seq<char>)
    ensures
        written_in_window(w.count) + held_back(summary_of(w, ts)) == w.count,
{
}

/// Occurrence `e` taken in once at each of `times`, in order: the windows
/// after them and how many lines they wrote.
pub open spec fn run_of(ws: Seq<WindowView>, e: ErrorEventView, times: Seq<u64>, ts: Seq<char>) -> (Seq<WindowView>, nat)
    decreases times.len(),
{
    if times.len() == 0 {
        (ws, 0)
    } else {
        let before = run_of(ws, e, times.drop_last(), ts);
        let step = handled(before.0, e, times.last(), ts);
        (step.0, before.1 + step.1.len())
    }
}

/// A burst of one error inside one window writes at most the threshold's
/// worth of lines: occurrences at `times`, all less than the window's
/// length after the first, open one window that counts every one of them,
/// and write exactly `min(count, DEDUPE_THRESHOLD)` lines.
pub proof fn law_burst_is_capped(ws: Seq<WindowView>, e: ErrorEventView, times: Seq<u64>, ts: Seq<char>)
    requires
        window_of(ws, e.code, e.message) is None,
        1 <= times.len() <= u32::MAX,
        forall|k: int| 0 <= k < times.len() ==> times[0] <= #[trigger] times[k] && times[k] - times[0] < DEDUPE_WINDOW_MS,
    ensures
        run_of(ws, e, times, ts).0 == ws.push(WindowView { start_ms: times[0], count: times.len() as u32, sample: e }),
        run_of(ws, e, times, ts).1 == written_in_window(times.len() as u32),
    decreases times.len(),
{
    let pred = |w: WindowView| for_key(w, e.code, e.message);
    lemma_first_index_bounds(ws, pred);
    if times.len() == 1 {
        assert(times.drop_last() =~= Seq::<u64>::empty());
        assert(times.last() == times[0]);
    } else {
        let dl = times.drop_last();
        assert forall|k: int| 0 <= k < dl.len() implies dl[0] <= #[trigger] dl[k] && dl[k] - dl[0] < DEDUPE_WINDOW_MS by {
            assert(dl[k] == times[k] && dl[0] == times[0]);
        }
        law_burst_is_capped(ws, e, dl, ts);
        let n = dl.len();
        let before = ws.push(WindowView { start_ms: times[0], count: n as u32, sample: e });
        assert forall|j: int| 0 <= j < ws.len() implies !pred(#[trigger] before[j]) by {
            assert(before[j] == ws[j]);
        }
        lemma_first_index(before, pred, ws.len() as int);
        assert(times.last() == times[times.len() - 1]);
        assert(is_open(before[ws.len() as int], times.last()));
        assert(handled(before, e, times.last(), ts).0 =~= ws.push(
            WindowView { start_ms: times[0], count: times.len() as u32, sample: e },
        ));
    }
}


// ---------------------------------------------------------------------------
// Log files
// ---------------------------------------------------------------------------

/// Days a log file is kept.
pub const RETENTION_DAYS: i32 = 14;

/// The most the log files may hold together, in bytes.
pub const MAX_TOTAL_BYTES: u64 = 20 * 1024 * 1024;

/// The name of the log file for `date` (`YYYY-MM-DD`).
pub open spec fn log_file_name_of(date: Seq<char>) -> Seq<char> {
    "errors-"@ + date + ".jsonl"@
}

pub fn log_file_name(date: &str) -> (r: String)
    ensures
        r@ == log_file_name_of(date@),
{
    String::from_str("errors-").concat(date).concat(".jsonl")
}

/// The date part of a log file's name: what lies between `errors-` and
/// `.jsonl`, when the name has both.
pub open spec fn log_date_of(name: Seq<char>) -> Option<Seq<char>> {
    strip_affixes_of(name, "errors-"@, ".jsonl"@)
}

pub fn log_file_date(name: &str) -> (r: Option<String>)
    ensures
        opt_text(r) == log_date_of(name@),
{
    strip_affixes(name, "errors-", ".jsonl")
}

/// The day number `chrono` gives the date written in `text` as
/// `%Y-%m-%d`: days since the start of the common era, 1 January of year 1
/// being day 1; nothing when the text is no such date.
pub uninterp spec fn calendar_day(text: Seq<char>) -> Option<i32>;

/// Reads a `%Y-%m-%d` date as its day number.
///
/// Calls `chrono::NaiveDate::parse_from_str` with that format and, on
/// success, `Datelike::num_days_from_ce`; the contract names the result,
/// which depends on the text alone.
#[verifier::external_body]
fn parse_calendar_day(text: &str) -> (r: Option<i32>)
    ensures
        r == calendar_day(text@),
{
    match chrono::NaiveDate::parse_from_str(text, "%Y-%m-%d") {
        Ok(d) => Some(chrono::Datelike::num_days_from_ce(&d)),
        Err(_) => None,
    }
}

/// The day a log file's name dates it to.
pub open spec fn file_day_of(name: Seq<char>) -> Option<i32> {
    match log_date_of(name) {
        Some(d) => calendar_day(d),
        None => None,
    }
}

pub fn log_file_day(name: &str) -> (r: Option<i32>)
    ensures
        r == file_day_of(name@),
{
    match log_file_date(name) {
        Some(d) => parse_calendar_day(d.as_str()),
        None => None,
    }
}

/// A file in the log folder: its name and size in bytes.
#[derive(Debug)]
pub struct LogFile {
    pub name: String,
    pub size: u64,
}

/// The oldest day a log file may be dated to and still be kept.
pub open spec fn cutoff_day(today: i32) -> int {
    today - RETENTION_DAYS
}

/// The positions, in order, of the log files dated before the cutoff.
pub open spec fn expired_files(files: Seq<LogFile>, today: i32) -> Seq<usize>
    decreases files.len(),
{
    if files.len() == 0 {
        seq![]
    } else {
        let rest = expired_files(files.drop_last(), today);
        match file_day_of(files.last().name@) {
            Some(d) => if d < cutoff_day(today) { rest.push((files.len() - 1) as usize) } else { rest },
            None => rest,
        }
    }
}

/// The log files that stay, as (day, position) pairs in folder order.
pub open spec fn kept_files(files: Seq<LogFile>, today: i32) -> Seq<(i32, usize)>
    decreases files.len(),
{
    if files.len() == 0 {
        seq![]
    } else {
        let rest = kept_files(files.drop_last(), today);
        match file_day_of(files.last().name@) {
            Some(d) => if d >= cutoff_day(today) { rest.push((d, (files.len() - 1) as usize)) } else { rest },
            None => rest,
        }
    }
}

/// The total size of the kept files.
pub open spec fn kept_size(files: Seq<LogFile>, kept: Seq<(i32, usize)>) -> nat
    decreases kept.len(),
{
    if kept.len() == 0 {
        0
    } else {
        kept_size(files, kept.drop_last()) + (files[kept.last().1 as int].size as nat)
    }
}

/// Whether (day, position) pair `a` comes before `b` oldest first: by day,
/// then by position, as a stable sort by day orders them.
pub open spec fn older(a: (i32, usize), b: (i32, usize)) -> bool {
    a.0 < b.0 || (a.0 == b.0 && a.1 < b.1)
}

/// `s` is ordered oldest first, with no pair twice.
pub open spec fn oldest_first(s: Seq<(i32, usize)>) -> bool {
    forall|i: int, j: int| 0 <= i < j < s.len() ==> older(#[trigger] s[i], #[trigger] s[j])
}

/// What retention does to the log folder: delete the expired files, then,
/// oldest first, the kept ones while they hold more than the maximum.
#[derive(Debug)]
pub struct RetentionPlan {
    /// Positions of the files to delete for their age.
    pub expired: Vec<usize>,
    /// The kept files as (day, position), oldest first.
    pub by_age: Vec<(i32, usize)>,
    /// Their total size (at most `u64::MAX`).
    pub total: u64,
}

impl RetentionPlan {
    /// The plan for the files of the log folder on day `today`. Files whose
    /// name is not that of a log file are left alone.
    pub fn new(files: &Vec<LogFile>, today: i32) -> (p: RetentionPlan)
        ensures
            p.expired@ == expired_files(files@, today),
            oldest_first(p.by_age@),
            p.by_age@.len() == kept_files(files@, today).len(),
            forall|x: (i32, usize)| p.by_age@.contains(x) <==> kept_files(files@, today).contains(x),
            p.total == (if kept_size(files@, kept_files(files@, today)) <= u64::MAX {
                kept_size(files@, kept_files(files@, today))
            } else {
                u64::MAX as nat
            }),
    {
        let ghost fs = files@;
        let mut expired: Vec<usize> = Vec::new();
        let mut by_age: Vec<(i32, usize)> = Vec::new();
        let ghost mut kept: Seq<(i32, usize)> = seq![];
        let mut total: u64 = 0;
        let mut i: usize = 0;
        while i < files.len()
            invariant
                fs == files@,
                i <= fs.len(),
                expired@ == expired_files(fs.take(i as int), today),
                kept == kept_files(fs.take(i as int), today),
                forall|k: int| 0 <= k < kept.len() ==> kept[k].1 < i && (#[trigger] kept[k]).1 < fs.len(),
                oldest_first(by_age@),
                by_age@.len() == kept.len(),
                forall|x: (i32, usize)| by_age@.contains(x) <==> kept.contains(x),
                total == (if kept_size(fs, kept) <= u64::MAX { kept_size(fs, kept) } else { u64::MAX as nat }),
            decreases fs.len() - i,
        {
            proof {
                assert(fs.take(i + 1).drop_last() =~= fs.take(i as int));
                assert(fs.take(i + 1).last() == fs[i as int]);
            }
            match log_file_day(files[i].name.as_str()) {
                Some(d) => {
                    if (d as i64) < (today as i64) - (RETENTION_DAYS as i64) {
                        expired.push(i);
                    } else {
                        let x = (d, i);
                        let mut p: usize = by_age.len();
                        while p > 0 && by_age[p - 1].0 > d
                            invariant
                                p <= by_age@.len(),
                                forall|k: int| p <= k < by_age@.len() ==> (#[trigger] by_age@[k]).0 > d,
                            decreases p,
                        {
                            p -= 1;
                        }
                        let ghost before = by_age@;
                        proof {
                            assert(forall|y: (i32, usize)| before.contains(y) <==> kept.contains(y));
                            assert forall|k: int| 0 <= k < p implies older(#[trigger] before[k], x) by {
                                if p > 0 && k < p - 1 {
                                    assert(older(before[k], before[p - 1]));
                                }
                                assert(kept.contains(before[k]));
                                let m = choose|m: int| 0 <= m < kept.len() && kept[m] == before[k];
                                assert(kept[m].1 < i);
                            }
                        }
                        by_age.insert(p, x);
                        proof {
                            before.insert_ensures(p as int, x);
                            assert forall|a: int, b: int| 0 <= a < b < by_age@.len() implies
                                older(#[trigger] by_age@[a], #[trigger] by_age@[b]) by {
                                if b < p {
                                    assert(by_age@[a] == before[a] && by_age@[b] == before[b]);
                                } else if b == p {
                                    assert(by_age@[a] == before[a]);
                                } else if a == p {
                                    assert(by_age@[b] == before[b - 1]);
                                } else if a < p {
                                    assert(by_age@[a] == before[a] && by_age@[b] == before[b - 1]);
                                } else {
                                    assert(by_age@[a] == before[a - 1] && by_age@[b] == before[b - 1]);
                                }
                            }
                            let kept2 = kept.push(x);
                            assert forall|y: (i32, usize)| by_age@.contains(y) <==> kept2.contains(y) by {
                                if by_age@.contains(y) {
                                    let m = choose|m: int| 0 <= m < by_age@.len() && by_age@[m] == y;
                                    if m == p {
                                        assert(kept2[kept.len() as int] == y);
                                    } else {
                                        let m0 = if m < p { m } else { m - 1 };
                                        assert(before[m0] == y);
                                        assert(before.contains(y));
                                        let q = choose|q: int| 0 <= q < kept.len() && kept[q] == y;
                                        assert(kept2[q] == y);
                                    }
                                }
                                if kept2.contains(y) {
                                    let q = choose|q: int| 0 <= q < kept2.len() && kept2[q] == y;
                                    if q == kept.len() {
                                        assert(by_age@[p as int] == y);
                                    } else {
                                        assert(kept[q] == y);
                                        assert(kept.contains(y));
                                        assert(before.contains(y));
                                        let m = choose|m: int| 0 <= m < before.len() && before[m] == y;
                                        if m < p {
                                            assert(by_age@[m] == y);
                                        } else {
                                            assert(by_age@[m + 1] == y);
                                        }
                                    }
                                }
                            }
                            assert(kept_size(fs, kept2) == kept_size(fs, kept) + fs[i as int].size) by {
                                assert(kept2.drop_last() =~= kept);
                            }
                            kept = kept2;
                        }
                        total = total.saturating_add(files[i].size);
                    }
                },
                None => {},
            }
            i += 1;
        }
        proof { assert(fs.take(fs.len() as int) =~= fs); }
        RetentionPlan { expired, by_age, total }
    }
}

/// Retention sorts every log file by its date alone: a file dated `d` is
/// deleted for its age exactly when `d` is before the cutoff, and is kept,
/// to compete on size, exactly when it is not; a file whose name carries no
/// date is neither.
pub proof fn law_retention_splits_by_age(files: Seq<LogFile>, today: i32, j: int)
    requires
        0 <= j < files.len(),
        files.len() <= usize::MAX,
    ensures
        match file_day_of(files[j].name@) {
            Some(d) => {
                &&& expired_files(files, today).contains(j as usize) == (d < cutoff_day(today))
                &&& kept_files(files, today).contains((d, j as usize)) == (d >= cutoff_day(today))
            },
            None => {
                &&& !expired_files(files, today).contains(j as usize)
                &&& forall|d: i32| !#[trigger] kept_files(files, today).contains((d, j as usize))
            },
        },
    decreases files.len(),
{
    lemma_retention_positions(files, today);
    let dl = files.drop_last();
    let last = files.len() - 1;
    if j < last {
        law_retention_splits_by_age(dl, today, j);
        assert(dl[j] == files[j]);
        let e0 = expired_files(dl, today);
        let k0 = kept_files(dl, today);
        lemma_retention_positions(dl, today);
        match file_day_of(files.last().name@) {
            Some(d) => {
                if d < cutoff_day(today) {
                    assert(expired_files(files, today) == e0.push(last as usize));
                    assert(expired_files(files, today).contains(j as usize) == e0.contains(j as usize)) by {
                        if expired_files(files, today).contains(j as usize) {
                            let q = choose|q: int| 0 <= q < e0.len() + 1 && #[trigger] e0.push(last as usize)[q] == j as usize;
                            if q < e0.len() {
                                assert(e0[q] == j as usize);
                            }
                        }
                        if e0.contains(j as usize) {
                            let q = choose|q: int| 0 <= q < e0.len() && e0[q] == j as usize;
                            assert(e0.push(last as usize)[q] == j as usize);
                        }
                    }
                    assert(kept_files(files, today) == k0);
                } else {
                    assert(kept_files(files, today) == k0.push((d, last as usize)));
                    assert forall|x: i32| #[trigger] kept_files(files, today).contains((x, j as usize))
                        == k0.contains((x, j as usize)) by {
                        if kept_files(files, today).contains((x, j as usize)) {
                            let q = choose|q: int| 0 <= q < k0.len() + 1 && #[trigger] k0.push((d, last as usize))[q] == (x, j as usize);
                            if q < k0.len() {
                                assert(k0[q] == (x, j as usize));
                            }
                        }
                        if k0.contains((x, j as usize)) {
                            let q = choose|q: int| 0 <= q < k0.len() && k0[q] == (x, j as usize);
                            assert(k0.push((d, last as usize))[q] == (x, j as usize));
                        }
                    }
                    assert(expired_files(files, today) == e0);
                }
            },
            None => {
                assert(expired_files(files, today) == e0);
                assert(kept_files(files, today) == k0);
            },
        }
    } else {
        let e0 = expired_files(dl, today);
        let k0 = kept_files(dl, today);
        lemma_retention_positions(dl, today);
        assert(!e0.contains(j as usize)) by {
            if e0.contains(j as usize) {
                let q = choose|q: int| 0 <= q < e0.len() && e0[q] == j as usize;
            }
        }
        assert forall|x: i32| !#[trigger] k0.contains((x, j as usize)) by {
            if k0.contains((x, j as usize)) {
                let q = choose|q: int| 0 <= q < k0.len() && k0[q] == (x, j as usize);
            }
        }
        match file_day_of(files.last().name@) {
            Some(d) => {
                if d < cutoff_day(today) {
                    assert(expired_files(files, today) == e0.push(last as usize));
                    assert(expired_files(files, today)[e0.len() as int] == j as usize);
                } else {
                    assert(kept_files(files, today) == k0.push((d, last as usize)));
                    assert(kept_files(files, today)[k0.len() as int] == (d, j as usize));
                    assert forall|x: i32| #[trigger] kept_files(files, today).contains((x, j as usize)) implies x == d by {
                        let q = choose|q: int| 0 <= q < k0.len() + 1 && #[trigger] k0.push((d, last as usize))[q] == (x, j as usize);
                        if q < k0.len() {
                            assert(k0[q] == (x, j as usize));
                        }
                    }
                }
            },
            None => {},
        }
    }
}

proof fn lemma_retention_positions(files: Seq<LogFile>, today: i32)
    requires
        files.len() <= usize::MAX,
    ensures
        forall|q: int| 0 <= q < expired_files(files, today).len() ==> #[trigger] expired_files(files, today)[q] < files.len(),
        forall|q: int| 0 <= q < kept_files(files, today).len() ==> (#[trigger] kept_files(files, today)[q]).1 < files.len(),
    decreases files.len(),
{
    if files.len() > 0 {
        let dl = files.drop_last();
        lemma_retention_positions(dl, today);
        let e0 = expired_files(dl, today);
        let k0 = kept_files(dl, today);
        let last = (files.len() - 1) as usize;
        match file_day_of(files.last().name@) {
            Some(d) => {
                if d < cutoff_day(today) {
                    assert forall|q: int| 0 <= q < e0.len() + 1 implies #[trigger] e0.push(last)[q] < files.len() by {
                        if q < e0.len() {
                            assert(e0.push(last)[q] == e0[q]);
                        }
                    }
                } else {
                    assert forall|q: int| 0 <= q < k0.len() + 1 implies (#[trigger] k0.push((d, last))[q]).1 < files.len() by {
                        if q < k0.len() {
                            assert(k0.push((d, last))[q] == k0[q]);
                        }
                    }
                }
            },
            None => {},
        }
    }
}

/// Removing kept log files, oldest first, until they fit: the state
/// between two removals, which are carried out outside the library.
pub struct SizeSweep {
    order: Vec<(usize, u64)>,
    next: usize,
    total: u64,
}

pub struct SizeSweepView {
    /// The kept files as (position, size), oldest first.
    pub order: Seq<(usize, u64)>,
    /// How many of them have been tried.
    pub next: nat,
    /// What the kept files hold now, in bytes.
    pub total: u64,
}

impl View for SizeSweep {
    type V = SizeSweepView;

    closed spec fn view(&self) -> SizeSweepView {
        SizeSweepView { order: self.order@, next: self.next as nat, total: self.total }
    }
}

/// The file the sweep removes next: none once the files fit, or every file
/// has been tried.
pub open spec fn sweep_victim(s: SizeSweepView) -> Option<usize> {
    if s.total <= MAX_TOTAL_BYTES || s.next >= s.order.len() {
        None
    } else {
        Some(s.order[s.next as int].0)
    }
}

impl SizeSweep {
    /// The sweep over the kept files of `plan`, whose sizes are in `files`.
    pub fn new(plan: &RetentionPlan, files: &Vec<LogFile>) -> (s: SizeSweep)
        requires
            forall|k: int| 0 <= k < plan.by_age@.len() ==> (#[trigger] plan.by_age@[k]).1 < files@.len(),
        ensures
            s@.next == 0,
            s@.total == plan.total,
            s@.order.len() == plan.by_age@.len(),
            forall|k: int| 0 <= k < s@.order.len() ==> (#[trigger] s@.order[k]).0 == plan.by_age@[k].1
                && s@.order[k].1 == files@[plan.by_age@[k].1 as int].size,
    {
        let mut order: Vec<(usize, u64)> = Vec::new();
        let mut k: usize = 0;
        while k < plan.by_age.len()
            invariant
                k <= plan.by_age@.len(),
                order@.len() == k,
                forall|j: int| 0 <= j < plan.by_age@.len() ==> (#[trigger] plan.by_age@[j]).1 < files@.len(),
                forall|j: int| 0 <= j < k ==> (#[trigger] order@[j]).0 == plan.by_age@[j].1
                    && order@[j].1 == files@[plan.by_age@[j].1 as int].size,
            decreases plan.by_age@.len() - k,
        {
            let pos = plan.by_age[k].1;
            order.push((pos, files[pos].size));
            k += 1;
        }
        SizeSweep { order, next: 0, total: plan.total }
    }

    /// The position of the file to remove next, if any.
    pub fn next_victim(&self) -> (r: Option<usize>)
        ensures
            r == sweep_victim(self@),
    {
        if self.total <= MAX_TOTAL_BYTES || self.next >= self.order.len() {
            None
        } else {
            Some(self.order[self.next].0)
        }
    }

    /// Records the outcome of removing the file `next_victim` offered: a
    /// removed file no longer counts towards the total.
    pub fn record(&mut self, removed: bool)
        requires
            sweep_victim(old(self)@) is Some,
        ensures
            final(self)@.order == old(self)@.order,
            final(self)@.next == old(self)@.next + 1,
            final(self)@.total == (if removed {
                if old(self)@.total >= old(self)@.order[old(self)@.next as int].1 {
                    (old(self)@.total - old(self)@.order[old(self)@.next as int].1) as u64
                } else {
                    0
                }
            } else {
                old(self)@.total
            }),
    {
        let n = self.order.len();
        assert(self.next < n);
        if removed {
            self.total = self.total.saturating_sub(self.order[self.next].1);
        }
        self.next = self.next + 1;
    }
}


// ---------------------------------------------------------------------------
// The writer's day, and reading a day's log back
// ---------------------------------------------------------------------------

/// The day an event belongs to: the first ten bytes of its timestamp
/// (`YYYY-MM-DD`), or `current` when they do not end on a character.
pub open spec fn event_day_of(ts: Seq<char>, current: Seq<char>) -> Seq<char> {
    match byte_prefix(ts, 10) {
        Some(d) => d,
        None => current,
    }
}

/// The writer's day after an event stamped `ts`, and whether the day
/// changed (which is when retention runs again).
pub fn day_after_event(current: &str, ts: &str) -> (r: (String, bool))
    ensures
        r.0@ == event_day_of(ts@, current@),
        r.1 == (event_day_of(ts@, current@) != current@),
{
    let day = match byte_prefix_text(ts, 10) {
        Some(d) => d,
        None => to_owned_string(current),
    };
    let changed = !str_eq(day.as_str(), current);
    (day, changed)
}

/// Whether `serde_json` reads `text` as a JSON value.
pub open spec fn is_json_value(text: Seq<char>) -> bool {
    json_manifest(text) is Ok
}

/// Whether `line` holds one JSON value.
fn parses_as_json(line: &str) -> (r: bool)
    ensures
        r == is_json_value(line@),
{
    match read_json_manifest(line) {
        Ok(_) => true,
        Err(_) => false,
    }
}

/// The lines that hold a JSON value, in order.
pub open spec fn json_lines(lines: Seq<Seq<char>>) -> Seq<Seq<char>>
    decreases lines.len(),
{
    if lines.len() == 0 {
        seq![]
    } else if is_json_value(lines.last()) {
        json_lines(lines.drop_last()).push(lines.last())
    } else {
        json_lines(lines.drop_last())
    }
}

/// The last `limit` entries of `s`, or all of them without a limit.
pub open spec fn last_n<T>(s: Seq<T>, limit: Option<usize>) -> Seq<T> {
    match limit {
        Some(l) => if s.len() > l { s.skip(s.len() - l) } else { s },
        None => s,
    }
}

/// The events of a day's log, as their JSON lines: the lines of `content`
/// that hold a JSON value (others are skipped), the last `limit` of them
/// when a limit is given.
pub fn log_entries(content: &str, limit: Option<usize>) -> (r: Vec<String>)
    ensures
        r@.map_values(|l: String| l@) == last_n(json_lines(lines_of(content@)), limit),
{
    let lines = split_lines(content);
    let ghost ls = lines@.map_values(|l: String| l@);
    let mut kept: Vec<String> = Vec::new();
    let mut i: usize = 0;
    while i < lines.len()
        invariant
            i <= lines@.len(),
            ls == lines@.map_values(|l: String| l@),
            kept@.map_values(|l: String| l@) == json_lines(ls.take(i as int)),
        decreases lines@.len() - i,
    {
        proof {
            assert(ls.take(i + 1).drop_last() =~= ls.take(i as int));
            assert(ls.take(i + 1).last() == lines@[i as int]@);
        }
        if parses_as_json(lines[i].as_str()) {
            let ghost before = kept@;
            kept.push(lines[i].clone());
            assert(kept@.map_values(|l: String| l@) =~= before.map_values(|l: String| l@).push(lines@[i as int]@));
        }
        i += 1;
    }
    assert(ls.take(lines@.len() as int) =~= ls);
    let ghost all = kept@.map_values(|l: String| l@);
    match limit {
        Some(l) => {
            if kept.len() > l {
                let skip = kept.len() - l;
                let mut out: Vec<String> = Vec::new();
                let mut j: usize = skip;
                while j < kept.len()
                    invariant
                        skip <= j <= kept@.len(),
                        all == kept@.map_values(|l: String| l@),
                        out@.map_values(|l: String| l@) == all.subrange(skip as int, j as int),
                    decreases kept@.len() - j,
                {
                    let ghost before = out@;
                    out.push(kept[j].clone());
                    assert(out@.map_values(|l: String| l@) =~= before.map_values(|l: String| l@).push(all[j as int]));
                    j += 1;
                    assert(all.subrange(skip as int, j as int) =~= all.subrange(skip as int, j - 1).push(all[j - 1]));
                }
                return out;
            }
            kept
        },
        None => kept,
    }
}

/// The error for a day's log that exists but could not be read.
pub fn log_read_failed(reason: &str) -> (e: AppError)
    ensures
        e.module@ == "error_logger"@,
        e.code@ == "STORE_READ_FAILED"@,
        e.message@ == "No se pudo leer el log de errores: "@ + reason@,
{
    AppError::new("error_logger", "STORE_READ_FAILED", String::from_str("No se pudo leer el log de errores: ").concat(reason))
}

} // verus!
