//! What the native notification for a crashed project says. Posting it is
//! the GUI's job.

use crate::protocol::{fields_view, frontend_event_of, Event, EventView, FrontendEvent};
use crate::text::{i64_text, signed_decimal_text};
use vstd::prelude::*;

verus! {

/// The title and body of the notification for project `name` ending with
/// exit code `code`.
pub open spec fn crash_notice_of(name: Seq<char>, code: i32) -> (Seq<char>, Seq<char>) {
    (name + " se detuvo"@, "Terminó inesperadamente (código "@ + signed_decimal_text(code as int) + ")"@)
}

pub fn crash_notice(name: &str, code: i32) -> (r: (String, String))
    ensures
        (r.0@, r.1@) == crash_notice_of(name@, code),
{
    let title = String::from_str(name).concat(" se detuvo");
    let body = String::from_str("Terminó inesperadamente (código ").concat(i64_text(code as i64).as_str()).concat(")");
    (title, body)
}


/// A crash notification: the project it is about (so clicking it can open
/// that project's log), its title and body.
#[derive(Debug)]
pub struct CrashNotice {
    pub project_id: String,
    pub title: String,
    pub body: String,
}

/// What the GUI does with a process event: forward it to the frontend
/// (unless it has no frontend counterpart), refresh the tray on a status
/// change, and post a notification on a crash.
#[derive(Debug)]
pub struct GuiEffects {
    pub frontend: Option<FrontendEvent>,
    pub refresh_tray: bool,
    pub notice: Option<CrashNotice>,
}

pub fn gui_effects(event: &Event) -> (r: GuiEffects)
    ensures
        match frontend_event_of(event@) {
            Some((name, fields)) => r.frontend matches Some(f) && f.name@ == name && fields_view(f.fields@) == fields,
            None => r.frontend is None,
        },
        r.refresh_tray == (event@ is Status),
        match event@ {
            EventView::Crashed { id, name, code } => r.notice matches Some(n) && n.project_id@ == id
                && (n.title@, n.body@) == crash_notice_of(name, code),
            _ => r.notice is None,
        },
{
    let frontend = event.frontend_event();
    let refresh_tray = match event {
        Event::Status { .. } => true,
        _ => false,
    };
    let notice = match event {
        Event::Crashed { id, name, code } => {
            let (title, body) = crash_notice(name.as_str(), *code);
            Some(CrashNotice { project_id: id.clone(), title, body })
        },
        _ => None,
    };
    GuiEffects { frontend, refresh_tray, notice }
}

} // verus!
