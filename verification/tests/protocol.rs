use easy_term::daemon::{
    answer, call_result, count_or_zero, into_result, output_or_empty, stats_or_none, statuses_or_empty,
    ResponseBody,
};
use easy_term::error::AppError;
use easy_term::process_manager::{ProcessManager, ProjectStatus};
use easy_term::protocol::{Event, PayloadValue, Request, WireError};

#[test]
fn events_map_onto_the_frontend_event_names() {
    let fe = Event::Status { id: "p1".to_string(), status: ProjectStatus::Running, pid: Some(4242) }
        .frontend_event()
        .expect("status has a frontend counterpart");

    assert_eq!(fe.name, "process:status");
    assert!(matches!(fe.field("id"), Some(PayloadValue::Text(s)) if s == "p1"));
    assert!(matches!(fe.field("status"), Some(PayloadValue::Text(s)) if s == "running"));
    assert!(matches!(fe.field("pid"), Some(PayloadValue::Unsigned(4242))));
}

#[test]
fn restart_scheduled_keeps_its_camel_case_payload_keys() {
    let fe = Event::RestartScheduled { id: "p1".to_string(), attempt: 2, max_attempts: 5, delay_ms: 2000 }
        .frontend_event()
        .unwrap();

    assert!(matches!(fe.field("maxAttempts"), Some(PayloadValue::Unsigned(5))), "frontend reads maxAttempts");
    assert!(matches!(fe.field("delayMs"), Some(PayloadValue::Unsigned(2000))), "frontend reads delayMs");
}

#[test]
fn crash_notifications_are_the_guis_job_not_the_frontends() {
    assert!(Event::Crashed { id: "p1".to_string(), name: "web".to_string(), code: 1 }
        .frontend_event()
        .is_none());
}

#[test]
fn every_other_event_has_its_process_name() {
    let cases = vec![
        (Event::Output { id: "p".into(), chunk: "x".into() }, "process:output"),
        (Event::Exit { id: "p".into(), code: -1 }, "process:exit"),
        (Event::UrlDetected { id: "p".into(), url: "u".into() }, "process:url-detected"),
        (Event::ErrorCount { id: "p".into(), count: 3 }, "process:error-count"),
        (Event::RestartExhausted { id: "p".into() }, "process:restart-exhausted"),
    ];
    for (event, name) in cases {
        let fe = event.frontend_event().unwrap();
        assert_eq!(fe.name, name);
        assert!(matches!(fe.field("id"), Some(PayloadValue::Text(s)) if s == "p"));
    }
    let exit = Event::Exit { id: "p".into(), code: -1 }.frontend_event().unwrap();
    assert!(matches!(exit.field("code"), Some(PayloadValue::Signed(-1))));
    let stopped = Event::Status { id: "p".into(), status: ProjectStatus::Stopped, pid: None }.frontend_event().unwrap();
    assert!(matches!(stopped.field("pid"), Some(PayloadValue::Null)));
    assert!(stopped.field("nope").is_none());
}

#[test]
fn wire_errors_describe_themselves_as_code_and_message() {
    let w = WireError::from_app_error(AppError::new("m", "SOME_CODE", "went wrong".to_string()));
    assert_eq!(w.code, "SOME_CODE");
    assert_eq!(w.describe(), "[SOME_CODE] went wrong");
}

#[test]
fn an_error_reply_becomes_an_err_with_the_wire_text() {
    let body: ResponseBody<()> = ResponseBody::from_outcome(Err(AppError::new("m", "PROC_KILL_FAILED", "nope".to_string())));
    let e = into_result(body).err().unwrap();
    assert_eq!(e.code, "DAEMON_REQUEST_FAILED");
    assert_eq!(e.message, "[PROC_KILL_FAILED] nope");
    let ok: ResponseBody<()> = ResponseBody::from_outcome(Ok(()));
    assert!(matches!(into_result(ok), Ok(ResponseBody::Done)));
}

#[test]
fn a_call_without_a_connection_reports_unavailable() {
    let e = call_result::<()>(false, Ok(ResponseBody::Done)).err().unwrap();
    assert_eq!(e.code, "DAEMON_UNAVAILABLE");
    assert_eq!(e.message, "not connected to the easy-term daemon");
    let e = call_result::<()>(true, Ok(ResponseBody::disconnected())).err().unwrap();
    assert_eq!(e.message, "[DAEMON_DISCONNECTED] the daemon closed the connection");
}

#[test]
fn replies_are_read_with_neutral_fallbacks() {
    assert_eq!(output_or_empty::<()>(Ok(ResponseBody::Output { text: "log".into() })), "log");
    assert_eq!(output_or_empty::<()>(Ok(ResponseBody::Done)), "");
    assert_eq!(count_or_zero::<()>(Ok(ResponseBody::Count { count: 4 })), 4);
    assert_eq!(count_or_zero::<()>(Err(AppError::new("m", "C", String::new()))), 0);
    assert!(statuses_or_empty::<()>(Ok(ResponseBody::Done)).is_empty());
    assert_eq!(stats_or_none::<u8>(Ok(ResponseBody::Stats { stats: Some(3) })), Some(3));
    assert_eq!(stats_or_none::<u8>(Ok(ResponseBody::Done)), None);
}

#[test]
fn the_bookkeeping_answers_what_needs_no_process_work() {
    let mut m: ProcessManager<()> = ProcessManager::new();
    m.begin_start("p1", "web").unwrap();
    m.register_spawned("p1", 5, ());
    m.scan_output("p1", b"error\nhello", false);

    assert!(matches!(answer::<(), ()>(&mut m, &Request::Ping), Some(ResponseBody::Done)));
    match answer::<(), ()>(&mut m, &Request::GetOutput { id: "p1".into() }) {
        Some(ResponseBody::Output { text }) => assert_eq!(text, "error\nhello"),
        _ => panic!("output expected"),
    }
    match answer::<(), ()>(&mut m, &Request::ErrorCount { id: "p1".into() }) {
        Some(ResponseBody::Count { count }) => assert_eq!(count, 1),
        _ => panic!("count expected"),
    }
    assert!(matches!(answer::<(), ()>(&mut m, &Request::ResetErrorCount { id: "p1".into() }), Some(ResponseBody::Done)));
    assert_eq!(m.error_count("p1"), 0);
    match answer::<(), ()>(&mut m, &Request::ListStatuses) {
        Some(ResponseBody::Statuses { statuses }) => assert_eq!(statuses.len(), 1),
        _ => panic!("statuses expected"),
    }
    assert!(answer::<(), ()>(&mut m, &Request::Stop { id: "p1".into() }).is_none());
    assert!(answer::<(), ()>(&mut m, &Request::GetStats { id: "p1".into() }).is_none());
    assert_eq!(m.pid_of("p1"), Some(5));
}

use easy_term::daemon::Replies;

#[test]
fn a_reply_reaches_the_request_it_answers() {
    let mut r: Replies<()> = Replies::new();
    r.expect(1);
    r.expect(2);
    assert!(r.collect(1).is_none(), "nothing arrived yet");
    r.deliver(2, ResponseBody::Count { count: 7 });
    assert!(r.collect(1).is_none());
    assert!(matches!(r.collect(2), Some(ResponseBody::Count { count: 7 })));
    // Collected once: the slot is gone.
    assert!(r.collect(2).is_none());
}

#[test]
fn a_closed_connection_answers_every_waiting_request() {
    let mut r: Replies<()> = Replies::new();
    r.expect(1);
    r.expect(2);
    r.abandon(2);
    r.disconnect_all();
    match r.collect(1) {
        Some(ResponseBody::Error { error }) => {
            assert_eq!(error.code, "DAEMON_DISCONNECTED");
            assert_eq!(error.message, "the daemon closed the connection");
        }
        other => panic!("expected the disconnected reply, got {other:?}"),
    }
    assert!(r.collect(2).is_none(), "an abandoned request is not answered");
}
