use easy_term::notifications::{crash_notice, gui_effects};
use easy_term::process_manager::ProjectStatus;
use easy_term::protocol::Event;

#[test]
fn a_crash_notice_names_the_project_and_its_exit_code() {
    let (title, body) = crash_notice("web", -9);
    assert_eq!(title, "web se detuvo");
    assert_eq!(body, "Terminó inesperadamente (código -9)");
}

#[test]
fn the_gui_forwards_events_refreshes_on_status_and_notifies_on_crash() {
    let status = gui_effects(&Event::Status { id: "p".into(), status: ProjectStatus::Running, pid: Some(1) });
    assert_eq!(status.frontend.unwrap().name, "process:status");
    assert!(status.refresh_tray);
    assert!(status.notice.is_none());

    let crash = gui_effects(&Event::Crashed { id: "p".into(), name: "api".into(), code: 2 });
    assert!(crash.frontend.is_none());
    assert!(!crash.refresh_tray);
    let notice = crash.notice.unwrap();
    assert_eq!(notice.project_id, "p");
    assert_eq!(notice.title, "api se detuvo");
    assert_eq!(notice.body, "Terminó inesperadamente (código 2)");

    let output = gui_effects(&Event::Output { id: "p".into(), chunk: "hi".into() });
    assert_eq!(output.frontend.unwrap().name, "process:output");
    assert!(!output.refresh_tray);
}
