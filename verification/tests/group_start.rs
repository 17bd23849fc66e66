use easy_term::group_start::{
    group_start_begin, group_start_step, GroupAction, GroupEvent, GroupStart, GROUP_GRACE_MS, GROUP_READINESS_POLL_MS,
};
use easy_term::project_store::Project;

fn project(name: &str, port: Option<u16>) -> Project {
    Project {
        id: format!("id-{name}"),
        name: name.to_string(),
        path: format!("/tmp/{name}"),
        command: "pnpm run dev".to_string(),
        port,
        env: Vec::new(),
        auto_restart: false,
        group_id: None,
        was_running: false,
        color: None,
        pinned: false,
    }
}

#[test]
fn an_empty_group_is_done_at_once() {
    assert_eq!(group_start_begin(&Vec::new()), (GroupStart::Finished, GroupAction::Done));
}

#[test]
fn a_project_with_a_port_is_polled_until_it_opens() {
    let projects = vec![project("api", Some(4000)), project("web", None)];
    let (state, action) = group_start_begin(&projects);
    assert_eq!(action, GroupAction::Start(0));

    let (state, action) = group_start_step(&projects, &state, GroupEvent::Started { now_ms: 100 });
    assert_eq!(action, GroupAction::PollPort { port: 4000, deadline_ms: 8100 });

    let (state, action) = group_start_step(&projects, &state, GroupEvent::Polled { now_ms: 110, port_open: false });
    assert_eq!(action, GroupAction::Sleep(GROUP_READINESS_POLL_MS));

    let (state, action) = group_start_step(&projects, &state, GroupEvent::Slept { now_ms: 410 });
    assert_eq!(action, GroupAction::PollPort { port: 4000, deadline_ms: 8100 });

    let (state, action) = group_start_step(&projects, &state, GroupEvent::Polled { now_ms: 420, port_open: true });
    assert_eq!(action, GroupAction::Start(1));

    let (state, action) = group_start_step(&projects, &state, GroupEvent::Started { now_ms: 500 });
    assert_eq!(action, GroupAction::Sleep(GROUP_GRACE_MS));
    assert_eq!(state, GroupStart::Grace { index: 1 });

    let (state, action) = group_start_step(&projects, &state, GroupEvent::Slept { now_ms: 2500 });
    assert_eq!((state, action), (GroupStart::Finished, GroupAction::Done));
}

#[test]
fn a_port_that_never_opens_is_given_up_on_at_the_deadline() {
    let projects = vec![project("api", Some(4000)), project("web", Some(5173))];
    let (state, _) = group_start_begin(&projects);
    let (state, _) = group_start_step(&projects, &state, GroupEvent::Started { now_ms: 0 });
    let (state, _) = group_start_step(&projects, &state, GroupEvent::Polled { now_ms: 7900, port_open: false });
    let (_, action) = group_start_step(&projects, &state, GroupEvent::Slept { now_ms: 8000 });
    assert_eq!(action, GroupAction::Start(1));
}

#[test]
fn a_project_that_fails_to_start_is_skipped() {
    let projects = vec![project("api", Some(4000)), project("web", None)];
    let (state, _) = group_start_begin(&projects);
    let (state, action) = group_start_step(&projects, &state, GroupEvent::StartFailed);
    assert_eq!(action, GroupAction::Start(1));
    let (_, action) = group_start_step(&projects, &state, GroupEvent::StartFailed);
    assert_eq!(action, GroupAction::Done);
}

#[test]
fn an_event_that_answers_nothing_repeats_the_pending_action() {
    let projects = vec![project("api", Some(4000))];
    let (state, _) = group_start_begin(&projects);
    let (again, action) = group_start_step(&projects, &state, GroupEvent::Slept { now_ms: 5 });
    assert_eq!(again, state);
    assert_eq!(action, GroupAction::Start(0));
}
