use easy_term::error::AppError;
use easy_term::shutdown::{
    port_kill_begin, port_kill_step, stop_begin, stop_step, PortKillAction, PortKillEvent, PortKillStage,
    SignalOutcome, StopAction, StopEvent, StopSignal, StopStage, PORT_KILL_SETTLE_MS, STOP_GRACE_MS,
};

#[test]
fn a_stop_that_exits_in_time_never_sends_sigkill() {
    let (stage, action) = stop_begin();
    assert!(matches!(action, StopAction::Send(StopSignal::Term)));
    let (stage, action) = stop_step("p1", 42, stage, StopEvent::Sent(SignalOutcome::Delivered));
    assert!(matches!(action, StopAction::AwaitExit(ms) if ms == STOP_GRACE_MS));
    let (stage, action) = stop_step("p1", 42, stage, StopEvent::Waited { exited: true });
    assert_eq!(stage, StopStage::Stopped);
    assert!(matches!(action, StopAction::Finish(Ok(()))));
}

#[test]
fn a_stop_that_does_not_exit_is_killed() {
    let (stage, _) = stop_begin();
    let (stage, _) = stop_step("p1", 42, stage, StopEvent::Sent(SignalOutcome::AlreadyGone));
    let (stage, action) = stop_step("p1", 42, stage, StopEvent::Waited { exited: false });
    assert!(matches!(action, StopAction::Send(StopSignal::Kill)));
    let (_, action) = stop_step("p1", 42, stage, StopEvent::Sent(SignalOutcome::Delivered));
    assert!(matches!(action, StopAction::Finish(Ok(()))));
}

#[test]
fn a_failed_signal_ends_the_stop_with_its_error() {
    let (stage, _) = stop_begin();
    let (_, action) = stop_step("p1", 42, stage, StopEvent::Sent(SignalOutcome::Failed("denied".to_string())));
    match action {
        StopAction::Finish(Err(e)) => {
            assert_eq!(e.code, "PROC_KILL_FAILED");
            assert_eq!(e.message, "Could not send signal 15 to process 42: denied");
            assert_eq!(e.context.as_deref(), Some("{\"pid\":42,\"projectId\":\"p1\"}"));
        }
        other => panic!("unexpected {other:?}"),
    }
}

#[test]
fn freeing_a_free_port_does_nothing() {
    let (stage, action) = port_kill_begin();
    assert!(matches!(action, PortKillAction::ListOwners));
    let (_, action) = port_kill_step(3000, stage, PortKillEvent::Listed(Ok(Vec::new())));
    assert!(matches!(action, PortKillAction::Finish(Ok(()))));
}

#[test]
fn freeing_a_port_terminates_waits_and_kills_the_survivors() {
    let (stage, _) = port_kill_begin();
    let (stage, action) = port_kill_step(3000, stage, PortKillEvent::Listed(Ok(vec![7, 8])));
    assert!(matches!(&action, PortKillAction::TerminateAll(p) if p == &vec![7, 8]));
    let (stage, action) = port_kill_step(3000, stage, PortKillEvent::Terminated);
    assert!(matches!(action, PortKillAction::Sleep(ms) if ms == PORT_KILL_SETTLE_MS));
    let (stage, action) = port_kill_step(3000, stage, PortKillEvent::Slept);
    assert!(matches!(action, PortKillAction::ListOwners));
    let (stage, action) = port_kill_step(3000, stage, PortKillEvent::Listed(Ok(vec![8, 9])));
    assert!(matches!(action, PortKillAction::Kill(8)));
    let (stage, action) = port_kill_step(3000, stage, PortKillEvent::Killed(SignalOutcome::AlreadyGone));
    assert!(matches!(action, PortKillAction::Kill(9)));
    let (stage, action) = port_kill_step(3000, stage, PortKillEvent::Killed(SignalOutcome::Delivered));
    assert!(matches!(stage, PortKillStage::Done));
    assert!(matches!(action, PortKillAction::Finish(Ok(()))));
}

#[test]
fn a_kill_that_fails_reports_the_process_and_port() {
    let (stage, _) = port_kill_begin();
    let (stage, _) = port_kill_step(3000, stage, PortKillEvent::Listed(Ok(vec![7])));
    let (stage, _) = port_kill_step(3000, stage, PortKillEvent::Terminated);
    let (stage, _) = port_kill_step(3000, stage, PortKillEvent::Slept);
    let (stage, _) = port_kill_step(3000, stage, PortKillEvent::Listed(Ok(vec![7])));
    let (_, action) = port_kill_step(3000, stage, PortKillEvent::Killed(SignalOutcome::Failed("denied".to_string())));
    match action {
        PortKillAction::Finish(Err(e)) => {
            assert_eq!(e.code, "PORT_KILL_OWNER_FAILED");
            assert_eq!(e.message, "Could not kill process 7 on port 3000: denied");
        }
        other => panic!("unexpected {other:?}"),
    }
}

#[test]
fn a_failed_listing_ends_with_its_error() {
    let (stage, _) = port_kill_begin();
    let failure = AppError::new("port_checker", "PORT_CHECK_FAILED", "lsof missing".to_string());
    let (_, action) = port_kill_step(3000, stage, PortKillEvent::Listed(Err(failure)));
    assert!(matches!(action, PortKillAction::Finish(Err(e)) if e.code == "PORT_CHECK_FAILED"));
}
