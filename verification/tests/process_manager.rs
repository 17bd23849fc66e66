use easy_term::output::{count_error_matches, detect_url};
use easy_term::process_manager::{
    append_to_ring, backoff_delay_ms, ProcessManager, ProjectStatus, RestartDecision, RING_BUFFER_MAX,
};
use easy_term::protocol::Event;

#[test]
fn backoff_delay_doubles_each_attempt_until_the_cap() {
    assert_eq!(backoff_delay_ms(1), 1_000);
    assert_eq!(backoff_delay_ms(2), 2_000);
    assert_eq!(backoff_delay_ms(3), 4_000);
    assert_eq!(backoff_delay_ms(4), 8_000);
    assert_eq!(backoff_delay_ms(5), 16_000);
    // MAX_RESTART_ATTEMPTS is 5, but the formula itself must not
    // overflow or exceed the cap if it were ever called past that.
    assert_eq!(backoff_delay_ms(6), 30_000);
    assert_eq!(backoff_delay_ms(20), 30_000);
}

#[test]
fn detect_url_finds_a_localhost_url_with_port() {
    let chunk = b"Local:   http://localhost:5173/\n";
    assert_eq!(detect_url(chunk), Some("http://localhost:5173".to_string()));
}

#[test]
fn detect_url_finds_a_127_0_0_1_url() {
    let chunk = b"Server running at http://127.0.0.1:3000";
    assert_eq!(detect_url(chunk), Some("http://127.0.0.1:3000".to_string()));
}

#[test]
fn detect_url_strips_trailing_punctuation_and_slash() {
    let chunk = b"see (http://localhost:8080/) for details";
    assert_eq!(detect_url(chunk), Some("http://localhost:8080".to_string()));
}

#[test]
fn detect_url_ignores_non_local_hosts() {
    let chunk = b"Deployed to https://example.com";
    assert_eq!(detect_url(chunk), None);
}

#[test]
fn detect_url_returns_none_when_nothing_matches() {
    let chunk = b"just some ordinary log output\n";
    assert_eq!(detect_url(chunk), None);
}

#[test]
fn count_error_matches_is_case_insensitive_and_whole_word() {
    let text = "Error: build failed\nWARNING: deprecated api\nWarn: low disk\nall good here";
    assert_eq!(count_error_matches(text), 3);
}

#[test]
fn count_error_matches_ignores_substrings_that_are_not_whole_words() {
    // "terrorize" and "forward" contain "error"/"warn" as substrings —
    // the regex is word-bounded, so these must not count.
    let text = "terrorize the forward warehouse";
    assert_eq!(count_error_matches(text), 0);
}

#[test]
fn count_error_matches_returns_zero_for_clean_output() {
    assert_eq!(count_error_matches("vite dev server running\nready in 200ms"), 0);
}

#[test]
fn detect_url_reads_invalid_utf8_lossily() {
    let mut chunk = vec![0xff, 0xfe, b' '];
    chunk.extend_from_slice(b"http://localhost:3000\"");
    assert_eq!(detect_url(&chunk), Some("http://localhost:3000".to_string()));
}

#[test]
fn detect_url_stops_at_an_escape_sequence() {
    let chunk = b"\x1b[32mhttp://localhost:4321\x1b[0m";
    assert_eq!(detect_url(chunk), Some("http://localhost:4321".to_string()));
}

#[test]
fn count_error_matches_counts_a_line_once_however_many_words_match() {
    assert_eq!(count_error_matches("error and warning on one line\r\nwarn"), 2);
}

fn started(m: &mut ProcessManager<()>, id: &str, pid: i32) {
    m.begin_start(id, "web").unwrap();
    m.register_spawned(id, pid, ());
}

#[test]
fn starting_twice_is_refused_with_the_project_name() {
    let mut m: ProcessManager<()> = ProcessManager::new();
    started(&mut m, "p1", 42);
    let err = m.begin_start("p1", "web").err().expect("already running");
    assert_eq!(err.code, "PROC_ALREADY_RUNNING");
    assert_eq!(err.message, "Project \"web\" is already running");
    assert_eq!(m.pid_of("p1"), Some(42));
}

#[test]
fn a_start_reports_starting_then_running() {
    let mut m: ProcessManager<()> = ProcessManager::new();
    let first = m.begin_start("p1", "web").unwrap();
    assert!(matches!(first, Event::Status { ref id, status: ProjectStatus::Starting, pid: None } if id == "p1"));
    let second = m.register_spawned("p1", 7, ());
    assert!(matches!(second, Event::Status { status: ProjectStatus::Running, pid: Some(7), .. }));
    assert_eq!(m.running_count(), 1);
    assert_eq!(m.live_ids(), vec!["p1".to_string()]);
}

#[test]
fn a_failed_spawn_leaves_the_project_crashed() {
    let mut m: ProcessManager<()> = ProcessManager::new();
    m.begin_start("p1", "web").unwrap();
    let e = m.spawn_failed("p1");
    assert!(matches!(e, Event::Status { status: ProjectStatus::Crashed, .. }));
    assert_eq!(m.running_count(), 0);
}

#[test]
fn a_crash_schedules_a_restart_with_backoff() {
    let mut m: ProcessManager<()> = ProcessManager::new();
    started(&mut m, "p1", 42);
    let out = m.on_exit("p1", "web", 1, false, 100, true);
    assert_eq!(out.status, ProjectStatus::Crashed);
    assert!(!out.exhausted);
    match out.restart {
        Some(RestartDecision::Scheduled { attempt, delay_ms, .. }) => {
            assert_eq!(attempt, 1);
            assert_eq!(delay_ms, 1_000);
        }
        _ => panic!("a crash with auto-restart must schedule a restart"),
    }
    assert_eq!(m.pid_of("p1"), None);
}

#[test]
fn the_sixth_quick_crash_exhausts_the_restart_budget() {
    let mut m: ProcessManager<()> = ProcessManager::new();
    let mut delays = Vec::new();
    for _ in 0..5 {
        started(&mut m, "p1", 42);
        let out = m.on_exit("p1", "web", 1, false, 10, true);
        match out.restart {
            Some(RestartDecision::Scheduled { delay_ms, .. }) => delays.push(delay_ms),
            _ => panic!("restart expected"),
        }
    }
    assert_eq!(delays, vec![1_000, 2_000, 4_000, 8_000, 16_000]);
    started(&mut m, "p1", 42);
    let out = m.on_exit("p1", "web", 1, false, 10, true);
    assert!(out.exhausted);
    assert!(out.restart.is_none());
    assert!(out.events.iter().any(|e| matches!(e, Event::RestartExhausted { .. })));
}

#[test]
fn a_crash_after_a_long_run_starts_the_backoff_over() {
    let mut m: ProcessManager<()> = ProcessManager::new();
    for _ in 0..3 {
        started(&mut m, "p1", 42);
        m.on_exit("p1", "web", 1, false, 10, true);
    }
    started(&mut m, "p1", 42);
    let out = m.on_exit("p1", "web", 1, false, 5_000, true);
    match out.restart {
        Some(RestartDecision::Scheduled { attempt, delay_ms, .. }) => {
            assert_eq!(attempt, 1);
            assert_eq!(delay_ms, 1_000);
        }
        _ => panic!("restart expected"),
    }
}

#[test]
fn a_stop_cancels_a_pending_restart_and_its_exit_is_not_a_crash() {
    let mut m: ProcessManager<()> = ProcessManager::new();
    started(&mut m, "p1", 42);
    let out = m.on_exit("p1", "web", 1, false, 10, true);
    let epoch = match out.restart {
        Some(RestartDecision::Scheduled { epoch, .. }) => epoch,
        _ => panic!("restart expected"),
    };
    assert!(m.restart_still_valid("p1", epoch));
    assert_eq!(m.begin_stop("p1"), None);
    assert!(!m.restart_still_valid("p1", epoch));

    started(&mut m, "p2", 9);
    assert_eq!(m.begin_stop("p2"), Some(9));
    let out = m.on_exit("p2", "api", 143, false, 10, true);
    assert_eq!(out.status, ProjectStatus::Stopped);
    assert!(out.restart.is_none());
    assert!(!out.events.iter().any(|e| matches!(e, Event::Crashed { .. })));
}

#[test]
fn a_clean_exit_is_stopped_and_reports_its_code() {
    let mut m: ProcessManager<()> = ProcessManager::new();
    started(&mut m, "p1", 42);
    let out = m.on_exit("p1", "web", 0, true, 10, true);
    assert_eq!(out.status, ProjectStatus::Stopped);
    assert!(out.events.iter().any(|e| matches!(e, Event::Exit { code: 0, .. })));
}

#[test]
fn scan_output_keeps_scrollback_reports_the_url_once_and_counts_errors() {
    let mut m: ProcessManager<()> = ProcessManager::new();
    started(&mut m, "p1", 42);
    let (events, found) = m.scan_output("p1", b"ready at http://localhost:5173/\nerror: boom\n", false);
    assert!(found);
    assert!(events.iter().any(|e| matches!(e, Event::UrlDetected { url, .. } if url == "http://localhost:5173")));
    assert!(events.iter().any(|e| matches!(e, Event::ErrorCount { count: 1, .. })));
    let (events, found) = m.scan_output("p1", b"http://localhost:9999 warn\n", true);
    assert!(found);
    assert!(!events.iter().any(|e| matches!(e, Event::UrlDetected { .. })));
    assert!(events.iter().any(|e| matches!(e, Event::ErrorCount { count: 2, .. })));
    assert_eq!(m.error_count("p1"), 2);
    assert_eq!(m.get_output("p1"), "ready at http://localhost:5173/\nerror: boom\nhttp://localhost:9999 warn\n");
    m.reset_error_count("p1");
    assert_eq!(m.error_count("p1"), 0);
}

#[test]
fn forget_drops_all_bookkeeping_of_a_project() {
    let mut m: ProcessManager<()> = ProcessManager::new();
    started(&mut m, "p1", 42);
    m.scan_output("p1", b"error\n", false);
    m.on_exit("p1", "web", 1, false, 10, false);
    m.forget("p1");
    assert_eq!(m.error_count("p1"), 0);
    assert!(m.snapshot_all().is_empty());
}

#[test]
fn snapshot_all_lists_status_and_pid() {
    let mut m: ProcessManager<()> = ProcessManager::new();
    started(&mut m, "p1", 42);
    let snap = m.snapshot_all();
    assert_eq!(snap.len(), 1);
    assert_eq!(snap[0].id, "p1");
    assert_eq!(snap[0].status, ProjectStatus::Running);
    assert_eq!(snap[0].pid, Some(42));
}

#[test]
fn the_ring_buffer_keeps_only_the_most_recent_bytes() {
    let mut ring = vec![1u8; RING_BUFFER_MAX - 2];
    append_to_ring(&mut ring, &[2, 3, 4, 5]);
    assert_eq!(ring.len(), RING_BUFFER_MAX);
    assert_eq!(&ring[RING_BUFFER_MAX - 4..], &[2, 3, 4, 5]);
    assert_eq!(ring[0], 1);
}

use easy_term::process_manager::{
    command_start_failed, missing_pid, pty_open_failed, pty_reader_failed, signal_failed, spawn_environment,
};

#[test]
fn a_spawn_sets_port_first_then_path_then_the_project_variables() {
    let path = "/usr/bin".to_string();
    let extra = vec![("PORT".to_string(), "9000".to_string())];
    let env = spawn_environment(Some(5173), Some(&path), &extra);
    assert_eq!(
        env,
        vec![
            ("PORT".to_string(), "5173".to_string()),
            ("PATH".to_string(), "/usr/bin".to_string()),
            ("PORT".to_string(), "9000".to_string()),
        ]
    );
    assert!(spawn_environment(None, None, &Vec::new()).is_empty());
}

#[test]
fn spawn_and_signal_errors_carry_their_codes() {
    let e = pty_open_failed("p1", "no ptys");
    assert_eq!(e.message, "Could not open the PTY: no ptys");
    assert_eq!(e.context.as_deref(), Some("{\"projectId\":\"p1\"}"));
    let e = command_start_failed("p1", "pnpm \"dev\"", "not found");
    assert_eq!(e.code, "PTY_SPAWN_FAILED");
    assert_eq!(e.message, "Could not start \"pnpm \"dev\"\": not found");
    assert_eq!(e.context.as_deref(), Some("{\"command\":\"pnpm \\\"dev\\\"\",\"projectId\":\"p1\"}"));
    assert_eq!(missing_pid().message, "The process didn't return a PID");
    assert!(missing_pid().context.is_none());
    assert_eq!(pty_reader_failed("closed").code, "PTY_READ_ERROR");
    let e = signal_failed("p1", 15, 4242, "Operation not permitted (os error 1)");
    assert_eq!(e.code, "PROC_KILL_FAILED");
    assert_eq!(e.message, "Could not send signal 15 to process 4242: Operation not permitted (os error 1)");
    assert_eq!(e.context.as_deref(), Some("{\"pid\":4242,\"projectId\":\"p1\"}"));
}

#[test]
fn error_context_is_escaped_as_json_writes_it() {
    let e = pty_open_failed("a\\b\n\u{1}", "x");
    assert_eq!(e.context.as_deref(), Some("{\"projectId\":\"a\\\\b\\n\\u0001\"}"));
}

#[test]
fn backoff_never_overflows_for_any_attempt() {
    assert_eq!(backoff_delay_ms(64), 30_000);
    assert_eq!(backoff_delay_ms(65), 30_000);
    assert_eq!(backoff_delay_ms(u32::MAX), 30_000);
}

#[test]
fn error_counts_add_up_over_joined_lines() {
    let a = "error: one\nfine";
    let b = "warning: two\nWARN three";
    let joined = format!("{a}\n{b}");
    assert_eq!(count_error_matches(&joined), count_error_matches(a) + count_error_matches(b));
    assert_eq!(count_error_matches(&joined), 3);
}

#[test]
fn the_scrollback_keeps_the_newest_bytes_over_many_chunks() {
    let mut ring = Vec::new();
    let mut all = Vec::new();
    for k in 0..5u8 {
        let chunk = vec![k; RING_BUFFER_MAX / 3];
        append_to_ring(&mut ring, &chunk);
        all.extend_from_slice(&chunk);
        let keep = all.len().min(RING_BUFFER_MAX);
        assert_eq!(ring, all[all.len() - keep..].to_vec());
    }
}
