use easy_term::port_checker::{kill_failed, lsof_failed, pids_from_lsof_output, port_check_result, process_name_from_ps};

#[test]
fn lsof_output_gives_every_pid_line() {
    assert_eq!(pids_from_lsof_output(b"123\n 456 \nnot a pid\n\n789"), vec![123, 456, 789]);
    assert!(pids_from_lsof_output(b"").is_empty());
    assert_eq!(pids_from_lsof_output(b"+12\r\n-3\n99999999999\n"), vec![12, -3]);
}

#[test]
fn ps_output_gives_the_name_after_the_last_slash() {
    assert_eq!(process_name_from_ps(true, b"/usr/local/bin/node\n"), Some("node".to_string()));
    assert_eq!(process_name_from_ps(true, b"  vite  "), Some("vite".to_string()));
    assert_eq!(process_name_from_ps(true, b"   \n"), None);
    assert_eq!(process_name_from_ps(false, b"node"), None);
    assert_eq!(process_name_from_ps(true, b"/trailing/"), Some(String::new()));
}

#[test]
fn a_port_with_no_listener_is_free() {
    let r = port_check_result(&Vec::new(), Some("ignored".to_string()));
    assert!(r.free);
    assert!(r.owner.is_none());
}

#[test]
fn a_busy_port_is_owned_by_its_first_listener() {
    let r = port_check_result(&vec![41, 42], Some("node".to_string()));
    assert!(!r.free);
    let owner = r.owner.unwrap();
    assert_eq!(owner.pid, 41);
    assert_eq!(owner.name, "node");

    let r = port_check_result(&vec![7], None);
    assert_eq!(r.owner.unwrap().name, "proceso desconocido");
}

#[test]
fn port_errors_carry_their_codes_and_details() {
    let e = lsof_failed("No such file or directory (os error 2)");
    assert_eq!(e.code, "PORT_CHECK_FAILED");
    assert_eq!(e.message, "Could not run lsof: No such file or directory (os error 2)");
    let e = kill_failed(4242, 5173, "Operation not permitted (os error 1)");
    assert_eq!(e.code, "PORT_KILL_OWNER_FAILED");
    assert_eq!(e.message, "Could not kill process 4242 on port 5173: Operation not permitted (os error 1)");
    assert_eq!(kill_failed(-1, 0, "x").message, "Could not kill process -1 on port 0: x");
}
