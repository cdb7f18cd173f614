use port_scout::commands::{output_text, CommandOutput};
use port_scout::listeners::{
    lsof_fields, parse_pid_cwds, parse_pids, parse_tcp_listeners, TcpListenerInfo,
};
use port_scout::snapshot::{
    collect_listener_snapshot, cwd_scan_arguments, detect_listening_pid, detect_listening_pids,
    detect_pid_cwds, keep_resolved_cwds, listener_scan_arguments, pids_to_inspect,
    port_scan_arguments,
};
use std::collections::{HashMap, HashSet};

fn output(success: bool, code: Option<i32>, stdout: &str, stderr: &str) -> CommandOutput {
    CommandOutput {
        success,
        code,
        status: "exit status".to_string(),
        stdout: stdout.as_bytes().to_vec(),
        stderr: stderr.as_bytes().to_vec(),
    }
}

#[test]
fn parses_listening_pids() {
    assert_eq!(parse_pids("456\n123\n456\n"), vec![123, 456]);
    assert_eq!(parse_pids("\n"), Vec::<i32>::new());
    assert_eq!(parse_pids("abc\n999\n"), vec![999]);
}

#[test]
fn pids_may_have_signs_and_carriage_returns() {
    assert_eq!(parse_pids(" +7 \r\n-3\n99999999999\n"), vec![-3, 7]);
}

#[test]
fn parses_listeners_and_deduplicates_ipv4_and_ipv6() {
    let listeners = parse_tcp_listeners(&format!(
        "{}{}{}",
        "p123\0cnode\0\nf9\0n127.0.0.1:5173\0\nf10\0n[::1]:5173\0\n",
        "p456\0cCode Helper (Plugin)\0\nf8\0n*:3000\0\nf9\0n*:3001\0\n",
        "p789\0cpython3\0\nf7\0n*:5173\0\n"
    ));
    assert_eq!(listeners.len(), 4);
    assert_eq!(
        listeners[0],
        TcpListenerInfo {
            port: 3000,
            pid: 456,
            process_name: "Code Helper (Plugin)".to_string(),
        }
    );
    assert_eq!(listeners[2].pid, 123);
    assert_eq!(listeners[3].pid, 789);
}

#[test]
fn ignores_malformed_listener_fields_and_connections() {
    let listeners = parse_tcp_listeners(&format!(
        "{}{}{}{}",
        "n*:80\0pnot-a-pid\0cnode\0n*:3000\0",
        "p123\0cnode\0n*:0\0n*:65536\0n*:http\0",
        "n127.0.0.1:5000->127.0.0.1:3000\0n*:5001\0",
        "p-5\0n*:3001\0p456\0n*:3002\0"
    ));
    assert_eq!(listeners.len(), 2);
    assert_eq!(listeners[0].port, 3002);
    assert_eq!(listeners[0].process_name, "PID 456");
    assert_eq!(listeners[1].port, 5001);
}

#[test]
fn parses_process_directories_with_spaces_and_newlines() {
    let cwds = parse_pid_cwds("p123\0\nfcwd\0n/Users/a/My project\0\np456\0\nfcwd\0n/tmp/with\nnewline\0\np789\0nrelative\0");
    assert_eq!(cwds[&123], "/Users/a/My project");
    assert_eq!(cwds[&456], "/tmp/with\nnewline");
    assert!(!cwds.contains_key(&789));
}

#[test]
fn fields_end_with_zero_characters() {
    assert_eq!(lsof_fields("p1\0\nf9\0n/a\nb\0\n"), vec!["p1", "f9", "n/a\nb", ""]);
}

#[test]
fn later_directories_of_a_process_win() {
    let cwds = parse_pid_cwds("p1\0n/a\0n/b\0px\0n/c\0");
    assert_eq!(cwds.len(), 1);
    assert_eq!(cwds[&1], "/b");
}

#[test]
fn endpoints_belong_to_the_process_before_them() {
    let listeners =
        parse_tcp_listeners("n*:1\0p5\0n*:2\0cfirst\0n*:3\0n*:2\0px\0n*:4\0p5\0csecond\0n*:3\0n*:6\0");
    let found: Vec<(u16, i32, &str)> = listeners
        .iter()
        .map(|listener| (listener.port, listener.pid, listener.process_name.as_str()))
        .collect();
    assert_eq!(found, vec![(2, 5, "PID 5"), (3, 5, "first"), (6, 5, "second")]);
}

#[test]
fn output_is_read_as_text() {
    assert_eq!(output_text(&"h\u{e9}llo".as_bytes().to_vec()), "h\u{e9}llo");
    assert_eq!(output_text(&vec![b'a', 0xff, b'b']), "a\u{fffd}b");
}

#[test]
fn reasons_fall_back_to_the_status() {
    let quiet = output(false, Some(2), "", " \n");
    assert_eq!(quiet.read_complaint(), "");
    assert_eq!(quiet.read_reason(), "exit status");
    let loud = output(false, Some(2), "", " no permission\n");
    assert_eq!(loud.read_reason(), "no permission");
}

#[test]
fn scan_that_does_not_start_is_an_error() {
    let result = collect_listener_snapshot(&Err("not found".to_string()), None, Ok(HashMap::new()));
    assert_eq!(
        result.err().unwrap(),
        "Failed to discover listening ports: not found"
    );
}

#[test]
fn failed_scan_does_not_look_like_free_ports() {
    let failed = Ok(output(false, Some(2), "", ""));
    assert_eq!(
        collect_listener_snapshot(&failed, None, Ok(HashMap::new())).err().unwrap(),
        "Failed to discover listening ports: exit status"
    );
    let denied = Ok(output(false, Some(1), "", "denied"));
    assert_eq!(
        collect_listener_snapshot(&denied, None, Ok(HashMap::new())).err().unwrap(),
        "Failed to discover listening ports: denied"
    );
}

#[test]
fn empty_scan_has_no_listeners() {
    let empty = Ok(output(false, Some(1), "", ""));
    let snapshot = collect_listener_snapshot(&empty, None, Ok(HashMap::new())).unwrap();
    assert!(snapshot.listeners.is_empty());
    assert!(snapshot.cwd_by_pid.is_empty());
    assert!(snapshot.warnings.is_empty());
}

#[test]
fn doubtful_scan_is_marked() {
    let partial = Ok(output(false, Some(1), "p1\0cnode\0n*:3000\0", ""));
    let cwds = Ok(HashMap::from([(1, "/work".to_string())]));
    let snapshot = collect_listener_snapshot(&partial, None, cwds).unwrap();
    assert_eq!(snapshot.listeners.len(), 1);
    assert_eq!(
        snapshot.warnings,
        vec!["Port scan may be incomplete: exit status"]
    );
    assert_eq!(snapshot.cwd_by_pid[&1], "/work");
}

#[test]
fn missing_directories_are_counted() {
    let scan = Ok(output(
        true,
        Some(0),
        "p1\0cnode\0n*:3000\0p2\0cnode\0n*:3001\0p3\0cnode\0n*:3002\0",
        "",
    ));
    let ports = HashSet::from([3000, 3001]);
    let cwds = Ok(HashMap::from([(2, "/work".to_string())]));
    let snapshot = collect_listener_snapshot(&scan, Some(&ports), cwds).unwrap();
    assert_eq!(snapshot.listeners.len(), 3);
    assert_eq!(
        snapshot.warnings,
        vec!["Could not identify the working directory of 1 listening process(es). They may have exited or require additional permissions."]
    );
    let failed = collect_listener_snapshot(&scan, None, Err("no luck".to_string())).unwrap();
    assert_eq!(failed.warnings.len(), 2);
    assert_eq!(failed.warnings[0], "no luck");
    assert!(failed.warnings[1].contains(" of 3 listening"));
    assert!(failed.cwd_by_pid.is_empty());
}

#[test]
fn only_processes_on_ports_of_interest_are_inspected() {
    let listeners = parse_tcp_listeners("p9\0n*:3000\0n*:3001\0p4\0n*:3001\0p5\0n*:4000\0");
    assert_eq!(pids_to_inspect(&listeners, None), vec![4, 5, 9]);
    let ports = HashSet::from([3001]);
    assert_eq!(pids_to_inspect(&listeners, Some(&ports)), vec![4, 9]);
    assert_eq!(pids_to_inspect(&listeners, Some(&HashSet::new())), Vec::<i32>::new());
}

#[test]
fn directory_scans() {
    assert!(detect_pid_cwds(&[], &Err("unused".to_string())).unwrap().is_empty());
    assert_eq!(
        detect_pid_cwds(&[1], &Err("gone".to_string())).unwrap_err(),
        "Failed to inspect process directories: gone"
    );
    assert_eq!(
        detect_pid_cwds(&[1], &Ok(output(false, Some(2), "", ""))).unwrap_err(),
        "Failed to inspect process directories: exit status"
    );
    assert_eq!(
        detect_pid_cwds(&[1], &Ok(output(false, Some(1), "", "denied"))).unwrap_err(),
        "Failed to inspect process directories: denied"
    );
    assert!(detect_pid_cwds(&[1], &Ok(output(false, Some(1), "", ""))).unwrap().is_empty());
    let found = detect_pid_cwds(&[1], &Ok(output(false, Some(1), "p1\0n/w\0", "x"))).unwrap();
    assert_eq!(found[&1], "/w");
}

#[test]
fn unresolved_directories_are_dropped() {
    let kept = keep_resolved_cwds(&[(1, Some("/a".to_string())), (2, None)]);
    assert_eq!(kept.len(), 1);
    assert_eq!(kept[&1], "/a");
}

#[test]
fn listening_pids_of_a_port() {
    assert_eq!(
        detect_listening_pids(&Err("gone".to_string())).unwrap_err(),
        "Failed to check port status: gone"
    );
    assert_eq!(
        detect_listening_pids(&Ok(output(false, Some(1), "", "ignored"))).unwrap(),
        Vec::<i32>::new()
    );
    let scan = Ok(output(true, Some(0), "20\n3\n", ""));
    assert_eq!(detect_listening_pids(&scan).unwrap(), vec![3, 20]);
    assert_eq!(detect_listening_pid(&scan).unwrap(), Some(3));
    assert_eq!(
        detect_listening_pid(&Ok(output(true, Some(0), "none\n", ""))).unwrap(),
        None
    );
    assert!(detect_listening_pid(&Err("gone".to_string())).is_err());
}

#[test]
fn arguments_of_the_scans() {
    assert_eq!(
        listener_scan_arguments(),
        vec!["-nP", "-iTCP", "-sTCP:LISTEN", "-F0pcn"]
    );
    assert_eq!(
        port_scan_arguments(3000),
        vec!["-nP", "-iTCP:3000", "-sTCP:LISTEN", "-t"]
    );
    assert_eq!(cwd_scan_arguments(&[]), None);
    assert_eq!(
        cwd_scan_arguments(&[5, 71]).unwrap(),
        vec!["-a", "-p", "5,71", "-d", "cwd", "-F0pn"]
    );
}
