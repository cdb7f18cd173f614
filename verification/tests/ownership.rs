use port_scout::control::{
    finish_start, is_pid_alive, plan_kill, plan_start, port_to_inspect, send_signal, wait_step,
    KillAction, KillPhase, KillPlan, KillProgress, KillRun, SignalAttempt, StartPlan, WaitStep,
};
use port_scout::listeners::TcpListenerInfo;
use port_scout::ownership::{
    blocked_reason_for_run_state, classify_port_run_info, project_matches_cwd, projects_on_port,
    resolve_port_run_info, resolve_port_run_info_with_cwds, start_blocked_reason_for_run_state,
    KillBlockedReason, RunState, StartBlockedReason,
};
use port_scout::projects::{default_start_command, Project};
use port_scout::snapshot::ListenerSnapshot;
use port_scout::stamps::now_iso;
use port_scout::status::{
    active_project_count, check_snapshot, ports_of, refresh_project_statuses,
    refresh_project_statuses_at, tray_title_for_active_count, ProjectDetails, ProjectStatus,
    RuntimeState,
};
use port_scout::text_map::TextMap;
use std::collections::HashMap;

fn test_project(id: &str, path: &str, port: u16) -> Project {
    Project {
        id: id.to_string(),
        name: id.to_string(),
        path: path.to_string(),
        port,
        start_command: default_start_command(),
        created_at: now_iso(),
    }
}

fn test_status(project_id: &str, is_running: bool, run_state: RunState) -> ProjectStatus {
    ProjectStatus {
        project_id: project_id.to_string(),
        branch: "main".to_string(),
        is_running,
        pid: if is_running { Some(1234) } else { None },
        port_active: is_running,
        run_state,
        owner_project_id: if is_running {
            Some(project_id.to_string())
        } else {
            None
        },
        last_running_at: None,
        checked_at: now_iso(),
        error: None,
    }
}

fn details(project: Project, path_exists: bool) -> ProjectDetails {
    ProjectDetails {
        project,
        path_exists,
        branch: "main".to_string(),
    }
}

fn snapshot(
    listeners: &[(u16, i32)],
    cwds: &[(i32, &str)],
    warnings: &[&str],
) -> ListenerSnapshot {
    ListenerSnapshot {
        listeners: listeners
            .iter()
            .map(|(port, pid)| TcpListenerInfo {
                port: *port,
                pid: *pid,
                process_name: "node".to_string(),
            })
            .collect(),
        cwd_by_pid: cwds
            .iter()
            .map(|(pid, cwd)| (*pid, cwd.to_string()))
            .collect(),
        warnings: warnings.iter().map(|warning| warning.to_string()).collect(),
    }
}

#[test]
fn classifies_shared_port_owned_and_owned_by_other() {
    let projects = vec![
        test_project("project-a", "/tmp/workspace/project-a", 3000),
        test_project("project-b", "/tmp/workspace/project-b", 3000),
    ];

    let mut matched = TextMap::new();
    matched.insert("project-a", vec![7001]);
    let states = classify_port_run_info(&projects, true, &matched);

    let a = states.get("project-a").unwrap();
    let b = states.get("project-b").unwrap();
    assert_eq!(a.run_state, RunState::Owned);
    assert_eq!(a.owner_project_id.as_deref(), Some("project-a"));
    assert_eq!(a.owner_pid, Some(7001));
    assert_eq!(b.run_state, RunState::OwnedByOther);
    assert_eq!(b.owner_project_id.as_deref(), Some("project-a"));
}

#[test]
fn classifies_single_project_as_owned() {
    let projects = vec![test_project("project-a", "/tmp/workspace/project-a", 3000)];

    let mut matched = TextMap::new();
    matched.insert("project-a", vec![7001]);
    let states = classify_port_run_info(&projects, true, &matched);

    let a = states.get("project-a").unwrap();
    assert_eq!(a.run_state, RunState::Owned);
    assert_eq!(a.owner_pid, Some(7001));
}

#[test]
fn classifies_shared_port_as_ambiguous_without_unique_owner() {
    let projects = vec![
        test_project("project-a", "/tmp/workspace/project-a", 3000),
        test_project("project-b", "/tmp/workspace/project-b", 3000),
    ];

    let states = classify_port_run_info(&projects, true, &TextMap::new());
    let a = states.get("project-a").unwrap();
    let b = states.get("project-b").unwrap();
    assert_eq!(a.run_state, RunState::Ambiguous);
    assert_eq!(b.run_state, RunState::Ambiguous);
    assert!(a.port_active);
    assert!(b.port_active);
}

#[test]
fn classifies_port_as_stopped_when_no_listener() {
    let projects = vec![
        test_project("project-a", "/tmp/workspace/project-a", 3000),
        test_project("project-b", "/tmp/workspace/project-b", 3000),
    ];

    let states = classify_port_run_info(&projects, false, &TextMap::new());
    let a = states.get("project-a").unwrap();
    let b = states.get("project-b").unwrap();
    assert_eq!(a.run_state, RunState::Stopped);
    assert_eq!(b.run_state, RunState::Stopped);
    assert!(!a.port_active);
    assert!(!b.port_active);
}

#[test]
fn smallest_process_of_the_owner_is_named() {
    let projects = vec![test_project("a", "/w/a", 3000)];
    let mut matched = TextMap::new();
    matched.insert("a", vec![9, 4, 7]);
    let states = classify_port_run_info(&projects, true, &matched);
    assert_eq!(states.get("a").unwrap().owner_pid, Some(4));

    let mut foreign = TextMap::new();
    foreign.insert("z", vec![9]);
    let states = classify_port_run_info(&projects, true, &foreign);
    let a = states.get("a").unwrap();
    assert_eq!(a.run_state, RunState::OwnedByOther);
    assert_eq!(a.owner_project_id.as_deref(), Some("z"));
    assert_eq!(a.owner_pid, None);
}

#[test]
fn directories_decide_who_owns_a_port() {
    let projects = vec![
        test_project("a", "/w/a", 3000),
        test_project("b", "/w/a-b", 3000),
    ];
    let cwds = HashMap::from([(5, "/w/a/server".to_string()), (6, "/w/a".to_string())]);
    let states = resolve_port_run_info_with_cwds(&projects, &[5, 6, 8], &cwds);
    assert_eq!(states.get("a").unwrap().run_state, RunState::Owned);
    assert_eq!(states.get("a").unwrap().owner_pid, Some(5));
    assert_eq!(states.get("b").unwrap().run_state, RunState::OwnedByOther);
    assert_eq!(states.len(), 2);

    let both = HashMap::from([(5, "/w/a".to_string()), (6, "/w/a-b".to_string())]);
    let states = resolve_port_run_info_with_cwds(&projects, &[5, 6], &both);
    assert_eq!(states.get("a").unwrap().run_state, RunState::Ambiguous);
    assert_eq!(states.get("a").unwrap().owner_pid, None);

    let states = resolve_port_run_info_with_cwds(&projects, &[], &both);
    assert_eq!(states.get("a").unwrap().run_state, RunState::Stopped);
    let failed = resolve_port_run_info(&projects, &[5], &Err("no luck".to_string()));
    assert_eq!(failed.err().unwrap(), "no luck");
    assert!(resolve_port_run_info(&projects, &[5], &Ok(both)).is_ok());
}

#[test]
fn working_directories_match_by_component() {
    assert!(project_matches_cwd("/w/a", "/w/a"));
    assert!(project_matches_cwd("/w/a/", "/w/a/b/c"));
    assert!(!project_matches_cwd("/w/a", "/w/ab"));
    assert!(!project_matches_cwd("/w/a", "/w"));
}

#[test]
fn maps_blocked_reason_from_run_state() {
    assert_eq!(blocked_reason_for_run_state(RunState::Owned), None);
    assert_eq!(
        blocked_reason_for_run_state(RunState::Stopped),
        Some(KillBlockedReason::NotRunning)
    );
    assert_eq!(
        blocked_reason_for_run_state(RunState::OwnedByOther),
        Some(KillBlockedReason::OwnedByOther)
    );
    assert_eq!(
        blocked_reason_for_run_state(RunState::Ambiguous),
        Some(KillBlockedReason::Ambiguous)
    );
}

#[test]
fn maps_start_blocked_reason_from_run_state() {
    assert_eq!(
        start_blocked_reason_for_run_state(RunState::Owned),
        Some(StartBlockedReason::AlreadyRunning)
    );
    assert_eq!(start_blocked_reason_for_run_state(RunState::Stopped), None);
    assert_eq!(
        start_blocked_reason_for_run_state(RunState::OwnedByOther),
        Some(StartBlockedReason::OwnedByOther)
    );
    assert_eq!(
        start_blocked_reason_for_run_state(RunState::Ambiguous),
        Some(StartBlockedReason::Ambiguous)
    );
}

#[test]
fn counts_only_running_projects_as_active() {
    let statuses = vec![
        test_status("project-a", true, RunState::Owned),
        test_status("project-b", false, RunState::OwnedByOther),
        test_status("project-c", false, RunState::Ambiguous),
        test_status("project-d", false, RunState::Stopped),
    ];

    assert_eq!(active_project_count(&statuses), 1);
}

#[test]
fn tray_title_is_hidden_when_no_active_projects() {
    assert_eq!(tray_title_for_active_count(0), "");
}

#[test]
fn tray_title_is_number_when_active_projects_exist() {
    assert_eq!(tray_title_for_active_count(1), "1");
    assert_eq!(tray_title_for_active_count(12), "12");
}

#[test]
fn statuses_follow_the_snapshot() {
    let kept = vec![
        details(test_project("a", "/w/a", 3000), true),
        details(test_project("b", "/w/b", 3000), false),
        details(test_project("c", "/w/c", 4000), true),
    ];
    let seen = snapshot(&[(3000, 7), (9000, 8)], &[(7, "/w/a/src"), (8, "/w/c")], &[]);
    let mut runtime = RuntimeState::new();
    runtime.note("a", "earlier");
    runtime.note("b", "earlier");
    let (statuses, changed) =
        refresh_project_statuses_at(&kept, &seen, &mut runtime, "now").unwrap();
    assert!(changed);
    assert_eq!(statuses.len(), 3);
    assert!(statuses[0].is_running);
    assert_eq!(statuses[0].pid, Some(7));
    assert_eq!(statuses[0].last_running_at.as_deref(), Some("now"));
    assert_eq!(statuses[0].error, None);
    assert_eq!(statuses[0].checked_at, "now");
    assert_eq!(statuses[0].branch, "main");
    assert_eq!(statuses[1].run_state, RunState::OwnedByOther);
    assert_eq!(statuses[1].owner_project_id.as_deref(), Some("a"));
    assert_eq!(statuses[1].pid, None);
    assert_eq!(statuses[1].branch, "not-a-git-repo");
    assert_eq!(statuses[1].last_running_at.as_deref(), Some("earlier"));
    assert_eq!(
        statuses[1].error.as_deref(),
        Some("Path is missing or no longer a directory")
    );
    assert_eq!(statuses[2].run_state, RunState::Stopped);
    assert!(!statuses[2].port_active);
    assert_eq!(statuses[2].last_running_at, None);
    assert_eq!(runtime.last_running("a").as_deref(), Some("now"));
    assert_eq!(runtime.last_running("b").as_deref(), Some("earlier"));
    runtime.forget("a");
    assert_eq!(runtime.last_running("a"), None);
}

#[test]
fn statuses_without_servers_leave_the_times_alone() {
    let kept = vec![details(test_project("a", "/w/a", 3000), true)];
    let mut runtime = RuntimeState::new();
    let (statuses, changed) =
        refresh_project_statuses(&kept, &snapshot(&[], &[], &["other"]), &mut runtime).unwrap();
    assert!(!changed);
    assert_eq!(statuses[0].run_state, RunState::Stopped);
    assert!(statuses[0].checked_at.ends_with("+00:00"));
    assert_eq!(runtime.last_running("a"), None);
}

#[test]
fn incomplete_scans_are_refused() {
    let warning = "Port scan may be incomplete: denied";
    let seen = snapshot(&[], &[], &["other", warning]);
    assert_eq!(check_snapshot(&seen).unwrap_err(), warning);
    let kept = vec![details(test_project("a", "/w/a", 3000), true)];
    let mut runtime = RuntimeState::new();
    assert_eq!(
        refresh_project_statuses(&kept, &seen, &mut runtime).unwrap_err(),
        warning
    );
    assert!(check_snapshot(&snapshot(&[], &[], &["other"])).is_ok());
}

#[test]
fn ports_and_projects_on_them() {
    let projects = vec![
        test_project("a", "/a", 1),
        test_project("b", "/b", 2),
        test_project("c", "/c", 1),
    ];
    let ports = ports_of(&projects);
    assert_eq!(ports.len(), 2);
    assert!(ports.contains(&2));
    let sharing = projects_on_port(&projects, 1);
    let ids: Vec<&str> = sharing.iter().map(|project| project.id.as_str()).collect();
    assert_eq!(ids, vec!["a", "c"]);
    assert_eq!(port_to_inspect(&projects, "c").unwrap(), 1);
    assert_eq!(port_to_inspect(&projects, "d").unwrap_err(), "Project not found");
}

#[test]
fn stopping_is_planned_only_for_the_owner() {
    let projects = vec![
        test_project("a", "/w/a", 3000),
        test_project("b", "/w/b", 3000),
        test_project("c", "/w/c", 4000),
    ];
    let pids = Ok(vec![7]);
    let cwds = Ok(HashMap::from([(7, "/w/a".to_string())]));
    match plan_kill(&projects, "a", &pids, &cwds).unwrap() {
        KillPlan::Stop(run) => {
            assert_eq!(run.pid, 7);
            assert_eq!(run.project_id, "a");
            assert_eq!(run.phase, KillPhase::Asking);
        }
        KillPlan::Blocked(_) => panic!("the owner can be stopped"),
    }
    match plan_kill(&projects, "b", &pids, &cwds).unwrap() {
        KillPlan::Blocked(result) => {
            assert_eq!(result.project_id, "b");
            assert_eq!(result.attempted_pid, None);
            assert!(!result.terminated);
            assert_eq!(result.signal_used, "none");
            assert_eq!(result.blocked_reason, Some(KillBlockedReason::OwnedByOther));
        }
        KillPlan::Stop(_) => panic!("nothing of another project is stopped"),
    }
    assert_eq!(
        plan_kill(&projects, "x", &pids, &cwds).unwrap_err(),
        "Project not found"
    );
    assert_eq!(
        plan_kill(&projects, "a", &Err("scan".to_string()), &cwds).unwrap_err(),
        "scan"
    );
    assert_eq!(
        plan_kill(&projects, "a", &pids, &Err("dirs".to_string())).unwrap_err(),
        "dirs"
    );
}

#[test]
fn a_stubborn_process_is_forced_after_it_was_asked() {
    let mut run = KillRun {
        project_id: "a".to_string(),
        pid: 7,
        phase: KillPhase::Asking,
    };
    let mut seen = Vec::new();
    let result = loop {
        let outcome = match run.action() {
            KillAction::Signal { pid, signal } => {
                seen.push(format!("{signal} {pid}"));
                Ok(true)
            }
            KillAction::AwaitExit { pid, milliseconds } => {
                seen.push(format!("await {pid} {milliseconds}"));
                Ok(milliseconds == 1000)
            }
        };
        match run.advance(&outcome) {
            KillProgress::Running(next) => run = next,
            KillProgress::Finished(result) => break result,
            KillProgress::Failed(message) => panic!("{message}"),
        }
    };
    assert_eq!(
        seen,
        vec!["-TERM 7", "await 7 2000", "-KILL 7", "await 7 1000"]
    );
    assert_eq!(result.attempted_pid, Some(7));
    assert!(result.terminated);
    assert_eq!(result.signal_used, "SIGKILL");
    assert_eq!(result.blocked_reason, None);
}

#[test]
fn a_willing_process_is_only_asked() {
    let run = KillRun {
        project_id: "a".to_string(),
        pid: 7,
        phase: KillPhase::Asked,
    };
    match run.advance(&Ok(true)) {
        KillProgress::Finished(result) => {
            assert!(result.terminated);
            assert_eq!(result.signal_used, "SIGTERM");
        }
        _ => panic!("the run is over"),
    }
    match run.advance(&Err("broken".to_string())) {
        KillProgress::Failed(message) => assert_eq!(message, "broken"),
        _ => panic!("the run was broken off"),
    }
}

#[test]
fn signals_that_fail() {
    assert!(send_signal(7, "-TERM", &SignalAttempt::Accepted).is_ok());
    assert_eq!(
        send_signal(7, "-TERM", &SignalAttempt::NotRun("gone".to_string())).unwrap_err(),
        "Failed to send signal -TERM to PID 7: gone"
    );
    assert!(send_signal(7, "-TERM", &SignalAttempt::Rejected { alive: Ok(false) }).is_ok());
    assert_eq!(
        send_signal(7, "-KILL", &SignalAttempt::Rejected { alive: Ok(true) }).unwrap_err(),
        "Signal -KILL to PID 7 failed"
    );
    let unknown = is_pid_alive(&Err("gone".to_string()));
    assert_eq!(unknown, Err("Failed to check PID status: gone".to_string()));
    assert_eq!(
        send_signal(7, "-KILL", &SignalAttempt::Rejected { alive: unknown }).unwrap_err(),
        "Failed to check PID status: gone"
    );
    assert_eq!(is_pid_alive(&Ok(true)), Ok(true));
}

#[test]
fn waiting_ends_with_the_event_or_the_time() {
    assert!(matches!(wait_step(0, 2000, &Ok(true)), WaitStep::Over(true)));
    assert!(matches!(
        wait_step(1999, 2000, &Ok(false)),
        WaitStep::LookAgain { milliseconds: 100 }
    ));
    assert!(matches!(wait_step(2000, 2000, &Ok(false)), WaitStep::Over(false)));
    assert!(matches!(wait_step(2000, 2000, &Ok(true)), WaitStep::Over(true)));
    assert!(matches!(
        wait_step(0, 2000, &Err("gone".to_string())),
        WaitStep::Failed(_)
    ));
}

#[test]
fn starting_needs_a_free_port() {
    let mut projects = vec![test_project("a", "/w/a", 3000)];
    projects[0].start_command = " npm start ".to_string();
    let free = Ok(Vec::new());
    let cwds = Ok(HashMap::new());
    match plan_start(&projects, "a", &free, &cwds, true).unwrap() {
        StartPlan::Run(launch) => {
            assert_eq!(launch.command, "npm start");
            assert_eq!(launch.attempted_command, " npm start ");
            assert_eq!(launch.directory, "/w/a");
            assert_eq!(launch.port, "3000");
            let started = finish_start(&launch, &Ok(77)).unwrap();
            assert!(started.launched);
            assert_eq!(started.spawned_pid, Some(77));
            assert_eq!(started.project_id, "a");
            assert_eq!(finish_start(&launch, &Ok(u32::MAX)).unwrap().spawned_pid, None);
            assert_eq!(
                finish_start(&launch, &Err("no shell".to_string())).unwrap_err(),
                "Failed to start project server: no shell"
            );
        }
        StartPlan::Blocked(_) => panic!("nothing listens on the port"),
    }
    match plan_start(&projects, "a", &Ok(vec![9]), &cwds, true).unwrap() {
        StartPlan::Blocked(result) => {
            assert!(!result.launched);
            assert_eq!(result.spawned_pid, None);
            assert_eq!(result.blocked_reason, Some(StartBlockedReason::Ambiguous));
        }
        StartPlan::Run(_) => panic!("something listens on the port"),
    }
    assert_eq!(
        plan_start(&projects, "a", &free, &cwds, false).unwrap_err(),
        "Project path is missing or no longer a directory"
    );
    projects[0].start_command = "  ".to_string();
    assert_eq!(
        plan_start(&projects, "a", &free, &cwds, true).unwrap_err(),
        "Start command cannot be empty"
    );
    assert_eq!(
        plan_start(&projects, "b", &free, &cwds, true).unwrap_err(),
        "Project not found"
    );
}
