use port_scout::commands::CommandOutput;
use port_scout::detection::list_lock_files;
use port_scout::discovery::list_project_marks;
use port_scout::folders::{normalize_discovery_folders, FolderChoice};
use port_scout::launch::launch_shell_path;
use port_scout::listeners::{lsof_fields, parse_tcp_listeners};
use port_scout::numbers::{read_signed_number, write_signed};
use port_scout::projects::{
    append_project, update_project, AddProjectInput, PathResolution, UpdateProjectInput,
};
use port_scout::snapshot::collect_listener_snapshot;
use port_scout::status::check_snapshot;
use port_scout::text::{chars_of, text_of, trim};
use std::collections::HashMap;

fn directory(path: &str) -> PathResolution {
    PathResolution::Resolved {
        path: path.to_string(),
        is_directory: true,
    }
}

#[test]
fn search_path_of_a_started_command_is_stable() {
    let once = launch_shell_path(Some("/a: :/usr/bin"), Some("/home/dev"));
    assert_eq!(launch_shell_path(Some(&once), Some("/home/dev")), once);
}

#[test]
fn entering_the_same_again_changes_nothing() {
    let mut projects = Vec::new();
    let input = AddProjectInput {
        name: " api ".to_string(),
        path: "/w/api".to_string(),
        port: 3000,
        start_command: "npm start ".to_string(),
    };
    append_project(&mut projects, &input, &directory("/w/api"), "id", "then").unwrap();
    let again = UpdateProjectInput {
        id: "id".to_string(),
        name: projects[0].name.clone(),
        path: projects[0].path.clone(),
        port: projects[0].port,
        start_command: projects[0].start_command.clone(),
    };
    let updated = update_project(&mut projects, &again, &directory("/w/api")).unwrap();
    assert_eq!(projects.len(), 1);
    assert_eq!(updated.name, "api");
    assert_eq!(updated.start_command, "npm start");
    assert_eq!(updated.created_at, "then");
}

#[test]
fn doubtful_scans_are_refused() {
    let scan = Ok(CommandOutput {
        success: true,
        code: Some(0),
        status: "exit status: 0".to_string(),
        stdout: b"p1\0cnode\0n*:3000\0".to_vec(),
        stderr: b"lsof: WARNING\n".to_vec(),
    });
    let snapshot = collect_listener_snapshot(&scan, None, Ok(HashMap::new())).unwrap();
    assert_eq!(
        check_snapshot(&snapshot).unwrap_err(),
        "Port scan may be incomplete: lsof: WARNING"
    );
}

#[test]
fn keeping_folders_again_changes_nothing() {
    let kept = vec!["/b".to_string(), "/a".to_string()];
    let choices: Vec<FolderChoice> = kept
        .iter()
        .map(|folder| FolderChoice {
            folder: folder.clone(),
            resolution: directory(folder),
        })
        .collect();
    assert_eq!(normalize_discovery_folders(&choices, &kept).unwrap(), kept);
}

#[test]
fn written_fields_are_read_back() {
    let fields = ["p12", "cCode Helper\n(Plugin)", "", "n/a b\n"];
    let report: String = fields.iter().map(|field| format!("{field}\0")).collect();
    let mut expected: Vec<&str> = fields.to_vec();
    expected.push("");
    assert_eq!(lsof_fields(&report), expected);
}

#[test]
fn endpoints_are_read_back() {
    for address in ["*", "127.0.0.1", "[::1]", ""] {
        for port in [1u16, 80, 65535] {
            let listeners = parse_tcp_listeners(&format!("p7\0n{address}:{port}\0"));
            assert_eq!(listeners.len(), 1);
            assert_eq!(listeners[0].port, port);
        }
    }
}

#[test]
fn signed_numbers_are_read_back() {
    for n in [0, 7, -7, 10, i32::MAX, i32::MIN] {
        let text = write_signed(n);
        assert_eq!(text, n.to_string());
        assert_eq!(read_signed_number(&chars_of(&text)), Some(n));
    }
    assert_eq!(read_signed_number(&chars_of("2147483648")), None);
    assert_eq!(read_signed_number(&chars_of("-")), None);
}

#[test]
fn trimming_twice_is_trimming_once() {
    for text in ["", " ", "\u{a0}a b\u{2003}\n", "x"] {
        let chars = chars_of(text);
        let once = trim(&chars);
        assert_eq!(text_of(once), text.trim());
        assert_eq!(trim(once), once);
    }
}

#[test]
fn names_that_are_only_looked_for() {
    assert_eq!(
        list_lock_files(),
        vec!["pnpm-lock.yaml", "yarn.lock", "bun.lockb", "bun.lock"]
    );
    assert_eq!(
        list_project_marks(),
        vec!["package.json", "Cargo.toml", "pyproject.toml", ".git"]
    );
}
