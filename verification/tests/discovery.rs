use port_scout::branch::{
    branch_arguments, commit_arguments, detect_branch, needs_commit, no_branch,
};
use port_scout::commands::CommandOutput;
use port_scout::detection::{FileContents, FileEntry};
use port_scout::discovery::{
    build_listener_discovery, detect_listener_project, directories_to_inspect,
    discover_in_folders, is_project_directory_candidate, matching_saved_listener_project,
    needs_listener_scan, package_display_name, DirectoryListing, SavedProject,
};
use port_scout::folders::{
    normalize_discovery_folders, path_in_discovery_folders, DiscoverySettings, FolderChoice,
};
use port_scout::launch::launch_shell_path;
use port_scout::listeners::TcpListenerInfo;
use port_scout::manifest::PackageManifest;
use port_scout::paths::{
    find_file_name, find_parent, is_same_path, is_within, join, list_ancestors,
};
use port_scout::projects::{default_start_command, PathResolution, Project};
use port_scout::snapshot::ListenerSnapshot;
use port_scout::stamps::now_iso;
use port_scout::window::{hides_on_focus_change, menu_action, shows_at_start, MenuAction};
use std::collections::HashMap;
use std::path::Path;
use tempfile::TempDir;

fn saved(id: &str, path: &str, port: u16, canonical: Option<&str>) -> SavedProject {
    SavedProject {
        project: Project {
            id: id.to_string(),
            name: id.to_string(),
            path: path.to_string(),
            port,
            start_command: default_start_command(),
            created_at: now_iso(),
        },
        canonical_path: canonical.map(str::to_string),
    }
}

fn file(name: &str, contents: &str) -> FileEntry {
    FileEntry {
        name: name.to_string(),
        is_file: true,
        contents: FileContents::Text(contents.to_string()),
    }
}

fn folder(name: &str) -> FileEntry {
    FileEntry {
        name: name.to_string(),
        is_file: false,
        contents: FileContents::Unreadable("Is a directory".to_string()),
    }
}

fn listing(path: &str, files: Vec<FileEntry>) -> DirectoryListing {
    DirectoryListing {
        path: path.to_string(),
        files,
    }
}

fn listener(port: u16, pid: i32) -> TcpListenerInfo {
    TcpListenerInfo {
        port,
        pid,
        process_name: "node".to_string(),
    }
}

fn snapshot(listeners: Vec<TcpListenerInfo>, cwds: &[(i32, &str)]) -> ListenerSnapshot {
    ListenerSnapshot {
        listeners,
        cwd_by_pid: cwds
            .iter()
            .map(|(pid, cwd)| (*pid, cwd.to_string()))
            .collect(),
        warnings: vec![],
    }
}

fn choice(folder: &str, resolution: PathResolution) -> FolderChoice {
    FolderChoice {
        folder: folder.to_string(),
        resolution,
    }
}

fn directory(path: &str) -> PathResolution {
    PathResolution::Resolved {
        path: path.to_string(),
        is_directory: true,
    }
}

fn gone() -> PathResolution {
    PathResolution::Failed("No such file or directory".to_string())
}

fn resolve(path: &str) -> PathResolution {
    match Path::new(path).canonicalize() {
        Err(error) => PathResolution::Failed(error.to_string()),
        Ok(resolved) => PathResolution::Resolved {
            path: resolved.to_string_lossy().to_string(),
            is_directory: resolved.is_dir(),
        },
    }
}

fn output(success: bool, stdout: &str) -> Result<CommandOutput, String> {
    Ok(CommandOutput {
        success,
        code: Some(if success { 0 } else { 128 }),
        status: "exit status".to_string(),
        stdout: stdout.as_bytes().to_vec(),
        stderr: Vec::new(),
    })
}

#[test]
fn detects_nearest_project_ancestor_and_package_metadata() {
    let inner = "/work/workspace/packages/api";
    let directories = vec![
        listing("/work/workspace", vec![folder(".git")]),
        listing(
            inner,
            vec![
                file(
                    "package.json",
                    r#"{"name":"@example/api","scripts":{"dev":"vite"}}"#,
                ),
                file("pnpm-lock.yaml", ""),
            ],
        ),
    ];
    let metadata =
        detect_listener_project("/work/workspace/packages/api/src/server", None, &directories)
            .expect("detect inner project");
    assert_eq!(metadata.path, inner);
    assert_eq!(metadata.name, "@example/api");
    assert_eq!(
        metadata.suggested_start_command.as_deref(),
        Some("pnpm run dev")
    );
}

#[test]
fn detects_rust_python_git_and_invalid_package_names_by_directory() {
    for (name, marker, contents) in [
        ("rust-service", "Cargo.toml", "[package]"),
        ("python-service", "pyproject.toml", "[project]"),
        ("worktree", ".git", "gitdir: elsewhere"),
        ("invalid-json", "package.json", "{"),
        ("blank-name", "package.json", r#"{"name":" "}"#),
        ("invalid-name", "package.json", r#"{"name":42}"#),
    ] {
        let path = format!("/work/{name}");
        let directories = vec![listing(&path, vec![file(marker, contents)])];
        let metadata = detect_listener_project(&path, None, &directories).unwrap();
        assert_eq!(metadata.name, name);
        assert_eq!(metadata.path, path);
    }
}

#[test]
fn does_not_infer_home_or_system_apps_as_projects() {
    let home = "/work/home";
    let directories = vec![listing(home, vec![file("package.json", "{}")])];
    assert!(detect_listener_project(
        "/work/home/Downloads/plain-server",
        Some(home),
        &directories
    )
    .is_none());
    for path in [
        "/",
        "/Users",
        "/System/Applications/App.app/Contents",
        "/Applications/Code.app/Contents",
        "/usr/local/lib/node_modules/pkg",
    ] {
        assert!(!is_project_directory_candidate(path, Some(home)));
    }
    assert!(!is_project_directory_candidate(
        "/work/home/Library/Containers/app",
        Some(home)
    ));
}

#[test]
fn excludes_editor_extensions_but_discovers_codex_worktrees() {
    let home = "/work/home";
    for editor in [".vscode", ".vscode-insiders", ".cursor"] {
        let extension = format!("{home}/{editor}/extensions/ms-python.vscode-pylance-2026.3.1");
        let directories = vec![listing(
            &extension,
            vec![file("package.json", r#"{"name":"vscode-pylance"}"#)],
        )];
        assert!(!is_project_directory_candidate(&extension, Some(home)));
        assert!(
            detect_listener_project(&format!("{extension}/dist"), Some(home), &directories)
                .is_none()
        );
    }

    let project = "/work/home/.codex/worktrees/abcd/my-project";
    let directories = vec![listing(
        project,
        vec![file("package.json", r#"{"name":"my-project"}"#)],
    )];
    let metadata = detect_listener_project(&format!("{project}/src"), Some(home), &directories)
        .expect("discover worktree project");
    assert_eq!(metadata.path, project);
    assert_eq!(metadata.name, "my-project");
}

#[test]
fn skips_dependencies_when_finding_project_root() {
    let directories = vec![
        listing(
            "/work/frontend",
            vec![file("package.json", r#"{"name":"frontend"}"#)],
        ),
        listing(
            "/work/frontend/node_modules/vite",
            vec![file("package.json", r#"{"name":"vite"}"#)],
        ),
    ];
    assert_eq!(
        detect_listener_project("/work/frontend/node_modules/vite", None, &directories)
            .unwrap()
            .path,
        "/work/frontend"
    );
}

#[test]
fn directories_around_a_server_are_inspected_up_to_home() {
    assert_eq!(
        directories_to_inspect("/Users/dev/code/app/src", Some("/Users/dev")),
        vec!["/Users/dev/code/app/src", "/Users/dev/code/app", "/Users/dev/code"]
    );
    assert_eq!(
        directories_to_inspect("/Users/dev/app", None),
        vec!["/Users/dev/app", "/Users/dev"]
    );
    assert_eq!(
        directories_to_inspect("/usr/lib", None),
        Vec::<String>::new()
    );
}

#[test]
fn candidates_exclude_containers_but_not_what_is_in_them() {
    assert!(is_project_directory_candidate("/opt/app", None));
    assert!(!is_project_directory_candidate("/opt", None));
    assert!(!is_project_directory_candidate("/opt/", None));
    assert!(!is_project_directory_candidate("/opt/homebrew/var", None));
    assert!(!is_project_directory_candidate("relative/app", None));
    assert!(!is_project_directory_candidate("/w/x/.venv/lib", None));
    assert!(!is_project_directory_candidate("/w/.git", None));
    assert!(!is_project_directory_candidate("/home/dev", Some("/home/dev/")));
    assert!(is_project_directory_candidate("/tmp/app", None));
}

#[test]
fn package_names_are_shown_if_they_can_be() {
    let named = |name: &str| {
        package_display_name(&PackageManifest {
            name: Some(name.to_string()),
            dev: None,
            start: None,
            serve: None,
        })
    };
    assert_eq!(named(" app ").as_deref(), Some("app"));
    assert_eq!(named("a\u{7}b"), None);
    assert_eq!(named(&"x".repeat(214)).map(|name| name.len()), Some(214));
    assert_eq!(named(&"x".repeat(215)), None);
    assert_eq!(named(&"\u{e9}".repeat(107)).map(|name| name.len()), Some(214));
    assert_eq!(named(&"\u{e9}".repeat(108)), None);
}

#[test]
fn matches_saved_listeners_only_by_unique_path_and_port() {
    let path = "/tmp/port-scout-listener-test/api";
    let projects = vec![saved("api", path, 3000, None)];
    assert!(matching_saved_listener_project(&projects, 3000, Some(path), None).is_some());
    assert!(matching_saved_listener_project(&projects, 3001, Some(path), None).is_none());
    assert!(
        matching_saved_listener_project(&projects, 3000, Some("/tmp/another/api"), None).is_none()
    );
    assert!(matching_saved_listener_project(
        &projects,
        3000,
        Some("/tmp/port-scout-listener-test/api/nested"),
        None
    )
    .is_none());
    assert!(matching_saved_listener_project(
        &[saved("api", path, 3000, None), saved("api", path, 3000, None)],
        3000,
        Some(path),
        None
    )
    .is_none());
}

#[test]
fn saved_projects_match_by_their_resolved_path() {
    let projects = vec![saved("api", "/link", 3000, Some("/real/api"))];
    assert!(matching_saved_listener_project(&projects, 3000, None, Some("/real/api")).is_some());
    assert!(matching_saved_listener_project(&projects, 3000, None, Some("/link")).is_none());
}

#[test]
fn ignores_unknown_listeners_outside_discovery_folders() {
    let result = build_listener_discovery(
        ListenerSnapshot {
            listeners: vec![TcpListenerInfo {
                port: 7000,
                pid: 123,
                process_name: "ControlCenter".to_string(),
            }],
            cwd_by_pid: HashMap::from([(123, "/".to_string())]),
            warnings: vec!["partial scan".to_string()],
        },
        &[],
        &["/Users/developer/projects".to_string()],
        None,
        &[],
    );
    assert!(result.listeners.is_empty());
    assert_eq!(result.warnings, vec!["partial scan"]);
}

#[test]
fn discovery_is_empty_without_selected_folders() {
    let settings = DiscoverySettings { folders: vec![] };
    assert!(settings.folders.is_empty());
    let choices: Vec<FolderChoice> = settings
        .folders
        .iter()
        .map(|folder| choice(folder, resolve(folder)))
        .collect();
    assert!(!needs_listener_scan(&choices));
    let result =
        discover_in_folders(&choices, Err("not scanned".to_string()), &[], None, &[]).unwrap();
    assert!(result.listeners.is_empty());
    assert!(result.warnings.is_empty());
}

#[test]
fn discovery_settings_persist_and_invalid_changes_preserve_previous_values() {
    let temp = TempDir::new().unwrap();
    let folder = temp
        .path()
        .canonicalize()
        .unwrap()
        .to_string_lossy()
        .to_string();
    let kept = normalize_discovery_folders(
        &[choice(&folder, resolve(&folder)), choice(&folder, resolve(&folder))],
        &[],
    )
    .unwrap();
    assert_eq!(kept, vec![folder.clone()]);
    assert!(normalize_discovery_folders(
        &[
            choice(&folder, resolve(&folder)),
            choice(
                "/missing-port-scout-folder",
                resolve("/missing-port-scout-folder")
            ),
        ],
        &kept
    )
    .is_err());
    let config = "/work/discovery.json";
    let not_a_directory = PathResolution::Resolved {
        path: config.to_string(),
        is_directory: false,
    };
    assert_eq!(
        normalize_discovery_folders(&[choice(config, not_a_directory)], &kept).unwrap_err(),
        "Discovery folder is not a directory: /work/discovery.json"
    );
    assert!(normalize_discovery_folders(&[], &kept).unwrap().is_empty());
}

#[test]
fn can_remove_saved_folders_when_other_saved_folders_are_unavailable() {
    let previous = vec!["/work/first".to_string(), "/work/second".to_string()];
    let remaining =
        normalize_discovery_folders(&[choice("/work/second", gone())], &previous).unwrap();
    assert_eq!(remaining.len(), 1);
    assert_eq!(
        normalize_discovery_folders(&[choice("/work/never-added", gone())], &previous)
            .unwrap_err(),
        "Invalid path: No such file or directory"
    );
    assert!(normalize_discovery_folders(&[], &previous).unwrap().is_empty());
}

#[test]
fn folders_have_absolute_paths() {
    for folder in ["", "projects"] {
        assert_eq!(
            normalize_discovery_folders(&[choice(folder, directory("/x"))], &[folder.to_string()])
                .unwrap_err(),
            "Choose an existing folder using its absolute path"
        );
    }
}

#[test]
fn discovery_includes_nested_projects_but_not_sibling_prefixes_or_saved_outsiders() {
    let root = "/base/projects";
    let inside = "/base/projects/group/maqueta";
    let outside = "/base/projects-other/api";
    let directories = vec![
        listing(inside, vec![file("package.json", r#"{"name":"la-maqueta"}"#)]),
        listing(outside, vec![file("package.json", r#"{"name":"la-maqueta"}"#)]),
    ];
    let listeners = (1..=4).map(|pid| listener(5000 + pid as u16, pid)).collect();
    let seen = snapshot(
        listeners,
        &[
            (1, "/base/projects/group/maqueta/src"),
            (2, outside),
            (3, "/base/projects/no-project"),
        ],
    );
    let saved_outside = saved("outside", outside, 5002, Some(outside));
    let result = build_listener_discovery(
        seen,
        &[saved_outside],
        &[root.to_string()],
        None,
        &directories,
    );
    assert_eq!(result.listeners.len(), 1);
    assert_eq!(result.listeners[0].name, "la-maqueta");
    assert_eq!(result.listeners[0].port, 5001);
    assert_eq!(result.listeners[0].path.as_deref(), Some(inside));
}

#[test]
fn discovery_does_not_promote_manifest_above_selected_folder() {
    let directories = vec![listing(
        "/base/project",
        vec![file("package.json", r#"{"name":"parent"}"#)],
    )];
    let selected = "/base/project/src";
    let result = build_listener_discovery(
        snapshot(vec![listener(5173, 1)], &[(1, selected)]),
        &[],
        &[selected.to_string()],
        None,
        &directories,
    );
    assert!(result.listeners.is_empty());
}

#[test]
fn discovery_reports_unavailable_folders_without_scanning_everything() {
    let temp = TempDir::new().unwrap();
    let missing = temp.path().join("missing").to_string_lossy().into_owned();
    let choices = vec![choice(&missing, resolve(&missing))];
    let result =
        discover_in_folders(&choices, Err("not scanned".to_string()), &[], None, &[]).unwrap();
    assert!(result.listeners.is_empty());
    assert_eq!(result.warnings.len(), 1);
    assert_eq!(
        result.warnings[0],
        format!("Discovery folder is unavailable: {missing}")
    );
}

#[test]
fn discovery_normalizes_aliases_and_excludes_symlink_targets_outside_roots() {
    let root = "/base/projects";
    let outside = "/base/outside";
    let normalized = normalize_discovery_folders(
        &[
            choice("/base/projects-alias", directory(root)),
            choice(root, directory(root)),
        ],
        &[],
    )
    .unwrap();
    assert_eq!(normalized, vec![root.to_string()]);
    let directories = vec![listing(
        outside,
        vec![file("package.json", r#"{"name":"outside"}"#)],
    )];
    let result = build_listener_discovery(
        snapshot(vec![listener(5173, 1)], &[(1, outside)]),
        &[],
        &[root.to_string()],
        None,
        &directories,
    );
    assert!(result.listeners.is_empty());
}

#[test]
fn discovery_joins_warnings_and_prefers_saved_projects() {
    let choices = vec![choice("/base", directory("/base")), choice("/away", gone())];
    assert!(needs_listener_scan(&choices));
    let mut seen = snapshot(vec![listener(3000, 1), listener(3001, 1)], &[(1, "/base/app")]);
    seen.warnings.push("scan".to_string());
    let projects = vec![saved("kept", "/base/app", 3000, Some("/base/app"))];
    let directories = vec![listing(
        "/base/app",
        vec![file("package.json", r#"{"name":"app","scripts":{"start":"x"}}"#)],
    )];
    let result = discover_in_folders(&choices, Ok(seen), &projects, None, &directories).unwrap();
    assert_eq!(
        result.warnings,
        vec!["scan", "Discovery folder is unavailable: /away"]
    );
    assert_eq!(result.listeners.len(), 2);
    assert_eq!(result.listeners[0].project_id.as_deref(), Some("kept"));
    assert_eq!(result.listeners[0].name, "kept");
    assert_eq!(
        result.listeners[0].suggested_start_command.as_deref(),
        Some("npm run dev")
    );
    assert_eq!(result.listeners[1].project_id, None);
    assert_eq!(result.listeners[1].name, "app");
    assert_eq!(
        result.listeners[1].suggested_start_command.as_deref(),
        Some("npm run start")
    );
    assert_eq!(
        discover_in_folders(&choices, Err("no scan".to_string()), &[], None, &[])
            .err()
            .unwrap(),
        "no scan"
    );
}

#[test]
fn folders_contain_by_component() {
    let folders = vec!["/a/b".to_string(), "/c".to_string()];
    assert!(path_in_discovery_folders("/a/b/c", &folders));
    assert!(path_in_discovery_folders("/c", &folders));
    assert!(!path_in_discovery_folders("/a/bc", &folders));
    assert!(!path_in_discovery_folders("/a", &[]));
}

#[test]
fn launch_shell_path_includes_common_binary_dirs() {
    let path = launch_shell_path(Some("/custom/bin:/usr/bin"), Some("/Users/dev"));
    assert!(path.split(':').any(|entry| entry == "/opt/homebrew/bin"));
    assert!(path.split(':').any(|entry| entry == "/usr/local/bin"));
    assert!(path.split(':').any(|entry| entry == "/usr/bin"));
    assert!(path.split(':').any(|entry| entry == "/bin"));
}

#[test]
fn launch_path_keeps_what_is_there_first() {
    assert_eq!(
        launch_shell_path(Some("/custom/bin: :/usr/bin:"), Some("/h")),
        "/custom/bin:/usr/bin:/opt/homebrew/bin:/opt/homebrew/sbin:/usr/local/bin:/usr/local/sbin:/bin:/usr/sbin:/sbin:/h/.local/bin:/h/.bun/bin:/h/.cargo/bin"
    );
    assert_eq!(
        launch_shell_path(None, None),
        "/opt/homebrew/bin:/opt/homebrew/sbin:/usr/local/bin:/usr/local/sbin:/usr/bin:/bin:/usr/sbin:/sbin"
    );
}

#[test]
fn detects_branch_fallbacks() {
    let unused = Err("not run".to_string());
    assert_eq!(detect_branch(&output(false, ""), &unused), "not-a-git-repo");
    assert_eq!(detect_branch(&unused, &unused), "not-a-git-repo");
    assert_eq!(detect_branch(&output(true, " \n"), &unused), "not-a-git-repo");
    assert_eq!(detect_branch(&output(true, "main\n"), &unused), "main");
    assert!(!needs_commit(&output(true, "main\n")));

    let detached = output(true, "HEAD\n");
    assert!(needs_commit(&detached));
    assert_eq!(detect_branch(&detached, &output(true, "abc123\n")), "detached@abc123");
    assert_eq!(detect_branch(&detached, &output(true, "\n")), "detached@unknown");
    assert_eq!(detect_branch(&detached, &unused), "detached@unknown");
    assert_eq!(no_branch(), "not-a-git-repo");
    assert_eq!(
        branch_arguments("/p"),
        vec!["-C", "/p", "rev-parse", "--abbrev-ref", "HEAD"]
    );
    assert_eq!(
        commit_arguments("/p"),
        vec!["-C", "/p", "rev-parse", "--short", "HEAD"]
    );
}

#[test]
fn paths_agree_with_the_standard_library() {
    let samples = [
        "/", "", "/a", "/a/", "/a/b", "//a//b/", "a/b", "./a", "/a/./b", "/a/..", "..", "a/../b",
        "/a/b/c.d", ".", "/.", "a//", "/a b/\u{e9}",
    ];
    for a in samples {
        let path = Path::new(a);
        assert_eq!(
            find_parent(a).as_deref(),
            path.parent().map(|up| up.to_str().unwrap()),
            "parent of {a}"
        );
        assert_eq!(
            find_file_name(a).as_deref(),
            path.file_name().map(|name| name.to_str().unwrap()),
            "name of {a}"
        );
        let ancestors: Vec<&str> = path.ancestors().map(|up| up.to_str().unwrap()).collect();
        assert_eq!(list_ancestors(a), ancestors, "ancestors of {a}");
        for b in samples {
            let other = Path::new(b);
            assert_eq!(is_within(a, b), path.starts_with(other), "{a} in {b}");
            assert_eq!(is_same_path(a, b), path == other, "{a} and {b}");
            assert_eq!(join(a, b), path.join(other).to_str().unwrap(), "{b} below {a}");
        }
    }
}

#[test]
fn window_decisions() {
    assert_eq!(menu_action("show"), MenuAction::Show);
    assert_eq!(menu_action("refresh"), MenuAction::Refresh);
    assert_eq!(menu_action("quit"), MenuAction::Quit);
    assert_eq!(menu_action("other"), MenuAction::Nothing);
    assert!(hides_on_focus_change("main", false, false, false));
    assert!(!hides_on_focus_change("other", false, false, false));
    assert!(!hides_on_focus_change("main", true, false, false));
    assert!(!hides_on_focus_change("main", false, true, false));
    assert!(!hides_on_focus_change("main", false, false, true));
    assert!(shows_at_start(&["app".to_string()]));
    assert!(!shows_at_start(&["app".to_string(), "--minimized".to_string()]));
}
