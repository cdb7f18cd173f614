use port_scout::ordering::{list_projects, reorder_projects};
use port_scout::projects::{
    add_project, append_project, build_localhost_url, default_start_command, find_project,
    find_project_url, normalize_path, remove_project, update_project, validate_project_candidate,
    AddProjectInput, PathResolution, Project, UpdateProjectInput,
};
use port_scout::stamps::{new_project_id, now_iso, temporary_extension};
use port_scout::text_map::TextMap;
use std::path::Path;
use tempfile::TempDir;

fn resolve(path: &str) -> PathResolution {
    match Path::new(path).canonicalize() {
        Err(error) => PathResolution::Failed(error.to_string()),
        Ok(resolved) => match resolved.to_str() {
            None => PathResolution::NotText,
            Some(text) => PathResolution::Resolved {
                path: text.to_string(),
                is_directory: resolved.is_dir(),
            },
        },
    }
}

fn directory(path: &str) -> PathResolution {
    PathResolution::Resolved {
        path: path.to_string(),
        is_directory: true,
    }
}

fn project(id: &str, path: &str, port: u16) -> Project {
    Project {
        id: id.to_string(),
        name: id.to_string(),
        path: path.to_string(),
        port,
        start_command: default_start_command(),
        created_at: now_iso(),
    }
}

fn new_input(name: &str, port: u16, start_command: &str) -> AddProjectInput {
    AddProjectInput {
        name: name.to_string(),
        path: "/entered".to_string(),
        port,
        start_command: start_command.to_string(),
    }
}

fn changed_input(id: &str, name: &str, port: u16) -> UpdateProjectInput {
    UpdateProjectInput {
        id: id.to_string(),
        name: name.to_string(),
        path: "/entered".to_string(),
        port,
        start_command: "bun run dev".to_string(),
    }
}

fn ids(projects: &[Project]) -> Vec<&str> {
    projects.iter().map(|project| project.id.as_str()).collect()
}

#[test]
fn builds_localhost_url() {
    assert_eq!(build_localhost_url(5173), "http://localhost:5173");
}

#[test]
fn default_start_command_is_npm_dev() {
    assert_eq!(default_start_command(), "npm run dev");
}

#[test]
fn validates_project_input() {
    let temp_one = TempDir::new().expect("tempdir one");
    let temp_two = TempDir::new().expect("tempdir two");
    let first_path = temp_one.path().to_string_lossy().to_string();
    let second_path = temp_two.path().to_string_lossy().to_string();

    validate_project_candidate("api", &resolve(&first_path), 3000, "npm run dev", &[], None)
        .expect("valid input should pass");

    let existing = vec![Project {
        id: "1".to_string(),
        name: "existing".to_string(),
        path: normalize_path(&resolve(&first_path)).expect("normalize path"),
        port: 3000,
        start_command: default_start_command(),
        created_at: now_iso(),
    }];

    let duplicate_port = validate_project_candidate(
        "dup",
        &resolve(&second_path),
        3000,
        "pnpm run dev",
        &existing,
        None,
    );
    assert!(duplicate_port.is_ok());

    let duplicate_path = validate_project_candidate(
        "dup",
        &resolve(&first_path),
        4000,
        "pnpm run dev",
        &existing,
        None,
    );
    assert!(duplicate_path.is_err());
}

#[test]
fn validates_update_ignoring_current_project_id() {
    let temp_one = TempDir::new().expect("tempdir one");
    let temp_two = TempDir::new().expect("tempdir two");

    let first = resolve(&temp_one.path().to_string_lossy());
    let second = resolve(&temp_two.path().to_string_lossy());
    let first_path = normalize_path(&first).expect("normalize one");
    let second_path = normalize_path(&second).expect("normalize two");

    let projects = vec![
        Project {
            id: "project-a".to_string(),
            name: "a".to_string(),
            path: first_path.clone(),
            port: 3000,
            start_command: default_start_command(),
            created_at: now_iso(),
        },
        Project {
            id: "project-b".to_string(),
            name: "b".to_string(),
            path: second_path.clone(),
            port: 4000,
            start_command: default_start_command(),
            created_at: now_iso(),
        },
    ];

    let valid_self_update = validate_project_candidate(
        "renamed",
        &resolve(&first_path),
        3000,
        "bun run dev",
        &projects,
        Some("project-a"),
    );
    assert!(valid_self_update.is_ok());

    let duplicate_other_port = validate_project_candidate(
        "renamed",
        &resolve(&first_path),
        4000,
        "bun run dev",
        &projects,
        Some("project-a"),
    );
    assert!(duplicate_other_port.is_ok());

    let duplicate_other_path = validate_project_candidate(
        "renamed",
        &resolve(&second_path),
        3000,
        "bun run dev",
        &projects,
        Some("project-a"),
    );
    assert!(duplicate_other_path.is_err());
}

#[test]
fn rejects_empty_start_command() {
    let temp = TempDir::new().expect("tempdir");
    let path = temp.path().to_string_lossy().to_string();
    let result = validate_project_candidate("api", &resolve(&path), 3000, "   ", &[], None);
    assert!(result.is_err());
}

#[test]
fn refusals_name_their_reason() {
    let here = directory("/work/api");
    let kept = vec![project("a", "/work/api", 3000)];
    let refused = |name: &str, resolution: &PathResolution, port: u16, command: &str| {
        validate_project_candidate(name, resolution, port, command, &kept, None).unwrap_err()
    };
    assert_eq!(refused(" \t", &here, 0, ""), "Project name cannot be empty");
    assert_eq!(refused("x", &here, 0, ""), "Port must be in the range 1..65535");
    assert_eq!(refused("x", &here, 1, "\n"), "Start command cannot be empty");
    assert_eq!(
        refused("x", &PathResolution::Failed("gone".to_string()), 1, "c"),
        "Invalid path: gone"
    );
    assert_eq!(
        refused("x", &PathResolution::NotText, 1, "c"),
        "Path contains invalid UTF-8"
    );
    let file = PathResolution::Resolved {
        path: "/work/file".to_string(),
        is_directory: false,
    };
    assert_eq!(
        refused("x", &file, 1, "c"),
        "Project path must be an existing directory"
    );
    assert_eq!(
        refused("x", &here, 1, "c"),
        "Path '/work/api' is already assigned to project 'a'"
    );
}

#[test]
fn accepted_input_is_trimmed() {
    let input =
        validate_project_candidate("  api ", &directory("/w"), 80, " npm start\n", &[], None)
            .unwrap();
    assert_eq!(input.name, "api");
    assert_eq!(input.path, "/w");
    assert_eq!(input.port, 80);
    assert_eq!(input.start_command, "npm start");
}

#[test]
fn added_projects_come_last_with_their_own_identifier() {
    let mut projects = vec![project("a", "/a", 1)];
    let added = add_project(&mut projects, &new_input(" b ", 2, "c"), &directory("/b")).unwrap();
    assert_eq!(projects.len(), 2);
    assert_eq!(projects[1].id, added.id);
    assert_eq!(added.name, "b");
    assert_eq!(added.path, "/b");
    assert_eq!(added.id.len(), 36);
    assert!(added.created_at.ends_with("+00:00"));

    let refused = add_project(&mut projects, &new_input("c", 3, "c"), &directory("/b"));
    assert_eq!(
        refused.unwrap_err(),
        "Path '/b' is already assigned to project 'b'"
    );
    assert_eq!(projects.len(), 2);
}

#[test]
fn removing_undoes_adding() {
    let mut projects = vec![project("a", "/a", 1), project("b", "/b", 2)];
    append_project(&mut projects, &new_input("c", 3, "c"), &directory("/c"), "id-c", "now").unwrap();
    assert_eq!(ids(&projects), vec!["a", "b", "id-c"]);
    assert_eq!(projects[2].created_at, "now");
    remove_project(&mut projects, "id-c").unwrap();
    assert_eq!(ids(&projects), vec!["a", "b"]);
    assert_eq!(
        remove_project(&mut projects, "id-c").unwrap_err(),
        "Project not found"
    );
    assert_eq!(ids(&projects), vec!["a", "b"]);
}

#[test]
fn updates_keep_place_identifier_and_time() {
    let mut projects = vec![project("a", "/a", 1), project("b", "/b", 2)];
    let created = projects[1].created_at.clone();
    let updated =
        update_project(&mut projects, &changed_input("b", " new ", 9), &directory("/n")).unwrap();
    assert_eq!(updated.id, "b");
    assert_eq!(projects[1].name, "new");
    assert_eq!(projects[1].path, "/n");
    assert_eq!(projects[1].port, 9);
    assert_eq!(projects[1].start_command, "bun run dev");
    assert_eq!(projects[1].created_at, created);
    assert_eq!(
        update_project(&mut projects, &changed_input("z", "n", 9), &directory("/n")).unwrap_err(),
        "Project not found"
    );
    assert!(update_project(&mut projects, &changed_input("b", "n", 9), &directory("/a")).is_err());
    assert_eq!(projects[1].path, "/n");
}

#[test]
fn reordering_moves_without_losing() {
    let mut projects = vec![
        project("a", "/a", 1),
        project("b", "/b", 2),
        project("c", "/c", 3),
        project("d", "/d", 4),
    ];
    let order: Vec<String> = ["c", "x", "a", "c"].iter().map(|id| id.to_string()).collect();
    let listed = reorder_projects(&mut projects, &order);
    assert_eq!(ids(&projects), vec!["c", "a", "b", "d"]);
    assert_eq!(ids(&listed), ids(&projects));
    let present: Vec<String> = projects.iter().map(|project| project.id.clone()).collect();
    reorder_projects(&mut projects, &present);
    assert_eq!(ids(&projects), vec!["c", "a", "b", "d"]);
    assert_eq!(ids(&list_projects(&projects)), vec!["c", "a", "b", "d"]);
}

#[test]
fn reordering_follows_first_mentions() {
    let mut projects = vec![
        project("a", "/a", 1),
        project("b", "/b", 2),
        project("c", "/c", 3),
        project("d", "/d", 4),
    ];
    let order: Vec<String> = ["d", "x", "b", "d", "", "b", "a"]
        .iter()
        .map(|id| id.to_string())
        .collect();
    reorder_projects(&mut projects, &order);
    assert_eq!(ids(&projects), vec!["d", "b", "a", "c"]);
    reorder_projects(&mut projects, &[]);
    assert_eq!(ids(&projects), vec!["d", "b", "a", "c"]);
}

#[test]
fn updates_keep_paths_apart_in_incomplete_lists() {
    let mut projects = vec![project("a", "/a", 0), project("b", "/b", 2)];
    projects[0].name = String::new();
    assert!(update_project(&mut projects, &changed_input("b", "n", 9), &directory("/a")).is_err());
    update_project(&mut projects, &changed_input("a", "n", 9), &directory("/c")).unwrap();
    assert_eq!(projects[0].path, "/c");
    assert_eq!(projects[0].id, "a");
}

#[test]
fn reordering_takes_the_last_of_equal_identifiers() {
    let mut projects = vec![project("a", "/1", 1), project("b", "/2", 2), project("a", "/3", 3)];
    reorder_projects(&mut projects, &["a".to_string()]);
    let paths: Vec<&str> = projects.iter().map(|project| project.path.as_str()).collect();
    assert_eq!(paths, vec!["/3", "/1", "/2"]);
}

#[test]
fn projects_are_found_by_identifier() {
    let projects = vec![project("a", "/a", 1), project("b", "/b", 8080)];
    assert_eq!(find_project(&projects, "b"), Some(1));
    assert_eq!(find_project(&projects, "c"), None);
    assert_eq!(
        find_project_url(&projects, "b").unwrap(),
        "http://localhost:8080"
    );
    assert_eq!(
        find_project_url(&projects, "c").unwrap_err(),
        "Project not found"
    );
}

#[test]
fn identifiers_and_times_have_their_form() {
    let id = new_project_id();
    let chars: Vec<char> = id.chars().collect();
    assert_eq!(chars.len(), 36);
    for (i, c) in chars.iter().enumerate() {
        if [8, 13, 18, 23].contains(&i) {
            assert_eq!(*c, '-');
        } else {
            assert!(c.is_ascii_digit() || ('a'..='f').contains(c));
        }
    }
    assert_eq!(chars[14], '4');
    assert_ne!(new_project_id(), id);
    let extension = temporary_extension();
    assert_eq!(extension.len(), 40);
    assert!(extension.ends_with(".tmp"));
    let time = now_iso();
    assert!(time.len() >= 25);
    assert!(time.ends_with("+00:00"));
    assert!(chrono::DateTime::parse_from_rfc3339(&time).is_ok());
    let marks: Vec<char> = time.chars().collect();
    assert_eq!(marks[10], 'T');
    assert_eq!((marks[4], marks[7]), ('-', '-'));
    assert_eq!((marks[13], marks[16]), (':', ':'));
    for i in [0, 1, 2, 3, 5, 6, 8, 9, 11, 12, 14, 15, 17, 18] {
        assert!(marks[i].is_ascii_digit());
    }
    assert!([0, 4, 7, 10].contains(&(marks.len() - 25)));
}

#[test]
fn text_maps_replace_and_remove() {
    let mut map: TextMap<i32> = TextMap::new();
    assert_eq!(map.len(), 0);
    map.insert("a", 1);
    map.insert("b", 2);
    map.insert("a", 3);
    assert_eq!(map.len(), 2);
    assert_eq!(map.get("a"), Some(&3));
    assert_eq!(map.entry(1), Some(("b", &2)));
    assert_eq!(map.entry(2), None);
    map.remove("a");
    map.remove("z");
    assert_eq!(map.get("a"), None);
    assert_eq!(map.len(), 1);
}
