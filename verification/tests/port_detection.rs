use port_scout::detection::{
    command_for_package_manager, detect_from_docker_compose_files, detect_from_env_files,
    detect_from_esbuild_config_files, detect_from_manifest, detect_from_package_json,
    detect_from_vite_config_files, detect_package_manager, detect_project_ports_for_path,
    detect_project_start_command_for_path, list_source_files, preferred_start_script_key,
    start_command_for_manifest, FileContents, FileEntry, PackageManager,
};
use port_scout::manifest::{read_package_manifest, PackageManifest};
use port_scout::numbers::{read_port_number, write_decimal};
use port_scout::ports::{
    brace_depth_delta, detect_ports_in_compose_line, detect_ports_in_esbuild_config,
    detect_ports_in_script, detect_ports_in_vite_config, extract_host_port_from_mapping,
    extract_port_assignment_from_line, extract_port_from_env_line,
    extract_port_from_server_dot_assignment, is_identifier_char, is_vite_server_block_start,
    normalize_script_token, parse_port_expression, parse_port_value, push_unique_port,
    strip_js_line_comment,
};
use port_scout::projects::PathResolution;
use port_scout::ranking::{
    port_source_priority, rank_and_dedupe_candidates, PortCandidate, PortSource,
};
use port_scout::stamps::now_iso;
use std::path::Path;

fn text_file(name: &str, contents: &str) -> FileEntry {
    FileEntry {
        name: name.to_string(),
        is_file: true,
        contents: FileContents::Text(contents.to_string()),
    }
}

fn unreadable_file(name: &str, error: &str) -> FileEntry {
    FileEntry {
        name: name.to_string(),
        is_file: true,
        contents: FileContents::Unreadable(error.to_string()),
    }
}

fn resolve(path: &str) -> PathResolution {
    match Path::new(path).canonicalize() {
        Err(error) => PathResolution::Failed(error.to_string()),
        Ok(resolved) => match resolved.to_str() {
            None => PathResolution::NotText,
            Some(text) => PathResolution::Resolved {
                path: text.to_string(),
                is_directory: resolved.is_dir(),
            },
        },
    }
}

fn directory(path: &str) -> PathResolution {
    PathResolution::Resolved {
        path: path.to_string(),
        is_directory: true,
    }
}

fn candidate(port: u16, source: PortSource, detail: &str, confidence: u8) -> PortCandidate {
    PortCandidate {
        port,
        source,
        detail: detail.to_string(),
        confidence,
    }
}

#[test]
fn extracts_port_from_env_lines() {
    assert_eq!(extract_port_from_env_line("PORT=3000"), Some(3000));
    assert_eq!(extract_port_from_env_line("PORT = '5173'"), Some(5173));
    assert_eq!(
        extract_port_from_env_line("export PORT=4173 # comment"),
        Some(4173)
    );
    assert_eq!(extract_port_from_env_line("NOT_PORT=3000"), None);
    assert_eq!(extract_port_from_env_line("PORT=abc"), None);
}

#[test]
fn env_lines_with_other_settings_give_no_port() {
    assert_eq!(extract_port_from_env_line(""), None);
    assert_eq!(extract_port_from_env_line("# PORT=3000"), None);
    assert_eq!(extract_port_from_env_line("PORTAL=3000"), None);
    assert_eq!(extract_port_from_env_line("PORT 3000"), None);
    assert_eq!(extract_port_from_env_line("PORT=0"), None);
    assert_eq!(extract_port_from_env_line("PORT=65536"), None);
    assert_eq!(extract_port_from_env_line("  export   PORT=\"65535\""), Some(65535));
}

#[test]
fn detects_ports_from_package_script_patterns() {
    let ports = detect_ports_in_script("cross-env PORT=5173 vite --port 3000 -p 4000");
    assert!(ports.contains(&5173));
    assert!(ports.contains(&3000));
    assert!(ports.contains(&4000));
    assert_eq!(ports, vec![5173, 3000, 4000]);
}

#[test]
fn script_ports_are_listed_once() {
    assert_eq!(
        detect_ports_in_script("a --port=3000 && b -p 3000 --port"),
        vec![3000]
    );
    assert_eq!(detect_ports_in_script("vite build"), Vec::<u16>::new());
    assert_eq!(detect_ports_in_script("serve --port '8080'"), vec![8080]);
}

#[test]
fn script_tokens_lose_punctuation() {
    assert_eq!(normalize_script_token("\"(--port=1)\","), "--port=1");
    assert_eq!(normalize_script_token("[]"), "");
}

#[test]
fn detects_ports_from_docker_compose_lines() {
    assert_eq!(
        detect_ports_in_compose_line("      - \"127.0.0.1:3000:3000\""),
        vec![3000]
    );
    assert_eq!(detect_ports_in_compose_line("      - 8080:80"), vec![8080]);
    assert_eq!(detect_ports_in_compose_line("ports: []"), Vec::<u16>::new());
}

#[test]
fn compose_comments_and_protocols_do_not_count() {
    assert_eq!(
        detect_ports_in_compose_line("- 53:53/udp # was 5353:53"),
        vec![53]
    );
    assert_eq!(extract_host_port_from_mapping("8080:80"), Some(8080));
    assert_eq!(extract_host_port_from_mapping("0.0.0.0:9000:80/tcp"), Some(9000));
    assert_eq!(extract_host_port_from_mapping("8080"), None);
    assert_eq!(extract_host_port_from_mapping("a:b"), None);
}

#[test]
fn detects_ports_from_esbuild_config_patterns() {
    let ports = detect_ports_in_esbuild_config(
        r#"
              const ctx = await esbuild.context({
                entryPoints: ['src/index.ts'],
                port: process.env.PORT || 3000
              });
              await ctx.serve({ servedir: 'public', port: 4100 });
              const ignored = { transport: 1234 };
            "#,
    );

    assert!(ports.iter().any(|(port, _)| *port == 3000));
    assert!(ports.iter().any(|(port, _)| *port == 4100));
    assert!(!ports.iter().any(|(port, _)| *port == 1234));
    assert_eq!(ports, vec![(3000, 4), (4100, 6)]);
}

#[test]
fn detects_ports_from_vite_config_patterns() {
    let ports = detect_ports_in_vite_config(
        r#"
              export default defineConfig({
                server: {
                  host: true,
                  port: process.env.PORT || 5173,
                },
              });
              server.port = 4173;
              const config = { transport: 1234 };
            "#,
    );

    assert!(ports.iter().any(|(port, _)| *port == 5173));
    assert!(ports.iter().any(|(port, _)| *port == 4173));
    assert!(!ports.iter().any(|(port, _)| *port == 1234));
    assert_eq!(ports, vec![(5173, 5), (4173, 8)]);
}

#[test]
fn vite_ports_outside_the_server_block_do_not_count() {
    let ports = detect_ports_in_vite_config(
        "preview: { port: 4000 },\nserver: { port: 3000 }, // port: 1\nport: 5000\n",
    );
    assert_eq!(ports, vec![(3000, 2)]);
}

#[test]
fn port_values_expressions_and_assignments() {
    assert_eq!(parse_port_value(" '3000'"), Some(3000));
    assert_eq!(parse_port_value("(8080)"), Some(8080));
    assert_eq!(parse_port_value("80a"), Some(80));
    assert_eq!(parse_port_value("0"), None);
    assert_eq!(parse_port_value("70000"), None);
    assert_eq!(parse_port_value("+80"), None);
    assert_eq!(parse_port_expression("env.PORT || 3000"), Some(3000));
    assert_eq!(parse_port_expression("env.PORT ?? 4000"), Some(4000));
    assert_eq!(parse_port_expression("env.PORT"), None);
    assert_eq!(extract_port_assignment_from_line("port: 80, port = 81"), Some(80));
    assert_eq!(extract_port_assignment_from_line("ports: 80"), None);
    assert_eq!(extract_port_assignment_from_line("my_port: 80"), None);
    assert_eq!(
        extract_port_from_server_dot_assignment("config.server.port = 90;"),
        Some(90)
    );
    assert_eq!(extract_port_from_server_dot_assignment("server.ports = 90"), None);
}

#[test]
fn pieces_of_javascript() {
    assert_eq!(strip_js_line_comment("a // b // c"), "a ");
    assert_eq!(strip_js_line_comment("a"), "a");
    assert!(is_vite_server_block_start("server: {"));
    assert!(!is_vite_server_block_start("observer: {"));
    assert!(!is_vite_server_block_start("server: options"));
    assert_eq!(brace_depth_delta("{ { }"), 1);
    assert_eq!(brace_depth_delta("}}"), -2);
    assert!(is_identifier_char('_'));
    assert!(is_identifier_char('Z'));
    assert!(!is_identifier_char('-'));
    assert!(!is_identifier_char('é'));
}

#[test]
fn unique_ports_keep_their_order() {
    let mut ports = vec![1, 2];
    push_unique_port(&mut ports, 1);
    push_unique_port(&mut ports, 3);
    assert_eq!(ports, vec![1, 2, 3]);
}

#[test]
fn every_port_is_read_back_from_an_env_line_and_a_flag() {
    for port in [1u16, 9, 10, 80, 443, 3000, 9999, 10000, 65535] {
        let digits = write_decimal(port as u64);
        assert_eq!(digits, port.to_string());
        assert_eq!(extract_port_from_env_line(&format!("PORT={digits}")), Some(port));
        assert_eq!(detect_ports_in_script(&format!("--port={digits}")), vec![port]);
        let chars: Vec<char> = digits.chars().collect();
        assert_eq!(read_port_number(&chars), Some(port));
    }
}

#[test]
fn ranks_and_dedupes_detected_candidates() {
    let ranked = rank_and_dedupe_candidates(&[
        candidate(3000, PortSource::DockerCompose, "compose", 75),
        candidate(5174, PortSource::ViteConfig, "vite", 80),
        candidate(5175, PortSource::EsbuildConfig, "esbuild", 82),
        candidate(3000, PortSource::Env, ".env", 95),
        candidate(5173, PortSource::PackageScript, "package", 85),
    ]);

    assert_eq!(ranked.len(), 4);
    assert_eq!(ranked[0].port, 3000);
    assert_eq!(ranked[0].source, PortSource::Env);
    assert_eq!(ranked[1].port, 5173);
    assert_eq!(ranked[1].source, PortSource::PackageScript);
    assert_eq!(ranked[2].port, 5175);
    assert_eq!(ranked[2].source, PortSource::EsbuildConfig);
    assert_eq!(ranked[3].port, 5174);
    assert_eq!(ranked[3].source, PortSource::ViteConfig);
}

#[test]
fn ranking_prefers_the_first_of_equals_and_is_stable() {
    let once = rank_and_dedupe_candidates(&[
        candidate(9000, PortSource::Env, "late port", 95),
        candidate(3000, PortSource::Env, "first", 95),
        candidate(3000, PortSource::Env, "second", 95),
        candidate(80, PortSource::PackageScript, "other source", 95),
    ]);
    let details: Vec<&str> = once.iter().map(|found| found.detail.as_str()).collect();
    assert_eq!(details, vec!["first", "late port", "other source"]);
    let twice = rank_and_dedupe_candidates(&once);
    let again: Vec<&str> = twice.iter().map(|found| found.detail.as_str()).collect();
    assert_eq!(again, details);
}

#[test]
fn sources_have_distinct_priorities() {
    assert_eq!(port_source_priority(&PortSource::Env), 0);
    assert_eq!(port_source_priority(&PortSource::PackageScript), 1);
    assert_eq!(port_source_priority(&PortSource::EsbuildConfig), 2);
    assert_eq!(port_source_priority(&PortSource::ViteConfig), 3);
    assert_eq!(port_source_priority(&PortSource::DockerCompose), 4);
}

#[test]
fn detect_project_ports_rejects_invalid_path() {
    let path = Path::new("/tmp").join(format!(
        "port_scout_missing_{}",
        now_iso().replace(':', "_")
    ));
    let result = detect_project_ports_for_path(&resolve(path.to_string_lossy().as_ref()), &[]);
    assert!(result.is_err());
    assert!(result.unwrap_err().starts_with("Invalid path: "));
}

#[test]
fn detection_needs_a_directory() {
    let file = PathResolution::Resolved {
        path: "/work/file".to_string(),
        is_directory: false,
    };
    assert_eq!(
        detect_project_ports_for_path(&file, &[]).unwrap_err(),
        "Project path must be an existing directory"
    );
    assert_eq!(
        detect_project_ports_for_path(&PathResolution::NotText, &[]).unwrap_err(),
        "Path contains invalid UTF-8"
    );
}

#[test]
fn detection_reads_every_source() {
    let files = vec![
        text_file(".env", "# local\nPORT=3000\n"),
        text_file(
            "package.json",
            r#"{"name":"app","scripts":{"dev":"vite --port 5173","start":"PORT=3000 node ."}}"#,
        ),
        text_file("esbuild.config.mjs", "serve({ port: 8001 })"),
        text_file("vite.config.ts", "server: { port: 5173 }"),
        text_file("compose.yaml", "ports:\n  - 8080:80\n"),
        unreadable_file(".env.local", "denied"),
        text_file("yarn.lock", ""),
    ];
    let result = detect_project_ports_for_path(&directory("/work/app"), &files).unwrap();
    assert_eq!(result.best_port, Some(3000));
    let found: Vec<(u16, &str, u8)> = result
        .candidates
        .iter()
        .map(|found| (found.port, found.detail.as_str(), found.confidence))
        .collect();
    assert_eq!(
        found,
        vec![
            (3000, ".env:2", 95),
            (5173, "package.json:scripts.dev", 85),
            (8001, "esbuild.config.mjs:1", 82),
            (8080, "compose.yaml:2", 75),
        ]
    );
    assert_eq!(
        result.errors,
        vec!["Failed to read /work/app/.env.local: denied"]
    );
    assert_eq!(result.suggested_start_command.as_deref(), Some("yarn dev"));
}

#[test]
fn detection_of_an_empty_directory() {
    let result = detect_project_ports_for_path(&directory("/work/app"), &[]).unwrap();
    assert_eq!(result.best_port, None);
    assert!(result.candidates.is_empty());
    assert!(result.errors.is_empty());
    assert_eq!(result.suggested_start_command, None);
}

#[test]
fn each_source_reports_its_errors() {
    let files = vec![
        unreadable_file(".env", "a"),
        unreadable_file("package.json", "b"),
        unreadable_file("esbuild.config.js", "c"),
        unreadable_file("vite.config.js", "d"),
        unreadable_file("compose.yml", "e"),
    ];
    let mut errors = vec!["earlier".to_string()];
    assert!(detect_from_env_files("/p/", &files, &mut errors).is_empty());
    assert!(detect_from_package_json("/p/", &files, &mut errors).is_empty());
    assert!(detect_from_esbuild_config_files("/p/", &files, &mut errors).is_empty());
    assert!(detect_from_vite_config_files("/p/", &files, &mut errors).is_empty());
    assert!(detect_from_docker_compose_files("/p/", &files, &mut errors).is_empty());
    assert_eq!(
        errors,
        vec![
            "earlier",
            "Failed to read /p/.env: a",
            "Failed to read /p/package.json: b",
            "Failed to read /p/esbuild.config.js: c",
            "Failed to read /p/vite.config.js: d",
            "Failed to read /p/compose.yml: e",
        ]
    );
}

#[test]
fn broken_manifest_is_reported() {
    let files = vec![text_file("package.json", "{")];
    let mut errors = Vec::new();
    assert!(detect_from_package_json("/p", &files, &mut errors).is_empty());
    assert_eq!(errors.len(), 1);
    let expected = serde_json::from_str::<serde_json::Value>("{").unwrap_err();
    assert_eq!(
        errors[0],
        format!("Failed to parse /p/package.json: {expected}")
    );
    assert_eq!(detect_project_start_command_for_path(&files), None);
}

#[test]
fn manifests_are_read() {
    let manifest = read_package_manifest(
        r#"{"name":"app","scripts":{"dev":"vite","start":1,"serve":"serve"}}"#,
    )
    .unwrap();
    assert_eq!(manifest.name.as_deref(), Some("app"));
    assert_eq!(manifest.dev.as_deref(), Some("vite"));
    assert_eq!(manifest.start, None);
    assert_eq!(manifest.serve.as_deref(), Some("serve"));

    let plain = read_package_manifest(r#"{"scripts":["dev"]}"#).unwrap();
    assert_eq!(plain.name, None);
    assert_eq!(plain.dev, None);
    let list = read_package_manifest("[]").unwrap();
    assert_eq!(list.dev, None);
    assert!(read_package_manifest("").is_err());
}

#[test]
fn scripts_of_a_manifest_give_candidates() {
    let manifest = PackageManifest {
        name: None,
        dev: Some("vite --port=1".to_string()),
        start: None,
        serve: Some("serve -p 2".to_string()),
    };
    let found: Vec<(u16, String)> = detect_from_manifest(&manifest)
        .into_iter()
        .map(|found| (found.port, found.detail))
        .collect();
    assert_eq!(
        found,
        vec![
            (1, "package.json:scripts.dev".to_string()),
            (2, "package.json:scripts.serve".to_string()),
        ]
    );
}

#[test]
fn detects_start_command_with_package_manager_lockfiles() {
    let manifest = r#"{"scripts":{"dev":"vite","start":"node server.js"}}"#;
    let npm = vec![text_file("package.json", manifest)];
    assert_eq!(
        detect_project_start_command_for_path(&npm).as_deref(),
        Some("npm run dev")
    );
    let pnpm = vec![
        text_file("package.json", manifest),
        text_file("pnpm-lock.yaml", "lockfileVersion: '9.0'"),
    ];
    assert_eq!(
        detect_project_start_command_for_path(&pnpm).as_deref(),
        Some("pnpm run dev")
    );
    let yarn = vec![
        text_file("package.json", manifest),
        text_file("yarn.lock", "__metadata:"),
    ];
    assert_eq!(
        detect_project_start_command_for_path(&yarn).as_deref(),
        Some("yarn dev")
    );
    let bun = vec![
        text_file("package.json", manifest),
        text_file("bun.lockb", "bun"),
    ];
    assert_eq!(
        detect_project_start_command_for_path(&bun).as_deref(),
        Some("bun run dev")
    );
}

#[test]
fn detects_start_command_prefers_start_when_dev_missing() {
    let files = vec![text_file(
        "package.json",
        r#"{"scripts":{"start":"next start","serve":"serve -s dist"}}"#,
    )];
    assert_eq!(
        detect_project_start_command_for_path(&files).as_deref(),
        Some("npm run start")
    );
}

#[test]
fn detects_no_start_command_when_scripts_missing() {
    let files = vec![text_file("package.json", r#"{"scripts":{"test":"vitest"}}"#)];
    assert_eq!(detect_project_start_command_for_path(&files), None);
}

#[test]
fn blank_scripts_are_not_preferred() {
    let manifest = PackageManifest {
        name: None,
        dev: Some("  ".to_string()),
        start: None,
        serve: Some("serve".to_string()),
    };
    assert_eq!(preferred_start_script_key(&manifest), Some("serve"));
    assert_eq!(
        start_command_for_manifest(&manifest, &[]).as_deref(),
        Some("npm run serve")
    );
}

#[test]
fn package_managers_and_their_commands() {
    let folder = FileEntry {
        name: "pnpm-lock.yaml".to_string(),
        is_file: false,
        contents: FileContents::Unreadable("directory".to_string()),
    };
    assert_eq!(detect_package_manager(&[folder]), PackageManager::Npm);
    assert_eq!(
        detect_package_manager(&[text_file("bun.lock", "")]),
        PackageManager::Bun
    );
    assert_eq!(command_for_package_manager(PackageManager::Npm, "x"), "npm run x");
    assert_eq!(command_for_package_manager(PackageManager::Pnpm, "x"), "pnpm run x");
    assert_eq!(command_for_package_manager(PackageManager::Yarn, "x"), "yarn x");
    assert_eq!(command_for_package_manager(PackageManager::Bun, "x"), "bun run x");
}

#[test]
fn files_that_are_looked_for() {
    assert_eq!(
        list_source_files(PortSource::Env),
        vec![".env.local", ".env.development.local", ".env.development", ".env"]
    );
    assert_eq!(list_source_files(PortSource::PackageScript), vec!["package.json"]);
    assert_eq!(list_source_files(PortSource::EsbuildConfig).len(), 6);
    assert_eq!(list_source_files(PortSource::ViteConfig).len(), 6);
    assert_eq!(list_source_files(PortSource::DockerCompose).len(), 4);
}
