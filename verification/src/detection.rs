//! What the files in a project's directory say about its port and its start command.

use vstd::prelude::*;

use crate::manifest::{manifest_in, read_package_manifest, ManifestModel, PackageManifest};
use crate::numbers::{decimal, write_decimal};
use crate::paths::{join, joined};
use crate::ports::{
    compose_line_ports, detect_ports_in_compose_line, detect_ports_in_esbuild_config,
    detect_ports_in_script, detect_ports_in_vite_config, env_line_port, esbuild_ports,
    extract_port_from_env_line, placed, script_ports, vite_ports,
};
use crate::projects::{
    is_directory, is_resolved_directory, normalize_path, normalized, PathResolution,
};
use crate::ranking::{
    candidate_models, is_ranking, rank_and_dedupe_candidates, CandidateModel, PortCandidate,
    PortSource,
};
use crate::text::{
    chars_of, concat, lines, optional, optional_str, same_text, split_lines, strings, text_of,
    texts, trim, trimmed,
};

verus! {

/// What came of reading a file.
#[derive(Debug)]
pub enum FileContents {
    /// The text in the file.
    Text(String),
    /// The file could not be read as text, for this reason.
    Unreadable(String),
}

/// Something in a directory.
#[derive(Debug)]
pub struct FileEntry {
    pub name: String,
    /// Whether it is a file, and not a directory or the like.
    pub is_file: bool,
    pub contents: FileContents,
}

/// What was found in a directory under a name.
pub enum FileModel {
    /// Nothing.
    Missing,
    /// Something with this text in it.
    Text(Seq<char>),
    /// Something that could not be read as text, for this reason.
    Unreadable(Seq<char>),
}

/// The first entry from `i` on with this name.
pub open spec fn entry_from(files: Seq<FileEntry>, name: Seq<char>, i: int) -> Option<int>
    decreases files.len() - i,
{
    if i < 0 || i >= files.len() {
        None
    } else if files[i].name@ == name {
        Some(i)
    } else {
        entry_from(files, name, i + 1)
    }
}

/// What is in a directory under a name.
pub open spec fn file_named(files: Seq<FileEntry>, name: Seq<char>) -> FileModel {
    match entry_from(files, name, 0) {
        Some(i) => match files[i].contents {
            FileContents::Text(text) => FileModel::Text(text@),
            FileContents::Unreadable(error) => FileModel::Unreadable(error@),
        },
        None => FileModel::Missing,
    }
}

/// Whether something is in a directory under a name.
pub open spec fn has_entry(files: Seq<FileEntry>, name: Seq<char>) -> bool {
    entry_from(files, name, 0) is Some
}

/// Whether a file is in a directory under a name.
pub open spec fn has_file(files: Seq<FileEntry>, name: Seq<char>) -> bool {
    match entry_from(files, name, 0) {
        Some(i) => files[i].is_file,
        None => false,
    }
}

/// Finds what is in a directory under a name.
pub fn find_entry<'a>(files: &'a [FileEntry], name: &str) -> (r: Option<&'a FileEntry>)
    ensures
        match r {
            Some(entry) => {
                &&& entry_from(files@, name@, 0) matches Some(i)
                &&& 0 <= i < files@.len()
                &&& *entry == files@[i]
            },
            None => entry_from(files@, name@, 0) is None,
        },
{
    let mut i: usize = 0;
    while i < files.len()
        invariant
            i <= files@.len(),
            entry_from(files@, name@, 0) == entry_from(files@, name@, i as int),
        decreases files.len() - i,
    {
        if same_text(files[i].name.as_str(), name) {
            return Some(&files[i]);
        }
        i += 1;
    }
    None
}

/// Whether a file is in a directory under a name.
pub fn contains_file(files: &[FileEntry], name: &str) -> (r: bool)
    ensures
        r == has_file(files@, name@),
{
    match find_entry(files, name) {
        Some(entry) => entry.is_file,
        None => false,
    }
}

/// The files in which ports of a source are looked for.
pub open spec fn source_files(source: PortSource) -> Seq<Seq<char>> {
    match source {
        PortSource::Env => seq![
            ".env.local"@,
            ".env.development.local"@,
            ".env.development"@,
            ".env"@,
        ],
        PortSource::PackageScript => seq!["package.json"@],
        PortSource::EsbuildConfig => seq![
            "esbuild.config.js"@,
            "esbuild.config.mjs"@,
            "esbuild.config.cjs"@,
            "esbuild.config.ts"@,
            "esbuild.config.mts"@,
            "esbuild.config.cts"@,
        ],
        PortSource::ViteConfig => seq![
            "vite.config.js"@,
            "vite.config.mjs"@,
            "vite.config.cjs"@,
            "vite.config.ts"@,
            "vite.config.mts"@,
            "vite.config.cts"@,
        ],
        PortSource::DockerCompose => seq![
            "docker-compose.yml"@,
            "docker-compose.yaml"@,
            "compose.yml"@,
            "compose.yaml"@,
        ],
    }
}

/// How likely a port of a source is the right one, in hundredths.
pub open spec fn source_confidence(source: PortSource) -> u8 {
    match source {
        PortSource::Env => 95,
        PortSource::PackageScript => 85,
        PortSource::EsbuildConfig => 82,
        PortSource::ViteConfig => 80,
        PortSource::DockerCompose => 75,
    }
}

/// The files in which ports of a source are looked for.
pub fn list_source_files(source: PortSource) -> (r: Vec<String>)
    ensures
        strings(r@) == source_files(source),
{
    let r = match source {
        PortSource::Env => vec![
            ".env.local".to_owned(),
            ".env.development.local".to_owned(),
            ".env.development".to_owned(),
            ".env".to_owned(),
        ],
        PortSource::PackageScript => vec!["package.json".to_owned()],
        PortSource::EsbuildConfig => vec![
            "esbuild.config.js".to_owned(),
            "esbuild.config.mjs".to_owned(),
            "esbuild.config.cjs".to_owned(),
            "esbuild.config.ts".to_owned(),
            "esbuild.config.mts".to_owned(),
            "esbuild.config.cts".to_owned(),
        ],
        PortSource::ViteConfig => vec![
            "vite.config.js".to_owned(),
            "vite.config.mjs".to_owned(),
            "vite.config.cjs".to_owned(),
            "vite.config.ts".to_owned(),
            "vite.config.mts".to_owned(),
            "vite.config.cts".to_owned(),
        ],
        PortSource::DockerCompose => vec![
            "docker-compose.yml".to_owned(),
            "docker-compose.yaml".to_owned(),
            "compose.yml".to_owned(),
            "compose.yaml".to_owned(),
        ],
    };
    proof {
        assert(strings(r@) =~= source_files(source));
    }
    r
}

/// How likely a port of a source is the right one, in hundredths.
fn confidence_of(source: PortSource) -> (r: u8)
    ensures
        r == source_confidence(source),
{
    match source {
        PortSource::Env => 95,
        PortSource::PackageScript => 85,
        PortSource::EsbuildConfig => 82,
        PortSource::ViteConfig => 80,
        PortSource::DockerCompose => 75,
    }
}

/// The ports that the first `n` lines of an environment file set, with their lines.
pub open spec fn env_ports(file_lines: Seq<Seq<char>>, n: int) -> Seq<(u16, int)>
    decreases n,
{
    if n <= 0 {
        Seq::empty()
    } else {
        match env_line_port(file_lines[n - 1]) {
            Some(port) => env_ports(file_lines, n - 1).push((port, n)),
            None => env_ports(file_lines, n - 1),
        }
    }
}

/// Ports with the line that all of them are in.
pub open spec fn in_line(ports: Seq<u16>, line: int) -> Seq<(u16, int)> {
    Seq::new(ports.len(), |i: int| (ports[i], line))
}

/// The ports that the first `n` lines of a compose file map, with their lines.
pub open spec fn compose_ports(file_lines: Seq<Seq<char>>, n: int) -> Seq<(u16, int)>
    decreases n,
{
    if n <= 0 {
        Seq::empty()
    } else {
        compose_ports(file_lines, n - 1) + in_line(compose_line_ports(file_lines[n - 1]), n)
    }
}

/// The ports that a file of a source gives, with their lines. Those of package scripts have no
/// line.
pub open spec fn ports_in(source: PortSource, contents: Seq<char>) -> Seq<(u16, int)> {
    match source {
        PortSource::Env => env_ports(lines(contents), lines(contents).len() as int),
        PortSource::PackageScript => Seq::empty(),
        PortSource::EsbuildConfig => esbuild_ports(contents),
        PortSource::ViteConfig => vite_ports(contents),
        PortSource::DockerCompose => compose_ports(lines(contents), lines(contents).len() as int),
    }
}

/// The candidates that ports in a file are.
pub open spec fn file_candidates(
    source: PortSource,
    name: Seq<char>,
    found: Seq<(u16, int)>,
) -> Seq<CandidateModel> {
    Seq::new(
        found.len(),
        |i: int|
            CandidateModel {
                port: found[i].0,
                source,
                detail: name + ":"@ + decimal(found[i].1 as nat),
                confidence: source_confidence(source),
            },
    )
}

/// The candidates that the first `n` files of a source give.
pub open spec fn source_candidates(source: PortSource, files: Seq<FileEntry>, n: int) -> Seq<
    CandidateModel,
>
    decreases n,
{
    if n <= 0 {
        Seq::empty()
    } else {
        let name = source_files(source)[n - 1];
        source_candidates(source, files, n - 1) + match file_named(files, name) {
            FileModel::Text(contents) => file_candidates(source, name, ports_in(source, contents)),
            _ => Seq::empty(),
        }
    }
}

/// The message that a file could not be read.
pub open spec fn read_failure(base: Seq<char>, name: Seq<char>, error: Seq<char>) -> Seq<char> {
    "Failed to read "@ + joined(base, name) + ": "@ + error
}

/// The message that a file could not be understood.
pub open spec fn parse_failure(base: Seq<char>, name: Seq<char>, error: Seq<char>) -> Seq<char> {
    "Failed to parse "@ + joined(base, name) + ": "@ + error
}

/// What went wrong with the first `n` files of a source.
pub open spec fn source_errors(
    source: PortSource,
    base: Seq<char>,
    files: Seq<FileEntry>,
    n: int,
) -> Seq<Seq<char>>
    decreases n,
{
    if n <= 0 {
        Seq::empty()
    } else {
        let name = source_files(source)[n - 1];
        let before = source_errors(source, base, files, n - 1);
        match file_named(files, name) {
            FileModel::Unreadable(error) => before.push(read_failure(base, name, error)),
            _ => before,
        }
    }
}

/// All candidates that the files of a source give.
pub open spec fn all_candidates(source: PortSource, files: Seq<FileEntry>) -> Seq<CandidateModel> {
    source_candidates(source, files, source_files(source).len() as int)
}

/// All that went wrong with the files of a source.
pub open spec fn all_errors(source: PortSource, base: Seq<char>, files: Seq<FileEntry>) -> Seq<
    Seq<char>,
> {
    source_errors(source, base, files, source_files(source).len() as int)
}

/// A message about a file.
fn file_message(what: &str, base_path: &str, name: &str, error: &str) -> (r: String)
    ensures
        r@ == what@ + joined(base_path@, name@) + ": "@ + error@,
{
    let start = concat(what, join(base_path, name).as_str());
    concat(concat(start.as_str(), ": ").as_str(), error)
}

/// The ports that an environment file sets, with their lines.
fn find_env_ports(contents: &str) -> (r: Vec<(u16, usize)>)
    ensures
        placed(r@) == ports_in(PortSource::Env, contents@),
{
    let chars = chars_of(contents);
    let file_lines = split_lines(chars.as_slice());
    let ghost all = lines(contents@);
    let mut found: Vec<(u16, usize)> = Vec::new();
    let mut i: usize = 0;
    proof {
        assert(placed(found@) =~= Seq::empty());
        assert(texts(file_lines@).len() == file_lines@.len());
    }
    while i < file_lines.len()
        invariant
            i <= file_lines@.len(),
            all == texts(file_lines@),
            placed(found@) == env_ports(all, i as int),
        decreases file_lines.len() - i,
    {
        let ghost before = found@;
        let line = text_of(file_lines[i].as_slice());
        proof {
            assert(all[i as int] == line@);
        }
        if let Some(port) = extract_port_from_env_line(line.as_str()) {
            found.push((port, i + 1));
            proof {
                assert(placed(found@) =~= placed(before).push((port, i + 1)));
            }
        }
        i += 1;
    }
    found
}

/// The ports that a compose file maps, with their lines.
fn find_compose_ports(contents: &str) -> (r: Vec<(u16, usize)>)
    ensures
        placed(r@) == ports_in(PortSource::DockerCompose, contents@),
{
    let chars = chars_of(contents);
    let file_lines = split_lines(chars.as_slice());
    let ghost all = lines(contents@);
    let mut found: Vec<(u16, usize)> = Vec::new();
    let mut i: usize = 0;
    proof {
        assert(placed(found@) =~= Seq::empty());
        assert(texts(file_lines@).len() == file_lines@.len());
    }
    while i < file_lines.len()
        invariant
            i <= file_lines@.len(),
            all == texts(file_lines@),
            placed(found@) == compose_ports(all, i as int),
        decreases file_lines.len() - i,
    {
        let line = text_of(file_lines[i].as_slice());
        proof {
            assert(all[i as int] == line@);
        }
        let ports = detect_ports_in_compose_line(line.as_str());
        let number: usize = i + 1;
        let ghost start = placed(found@);
        let mut j: usize = 0;
        proof {
            assert(start + in_line(ports@.take(0), i + 1) =~= start);
        }
        while j < ports.len()
            invariant
                number == i + 1,
                j <= ports@.len(),
                placed(found@) == start + in_line(ports@.take(j as int), i + 1),
            decreases ports.len() - j,
        {
            let ghost before = found@;
            found.push((ports[j], number));
            j += 1;
            proof {
                assert(placed(found@) =~= placed(before).push((ports@[j - 1], i + 1)));
                assert(placed(found@) =~= start + in_line(ports@.take(j as int), i + 1));
            }
        }
        proof {
            assert(ports@.take(j as int) =~= ports@);
        }
        i += 1;
    }
    found
}

/// The ports that a file of a source gives, with their lines.
fn find_ports(source: PortSource, contents: &str) -> (r: Vec<(u16, usize)>)
    ensures
        placed(r@) == ports_in(source, contents@),
{
    match source {
        PortSource::Env => find_env_ports(contents),
        PortSource::PackageScript => {
            let none: Vec<(u16, usize)> = Vec::new();
            proof {
                assert(placed(none@) =~= Seq::empty());
            }
            none
        },
        PortSource::EsbuildConfig => detect_ports_in_esbuild_config(contents),
        PortSource::ViteConfig => detect_ports_in_vite_config(contents),
        PortSource::DockerCompose => find_compose_ports(contents),
    }
}

/// Appends the candidates that a file of a source gives.
fn add_file_candidates(
    source: PortSource,
    name: &str,
    contents: &str,
    candidates: &mut Vec<PortCandidate>,
)
    ensures
        candidate_models(final(candidates)@) == candidate_models(old(candidates)@)
            + file_candidates(source, name@, ports_in(source, contents@)),
{
    let found = find_ports(source, contents);
    let ghost all = placed(found@);
    let ghost start = candidate_models(candidates@);
    let mut i: usize = 0;
    proof {
        assert(start + file_candidates(source, name@, all.take(0)) =~= start);
    }
    while i < found.len()
        invariant
            i <= found@.len(),
            all == placed(found@),
            candidate_models(candidates@) == start + file_candidates(
                source,
                name@,
                all.take(i as int),
            ),
        decreases found.len() - i,
    {
        let ghost before = candidates@;
        let number = write_decimal(found[i].1 as u64);
        let detail = concat(concat(name, ":").as_str(), number.as_str());
        let candidate = PortCandidate {
            port: found[i].0,
            source,
            detail,
            confidence: confidence_of(source),
        };
        candidates.push(candidate);
        i += 1;
        proof {
            assert(all[i - 1] == (found@[i - 1].0, found@[i - 1].1 as int));
            assert(candidate_models(candidates@) =~= candidate_models(before).push(candidate@));
            assert(candidate_models(candidates@) =~= start + file_candidates(
                source,
                name@,
                all.take(i as int),
            ));
        }
    }
    proof {
        assert(all.take(i as int) =~= all);
    }
}

/// The candidates that the files of a source give. What goes wrong is appended to `errors`.
fn detect_from_files(
    source: PortSource,
    base_path: &str,
    files: &[FileEntry],
    errors: &mut Vec<String>,
) -> (r: Vec<PortCandidate>)
    ensures
        candidate_models(r@) == all_candidates(source, files@),
        strings(final(errors)@) == strings(old(errors)@) + all_errors(source, base_path@, files@),
{
    let names = list_source_files(source);
    let ghost all = source_files(source);
    let ghost start = strings(errors@);
    let mut candidates: Vec<PortCandidate> = Vec::new();
    let mut i: usize = 0;
    proof {
        assert(strings(names@).len() == names@.len());
        assert(candidate_models(candidates@) =~= Seq::empty());
        assert(start + source_errors(source, base_path@, files@, 0) =~= start);
    }
    while i < names.len()
        invariant
            i <= names@.len(),
            all == source_files(source),
            all == strings(names@),
            candidate_models(candidates@) == source_candidates(source, files@, i as int),
            strings(errors@) == start + source_errors(source, base_path@, files@, i as int),
        decreases names.len() - i,
    {
        let name = names[i].as_str();
        let ghost before = errors@;
        proof {
            assert(all[i as int] == name@);
        }
        match find_entry(files, name) {
            Some(entry) => match &entry.contents {
                FileContents::Text(contents) => {
                    add_file_candidates(source, name, contents.as_str(), &mut candidates);
                },
                FileContents::Unreadable(error) => {
                    errors.push(file_message("Failed to read ", base_path, name, error.as_str()));
                    proof {
                        let message = read_failure(base_path@, name@, error@);
                        assert(strings(errors@) =~= strings(before).push(message));
                        assert(strings(errors@) =~= start + source_errors(
                            source,
                            base_path@,
                            files@,
                            i + 1,
                        ));
                        assert(candidate_models(candidates@) =~= source_candidates(
                            source,
                            files@,
                            i + 1,
                        ));
                    }
                },
            },
            None => {
                proof {
                    assert(candidate_models(candidates@) =~= source_candidates(
                        source,
                        files@,
                        i + 1,
                    ));
                }
            },
        }
        i += 1;
    }
    candidates
}

/// The candidates that environment files give. What goes wrong is appended to `errors`.
pub fn detect_from_env_files(
    base_path: &str,
    files: &[FileEntry],
    errors: &mut Vec<String>,
) -> (r: Vec<PortCandidate>)
    ensures
        candidate_models(r@) == all_candidates(PortSource::Env, files@),
        strings(final(errors)@) == strings(old(errors)@) + all_errors(
            PortSource::Env,
            base_path@,
            files@,
        ),
{
    detect_from_files(PortSource::Env, base_path, files, errors)
}

/// The candidates that esbuild configurations give. What goes wrong is appended to `errors`.
pub fn detect_from_esbuild_config_files(
    base_path: &str,
    files: &[FileEntry],
    errors: &mut Vec<String>,
) -> (r: Vec<PortCandidate>)
    ensures
        candidate_models(r@) == all_candidates(PortSource::EsbuildConfig, files@),
        strings(final(errors)@) == strings(old(errors)@) + all_errors(
            PortSource::EsbuildConfig,
            base_path@,
            files@,
        ),
{
    detect_from_files(PortSource::EsbuildConfig, base_path, files, errors)
}

/// The candidates that Vite configurations give. What goes wrong is appended to `errors`.
pub fn detect_from_vite_config_files(
    base_path: &str,
    files: &[FileEntry],
    errors: &mut Vec<String>,
) -> (r: Vec<PortCandidate>)
    ensures
        candidate_models(r@) == all_candidates(PortSource::ViteConfig, files@),
        strings(final(errors)@) == strings(old(errors)@) + all_errors(
            PortSource::ViteConfig,
            base_path@,
            files@,
        ),
{
    detect_from_files(PortSource::ViteConfig, base_path, files, errors)
}

/// The candidates that compose files give. What goes wrong is appended to `errors`.
pub fn detect_from_docker_compose_files(
    base_path: &str,
    files: &[FileEntry],
    errors: &mut Vec<String>,
) -> (r: Vec<PortCandidate>)
    ensures
        candidate_models(r@) == all_candidates(PortSource::DockerCompose, files@),
        strings(final(errors)@) == strings(old(errors)@) + all_errors(
            PortSource::DockerCompose,
            base_path@,
            files@,
        ),
{
    detect_from_files(PortSource::DockerCompose, base_path, files, errors)
}

/// The candidates that ports in a script are.
pub open spec fn script_candidates(key: Seq<char>, ports: Seq<u16>) -> Seq<CandidateModel> {
    Seq::new(
        ports.len(),
        |i: int|
            CandidateModel {
                port: ports[i],
                source: PortSource::PackageScript,
                detail: "package.json:scripts."@ + key,
                confidence: source_confidence(PortSource::PackageScript),
            },
    )
}

/// The candidates that a script, where there is one, gives.
pub open spec fn optional_script_candidates(key: Seq<char>, script: Option<Seq<char>>) -> Seq<
    CandidateModel,
> {
    match script {
        Some(script) => script_candidates(key, script_ports(script)),
        None => Seq::empty(),
    }
}

/// The candidates that the scripts of a package give.
pub open spec fn manifest_candidates(manifest: ManifestModel) -> Seq<CandidateModel> {
    optional_script_candidates("dev"@, manifest.dev) + optional_script_candidates(
        "start"@,
        manifest.start,
    ) + optional_script_candidates("serve"@, manifest.serve)
}

/// The candidates that a directory's `package.json` gives.
pub open spec fn package_candidates(files: Seq<FileEntry>) -> Seq<CandidateModel> {
    match file_named(files, "package.json"@) {
        FileModel::Text(contents) => match manifest_in(contents) {
            Ok(manifest) => manifest_candidates(manifest),
            Err(_) => Seq::empty(),
        },
        _ => Seq::empty(),
    }
}

/// What went wrong with a directory's `package.json`.
pub open spec fn package_errors(base: Seq<char>, files: Seq<FileEntry>) -> Seq<Seq<char>> {
    match file_named(files, "package.json"@) {
        FileModel::Missing => Seq::empty(),
        FileModel::Unreadable(error) => seq![read_failure(base, "package.json"@, error)],
        FileModel::Text(contents) => match manifest_in(contents) {
            Ok(_) => Seq::empty(),
            Err(error) => seq![parse_failure(base, "package.json"@, error)],
        },
    }
}

/// Appends the candidates that a script, where there is one, gives.
fn add_script_candidates(
    key: &str,
    script: &Option<String>,
    candidates: &mut Vec<PortCandidate>,
)
    ensures
        candidate_models(final(candidates)@) == candidate_models(old(candidates)@)
            + optional_script_candidates(key@, optional(*script)),
{
    let script = match script {
        Some(script) => script,
        None => {
            proof {
                assert(candidate_models(candidates@) =~= candidate_models(candidates@)
                    + Seq::empty());
            }
            return;
        },
    };
    let ports = detect_ports_in_script(script.as_str());
    let ghost start = candidate_models(candidates@);
    let mut i: usize = 0;
    proof {
        assert(start + script_candidates(key@, ports@.take(0)) =~= start);
    }
    while i < ports.len()
        invariant
            i <= ports@.len(),
            candidate_models(candidates@) == start + script_candidates(
                key@,
                ports@.take(i as int),
            ),
        decreases ports.len() - i,
    {
        let ghost before = candidates@;
        let candidate = PortCandidate {
            port: ports[i],
            source: PortSource::PackageScript,
            detail: concat("package.json:scripts.", key),
            confidence: confidence_of(PortSource::PackageScript),
        };
        candidates.push(candidate);
        i += 1;
        proof {
            assert(candidate_models(candidates@) =~= candidate_models(before).push(candidate@));
            assert(candidate_models(candidates@) =~= start + script_candidates(
                key@,
                ports@.take(i as int),
            ));
        }
    }
    proof {
        assert(ports@.take(i as int) =~= ports@);
    }
}

/// The candidates that the scripts of a package give.
pub fn detect_from_manifest(manifest: &PackageManifest) -> (r: Vec<PortCandidate>)
    ensures
        candidate_models(r@) == manifest_candidates(manifest@),
{
    let mut candidates: Vec<PortCandidate> = Vec::new();
    proof {
        assert(candidate_models(candidates@) =~= Seq::empty());
    }
    add_script_candidates("dev", &manifest.dev, &mut candidates);
    add_script_candidates("start", &manifest.start, &mut candidates);
    add_script_candidates("serve", &manifest.serve, &mut candidates);
    proof {
        assert(candidate_models(candidates@) =~= manifest_candidates(manifest@));
    }
    candidates
}

/// The candidates that a `package.json` gives. What goes wrong is appended to `errors`.
pub fn detect_from_package_json(
    base_path: &str,
    files: &[FileEntry],
    errors: &mut Vec<String>,
) -> (r: Vec<PortCandidate>)
    ensures
        candidate_models(r@) == package_candidates(files@),
        strings(final(errors)@) == strings(old(errors)@) + package_errors(base_path@, files@),
{
    let ghost start = errors@;
    let none: Vec<PortCandidate> = Vec::new();
    proof {
        assert(candidate_models(none@) =~= Seq::empty());
        assert(strings(errors@) =~= strings(errors@) + Seq::empty());
    }
    let entry = match find_entry(files, "package.json") {
        Some(entry) => entry,
        None => {
            return none;
        },
    };
    match &entry.contents {
        FileContents::Text(contents) => match read_package_manifest(contents.as_str()) {
            Ok(manifest) => detect_from_manifest(&manifest),
            Err(error) => {
                errors.push(
                    file_message("Failed to parse ", base_path, "package.json", error.as_str()),
                );
                proof {
                    assert(strings(errors@) =~= strings(start) + package_errors(
                        base_path@,
                        files@,
                    ));
                }
                none
            },
        },
        FileContents::Unreadable(error) => {
            errors.push(
                file_message("Failed to read ", base_path, "package.json", error.as_str()),
            );
            proof {
                assert(strings(errors@) =~= strings(start) + package_errors(base_path@, files@));
            }
            none
        },
    }
}

/// The programs that install and run packages.
#[derive(Debug, Clone, Copy, PartialEq, Eq, Structural)]
pub enum PackageManager {
    Npm,
    Pnpm,
    Yarn,
    Bun,
}

/// The lock files by which package managers are told apart.
pub fn list_lock_files() -> (r: Vec<String>)
    ensures
        strings(r@) == seq!["pnpm-lock.yaml"@, "yarn.lock"@, "bun.lockb"@, "bun.lock"@],
{
    let r = vec![
        "pnpm-lock.yaml".to_owned(),
        "yarn.lock".to_owned(),
        "bun.lockb".to_owned(),
        "bun.lock".to_owned(),
    ];
    proof {
        assert(strings(r@) =~= seq!["pnpm-lock.yaml"@, "yarn.lock"@, "bun.lockb"@, "bun.lock"@]);
    }
    r
}

/// The package manager that a directory is for, by its lock file.
pub open spec fn package_manager(files: Seq<FileEntry>) -> PackageManager {
    if has_file(files, "pnpm-lock.yaml"@) {
        PackageManager::Pnpm
    } else if has_file(files, "yarn.lock"@) {
        PackageManager::Yarn
    } else if has_file(files, "bun.lockb"@) || has_file(files, "bun.lock"@) {
        PackageManager::Bun
    } else {
        PackageManager::Npm
    }
}

/// The package manager that a directory is for.
pub fn detect_package_manager(files: &[FileEntry]) -> (r: PackageManager)
    ensures
        r == package_manager(files@),
{
    if contains_file(files, "pnpm-lock.yaml") {
        return PackageManager::Pnpm;
    }
    if contains_file(files, "yarn.lock") {
        return PackageManager::Yarn;
    }
    if contains_file(files, "bun.lockb") || contains_file(files, "bun.lock") {
        return PackageManager::Bun;
    }
    PackageManager::Npm
}

/// The command with which a package manager runs a script.
pub open spec fn run_command(manager: PackageManager, key: Seq<char>) -> Seq<char> {
    match manager {
        PackageManager::Npm => "npm run "@ + key,
        PackageManager::Pnpm => "pnpm run "@ + key,
        PackageManager::Yarn => "yarn "@ + key,
        PackageManager::Bun => "bun run "@ + key,
    }
}

/// The command with which a package manager runs a script.
pub fn command_for_package_manager(package_manager: PackageManager, script_key: &str) -> (r: String)
    ensures
        r@ == run_command(package_manager, script_key@),
{
    match package_manager {
        PackageManager::Npm => concat("npm run ", script_key),
        PackageManager::Pnpm => concat("pnpm run ", script_key),
        PackageManager::Yarn => concat("yarn ", script_key),
        PackageManager::Bun => concat("bun run ", script_key),
    }
}

/// Whether there is a script that does something.
pub open spec fn is_usable(script: Option<Seq<char>>) -> bool {
    match script {
        Some(script) => trimmed(script).len() > 0,
        None => false,
    }
}

/// The script with which a package is best started.
pub open spec fn preferred_script(manifest: ManifestModel) -> Option<Seq<char>> {
    if is_usable(manifest.dev) {
        Some("dev"@)
    } else if is_usable(manifest.start) {
        Some("start"@)
    } else if is_usable(manifest.serve) {
        Some("serve"@)
    } else {
        None
    }
}

/// Whether there is a script that does something.
fn script_is_usable(script: &Option<String>) -> (r: bool)
    ensures
        r == is_usable(optional(*script)),
{
    match script {
        Some(script) => {
            let chars = chars_of(script.as_str());
            trim(chars.as_slice()).len() > 0
        },
        None => false,
    }
}

/// The script with which a package is best started.
pub fn preferred_start_script_key(manifest: &PackageManifest) -> (r: Option<&'static str>)
    ensures
        optional_str(r) == preferred_script(manifest@),
{
    if script_is_usable(&manifest.dev) {
        Some("dev")
    } else if script_is_usable(&manifest.start) {
        Some("start")
    } else if script_is_usable(&manifest.serve) {
        Some("serve")
    } else {
        None
    }
}

/// The command that starts a package with this manifest.
pub open spec fn manifest_command(manifest: ManifestModel, files: Seq<FileEntry>) -> Option<
    Seq<char>,
> {
    match preferred_script(manifest) {
        Some(key) => Some(run_command(package_manager(files), key)),
        None => None,
    }
}

/// The command that starts the project in a directory.
pub open spec fn start_command(files: Seq<FileEntry>) -> Option<Seq<char>> {
    match file_named(files, "package.json"@) {
        FileModel::Text(contents) => match manifest_in(contents) {
            Ok(manifest) => manifest_command(manifest, files),
            Err(_) => None,
        },
        _ => None,
    }
}

/// The command that starts a package with this manifest.
pub fn start_command_for_manifest(manifest: &PackageManifest, files: &[FileEntry]) -> (r: Option<
    String,
>)
    ensures
        optional(r) == manifest_command(manifest@, files@),
{
    match preferred_start_script_key(manifest) {
        Some(key) => Some(
            command_for_package_manager(detect_package_manager(files), key),
        ),
        None => None,
    }
}

/// The command that starts the project in a directory.
pub fn detect_project_start_command_for_path(files: &[FileEntry]) -> (r: Option<String>)
    ensures
        optional(r) == start_command(files@),
{
    let entry = match find_entry(files, "package.json") {
        Some(entry) => entry,
        None => {
            return None;
        },
    };
    match &entry.contents {
        FileContents::Text(contents) => match read_package_manifest(contents.as_str()) {
            Ok(manifest) => start_command_for_manifest(&manifest, files),
            Err(_) => None,
        },
        FileContents::Unreadable(_) => None,
    }
}

/// What was found out about a project's port and start command.
#[derive(Debug)]
pub struct PortDetectionResult {
    pub best_port: Option<u16>,
    pub candidates: Vec<PortCandidate>,
    pub errors: Vec<String>,
    pub suggested_start_command: Option<String>,
}

/// The candidates that a directory gives, in the order in which they are found.
pub open spec fn directory_candidates(files: Seq<FileEntry>) -> Seq<CandidateModel> {
    all_candidates(PortSource::Env, files) + package_candidates(files) + all_candidates(
        PortSource::EsbuildConfig,
        files,
    ) + all_candidates(PortSource::ViteConfig, files) + all_candidates(
        PortSource::DockerCompose,
        files,
    )
}

/// What went wrong in a directory.
pub open spec fn directory_errors(base: Seq<char>, files: Seq<FileEntry>) -> Seq<Seq<char>> {
    all_errors(PortSource::Env, base, files) + package_errors(base, files) + all_errors(
        PortSource::EsbuildConfig,
        base,
        files,
    ) + all_errors(PortSource::ViteConfig, base, files) + all_errors(
        PortSource::DockerCompose,
        base,
        files,
    )
}

/// The port of the first candidate.
pub open spec fn first_port(candidates: Seq<CandidateModel>) -> Option<u16> {
    if candidates.len() > 0 {
        Some(candidates[0].port)
    } else {
        None
    }
}

/// Appends the candidates of one list to another.
fn append_candidates(all: &mut Vec<PortCandidate>, more: &Vec<PortCandidate>)
    ensures
        candidate_models(final(all)@) == candidate_models(old(all)@) + candidate_models(more@),
{
    let ghost start = candidate_models(all@);
    let ghost added = candidate_models(more@);
    let mut i: usize = 0;
    proof {
        assert(start + added.take(0) =~= start);
    }
    while i < more.len()
        invariant
            i <= more@.len(),
            added == candidate_models(more@),
            candidate_models(all@) == start + added.take(i as int),
        decreases more.len() - i,
    {
        let ghost before = all@;
        all.push(more[i].clone());
        i += 1;
        proof {
            assert(candidate_models(all@) =~= candidate_models(before).push(added[i - 1]));
            assert(candidate_models(all@) =~= start + added.take(i as int));
        }
    }
    proof {
        assert(added.take(i as int) =~= added);
    }
}

/// What the files in a directory say about the project's port and start command. The path has
/// to resolve to a directory; `files` are what was found in it.
pub fn detect_project_ports_for_path(resolution: &PathResolution, files: &[FileEntry]) -> (r: Result<
    PortDetectionResult,
    String,
>)
    ensures
        match r {
            Ok(result) => {
                &&& normalized(*resolution) matches Ok(base)
                &&& is_resolved_directory(*resolution)
                &&& is_ranking(candidate_models(result.candidates@), directory_candidates(files@))
                &&& result.best_port == first_port(candidate_models(result.candidates@))
                &&& strings(result.errors@) == directory_errors(base, files@)
                &&& optional(result.suggested_start_command) == start_command(files@)
            },
            Err(message) => match normalized(*resolution) {
                Err(error) => message@ == error,
                Ok(_) => !is_resolved_directory(*resolution) && message@
                    == "Project path must be an existing directory"@,
            },
        },
{
    let base = match normalize_path(resolution) {
        Ok(base) => base,
        Err(error) => {
            return Err(error);
        },
    };
    if !is_directory(resolution) {
        return Err("Project path must be an existing directory".to_owned());
    }
    let mut errors: Vec<String> = Vec::new();
    let mut all: Vec<PortCandidate> = Vec::new();
    proof {
        assert(strings(errors@) =~= Seq::empty());
        assert(candidate_models(all@) =~= Seq::empty());
    }
    let found = detect_from_env_files(base.as_str(), files, &mut errors);
    append_candidates(&mut all, &found);
    let found = detect_from_package_json(base.as_str(), files, &mut errors);
    append_candidates(&mut all, &found);
    let found = detect_from_esbuild_config_files(base.as_str(), files, &mut errors);
    append_candidates(&mut all, &found);
    let found = detect_from_vite_config_files(base.as_str(), files, &mut errors);
    append_candidates(&mut all, &found);
    let found = detect_from_docker_compose_files(base.as_str(), files, &mut errors);
    append_candidates(&mut all, &found);
    proof {
        assert(strings(errors@) =~= directory_errors(base@, files@));
        assert(candidate_models(all@) =~= directory_candidates(files@));
    }
    let suggested_start_command = detect_project_start_command_for_path(files);
    let candidates = rank_and_dedupe_candidates(all.as_slice());
    let best_port = if candidates.len() > 0 {
        Some(candidates[0].port)
    } else {
        None
    };
    Ok(PortDetectionResult { best_port, candidates, errors, suggested_start_command })
}

} // verus!
