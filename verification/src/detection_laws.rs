//! Which ports and commands the files of a directory suggest.

use vstd::prelude::*;

use crate::detection::{
    all_candidates, all_errors, compose_ports, directory_candidates, directory_errors, entry_from,
    env_ports, file_candidates, file_named, first_port, has_entry, has_file, in_line,
    manifest_candidates, manifest_command, package_candidates, package_errors, package_manager,
    ports_in, preferred_script, run_command, source_candidates, source_confidence, source_errors,
    source_files, start_command, FileContents, FileEntry, FileModel, PackageManager,
};
use crate::manifest::{manifest_in, package_of, JsonModel, ManifestModel};
use crate::numbers::decimal;
use crate::paths::joined;
use crate::ports::{compose_line_ports, env_line_port, esbuild_ports, script_ports, vite_ports};
use crate::project_laws::is_filled_in;
use crate::ranking::{
    best_for_port, chosen_at, has_candidate, is_chosen, is_ranking, CandidateModel, PortSource,
};
use crate::selection::{
    lemma_picked_none, lemma_picked_push, lemma_strung_push, lemma_strung_values, picked,
};
use crate::text::lines;
use crate::text_laws::law_blank_is_white_space;

verus! {

/// The first entry under a name, searched from a position on.
proof fn lemma_entry_from(files: Seq<FileEntry>, name: Seq<char>, i: int)
    requires
        0 <= i <= files.len(),
    ensures
        match entry_from(files, name, i) {
            Some(k) => i <= k < files.len() && files[k].name@ == name && forall|j: int|
                i <= j < k ==> (#[trigger] files[j]).name@ != name,
            None => forall|j: int| i <= j < files.len() ==> (#[trigger] files[j]).name@ != name,
        },
    decreases files.len() - i,
{
    if i < files.len() && files[i].name@ != name {
        lemma_entry_from(files, name, i + 1);
    }
}

/// What is in a directory under a name is what its first entry with that name says.
pub proof fn law_file_is_found_by_name(files: Seq<FileEntry>, name: Seq<char>)
    ensures
        has_entry(files, name) <==> exists|k: int|
            0 <= k < files.len() && (#[trigger] files[k]).name@ == name,
        file_named(files, name) == FileModel::Missing <==> !has_entry(files, name),
        forall|k: int|
            0 <= k < files.len() && (#[trigger] files[k]).name@ == name && (forall|j: int|
                0 <= j < k ==> (#[trigger] files[j]).name@ != name) ==> {
                &&& has_file(files, name) == files[k].is_file
                &&& match files[k].contents {
                    FileContents::Text(text) => file_named(files, name) == FileModel::Text(text@),
                    FileContents::Unreadable(error) => file_named(files, name)
                        == FileModel::Unreadable(error@),
                }
            },
        has_file(files, name) ==> has_entry(files, name),
{
    lemma_entry_from(files, name, 0);
    let found = entry_from(files, name, 0);
    if found is Some {
        assert(files[found->0].name@ == name);
    }
    assert forall|k: int|
        0 <= k < files.len() && (#[trigger] files[k]).name@ == name && (forall|j: int|
            0 <= j < k ==> (#[trigger] files[j]).name@ != name) implies found == Some(k) by {
        if found is Some {
            if found->0 < k {
                assert(files[found->0].name@ != name);
            }
        }
    }
}

/// What each line of an environment file gives, with its number.
pub open spec fn env_line(file_lines: Seq<Seq<char>>, k: int) -> Seq<(u16, int)> {
    match env_line_port(file_lines[k]) {
        Some(port) => seq![(port, k + 1)],
        None => Seq::empty(),
    }
}

/// What each line of a compose file maps, with its number.
pub open spec fn compose_line(file_lines: Seq<Seq<char>>, k: int) -> Seq<(u16, int)> {
    compose_line_ports(file_lines[k]).map_values(|port: u16| (port, k + 1))
}

/// The ports of the first lines of an environment file.
proof fn lemma_env_lines(file_lines: Seq<Seq<char>>, n: int)
    requires
        0 <= n <= file_lines.len(),
    ensures
        env_ports(file_lines, n) == Seq::new(
            file_lines.len(),
            |k: int| env_line(file_lines, k),
        ).take(n).flatten(),
    decreases n,
{
    let parts = Seq::new(file_lines.len(), |k: int| env_line(file_lines, k));
    if n > 0 {
        lemma_env_lines(file_lines, n - 1);
        lemma_strung_push(parts, n);
        assert(env_ports(file_lines, n) =~= env_ports(file_lines, n - 1) + env_line(
            file_lines,
            n - 1,
        ));
    } else {
        assert(parts.take(0).len() == 0);
        assert(parts.take(0).flatten() =~= Seq::empty());
    }
}

/// The ports of the first lines of a compose file.
proof fn lemma_compose_lines(file_lines: Seq<Seq<char>>, n: int)
    requires
        0 <= n <= file_lines.len(),
    ensures
        compose_ports(file_lines, n) == Seq::new(
            file_lines.len(),
            |k: int| compose_line(file_lines, k),
        ).take(n).flatten(),
    decreases n,
{
    let parts = Seq::new(file_lines.len(), |k: int| compose_line(file_lines, k));
    if n > 0 {
        lemma_compose_lines(file_lines, n - 1);
        lemma_strung_push(parts, n);
        assert(in_line(compose_line_ports(file_lines[n - 1]), n) =~= compose_line(
            file_lines,
            n - 1,
        ));
    } else {
        assert(parts.take(0).len() == 0);
        assert(parts.take(0).flatten() =~= Seq::empty());
    }
}

/// An environment file and a compose file give what their lines give, line by line, with the
/// number of the line; the configuration of a build tool gives what is found in it; package scripts
/// are not read line by line.
pub proof fn law_files_are_read_line_by_line(contents: Seq<char>)
    ensures
        ({
            let file_lines = lines(contents);
            &&& ports_in(PortSource::Env, contents) == Seq::new(
                file_lines.len(),
                |k: int| env_line(file_lines, k),
            ).flatten()
            &&& forall|found: (u16, int)| #[trigger]
                ports_in(PortSource::Env, contents).contains(found) <==> 1 <= found.1
                    <= file_lines.len() && env_line_port(file_lines[found.1 - 1]) == Some(found.0)
            &&& ports_in(PortSource::DockerCompose, contents) == Seq::new(
                file_lines.len(),
                |k: int| compose_line(file_lines, k),
            ).flatten()
            &&& forall|found: (u16, int)| #[trigger]
                ports_in(PortSource::DockerCompose, contents).contains(found) <==> 1 <= found.1
                    <= file_lines.len() && compose_line_ports(file_lines[found.1 - 1]).contains(
                    found.0,
                )
            &&& ports_in(PortSource::EsbuildConfig, contents) == esbuild_ports(contents)
            &&& ports_in(PortSource::ViteConfig, contents) == vite_ports(contents)
            &&& ports_in(PortSource::PackageScript, contents).len() == 0
        }),
{
    let file_lines = lines(contents);
    let n = file_lines.len() as int;
    let env = Seq::new(file_lines.len(), |k: int| env_line(file_lines, k));
    let compose = Seq::new(file_lines.len(), |k: int| compose_line(file_lines, k));
    assert(env.take(n) =~= env);
    assert(compose.take(n) =~= compose);
    lemma_env_lines(file_lines, n);
    lemma_compose_lines(file_lines, n);
    lemma_strung_values(env, n);
    lemma_strung_values(compose, n);
    let set = ports_in(PortSource::Env, contents);
    let mapped = ports_in(PortSource::DockerCompose, contents);
    assert forall|found: (u16, int)| #[trigger] set.contains(found) <==> 1 <= found.1
        <= file_lines.len() && env_line_port(file_lines[found.1 - 1]) == Some(found.0) by {
        if set.contains(found) {
            let k = choose|k: int| 0 <= k < n && (#[trigger] env[k]).contains(found);
            let part = env_line(file_lines, k);
            assert(part == env[k]);
            let i = choose|i: int| 0 <= i < part.len() && part[i] == found;
            assert(part[i] == (env_line_port(file_lines[k])->0, k + 1));
        }
        if 1 <= found.1 <= file_lines.len() && env_line_port(file_lines[found.1 - 1]) == Some(
            found.0,
        ) {
            let k = found.1 - 1;
            assert(env[k][0] == found);
            assert(env[k].contains(found));
        }
    }
    assert forall|found: (u16, int)| #[trigger] mapped.contains(found) <==> 1 <= found.1
        <= file_lines.len() && compose_line_ports(file_lines[found.1 - 1]).contains(found.0) by {
        if mapped.contains(found) {
            let k = choose|k: int| 0 <= k < n && (#[trigger] compose[k]).contains(found);
            let part = compose_line(file_lines, k);
            assert(part == compose[k]);
            let i = choose|i: int| 0 <= i < part.len() && part[i] == found;
            assert(part[i] == (compose_line_ports(file_lines[k])[i], k + 1));
            assert(compose_line_ports(file_lines[k])[i] == found.0);
        }
        if 1 <= found.1 <= file_lines.len() && compose_line_ports(
            file_lines[found.1 - 1],
        ).contains(found.0) {
            let k = found.1 - 1;
            let ports = compose_line_ports(file_lines[k]);
            let i = choose|i: int| 0 <= i < ports.len() && ports[i] == found.0;
            assert(compose[k][i] == found);
            assert(compose[k].contains(found));
        }
    }
}

/// The candidates that the file with a name gives for a source.
pub open spec fn candidates_in_file(
    source: PortSource,
    files: Seq<FileEntry>,
    name: Seq<char>,
) -> Seq<CandidateModel> {
    match file_named(files, name) {
        FileModel::Text(contents) => ports_in(source, contents).map_values(
            |found: (u16, int)|
                CandidateModel {
                    port: found.0,
                    source,
                    detail: name + ":"@ + decimal(found.1 as nat),
                    confidence: source_confidence(source),
                },
        ),
        _ => Seq::empty(),
    }
}

/// The candidates of the first files of a source.
proof fn lemma_candidates_by_file(source: PortSource, files: Seq<FileEntry>, n: int)
    requires
        0 <= n <= source_files(source).len(),
    ensures
        source_candidates(source, files, n) == source_files(source).map_values(
            |name: Seq<char>| candidates_in_file(source, files, name),
        ).take(n).flatten(),
    decreases n,
{
    let parts = source_files(source).map_values(
        |name: Seq<char>| candidates_in_file(source, files, name),
    );
    if n > 0 {
        lemma_candidates_by_file(source, files, n - 1);
        lemma_strung_push(parts, n);
        let name = source_files(source)[n - 1];
        if let FileModel::Text(contents) = file_named(files, name) {
            assert(file_candidates(source, name, ports_in(source, contents))
                =~= candidates_in_file(source, files, name));
        }
    } else {
        assert(parts.take(0).len() == 0);
        assert(parts.take(0).flatten() =~= Seq::empty());
    }
}

/// Every file of a source that can be read counts, in the order of its names: the candidates of a
/// source are all that its files give.
pub proof fn law_every_file_of_a_source_counts(source: PortSource, files: Seq<FileEntry>)
    ensures
        all_candidates(source, files) == source_files(source).map_values(
            |name: Seq<char>| candidates_in_file(source, files, name),
        ).flatten(),
        forall|candidate: CandidateModel| #[trigger]
            all_candidates(source, files).contains(candidate) <==> exists|k: int|
                0 <= k < source_files(source).len() && candidates_in_file(
                    source,
                    files,
                    #[trigger] source_files(source)[k],
                ).contains(candidate),
{
    let names = source_files(source);
    let n = names.len() as int;
    let parts = names.map_values(|name: Seq<char>| candidates_in_file(source, files, name));
    assert(parts.take(n) =~= parts);
    lemma_candidates_by_file(source, files, n);
    lemma_strung_values(parts, n);
    let all = all_candidates(source, files);
    assert forall|candidate: CandidateModel| #[trigger] all.contains(candidate) <==> exists|k: int|
        0 <= k < names.len() && candidates_in_file(source, files, #[trigger] names[k]).contains(
            candidate,
        ) by {
        if all.contains(candidate) {
            let k = choose|k: int| 0 <= k < n && (#[trigger] parts[k]).contains(candidate);
            assert(candidates_in_file(source, files, names[k]).contains(candidate));
        }
        if exists|k: int|
            0 <= k < names.len() && candidates_in_file(source, files, #[trigger] names[k]).contains(
                candidate,
            ) {
            let k = choose|k: int|
                0 <= k < names.len() && candidates_in_file(
                    source,
                    files,
                    #[trigger] names[k],
                ).contains(candidate);
            assert(parts[k].contains(candidate));
        }
    }
}

/// What is said of the file with a name that could not be read.
pub open spec fn read_error(
    base: Seq<char>,
    files: Seq<FileEntry>,
    name: Seq<char>,
) -> Option<Seq<char>> {
    match file_named(files, name) {
        FileModel::Unreadable(error) => Some(
            "Failed to read "@ + joined(base, name) + ": "@ + error,
        ),
        _ => None,
    }
}

/// What went wrong with the first files of a source.
proof fn lemma_errors_by_file(source: PortSource, base: Seq<char>, files: Seq<FileEntry>, n: int)
    requires
        0 <= n <= source_files(source).len(),
    ensures
        source_errors(source, base, files, n) == picked(
            source_files(source).take(n),
            |name: Seq<char>| read_error(base, files, name),
        ),
    decreases n,
{
    let told = |name: Seq<char>| read_error(base, files, name);
    if n > 0 {
        lemma_errors_by_file(source, base, files, n - 1);
        lemma_picked_push(source_files(source), told, n);
    } else {
        lemma_picked_none(source_files(source), told);
    }
}

/// Every file that is there but could not be read is told of, and no other.
pub proof fn law_every_unreadable_file_is_told_of(
    source: PortSource,
    base: Seq<char>,
    files: Seq<FileEntry>,
)
    ensures
        all_errors(source, base, files) == picked(
            source_files(source),
            |name: Seq<char>| read_error(base, files, name),
        ),
{
    let names = source_files(source);
    assert(names.take(names.len() as int) =~= names);
    lemma_errors_by_file(source, base, files, names.len() as int);
}

/// What two sequences hold together.
proof fn lemma_either<A>(a: Seq<A>, b: Seq<A>, x: A)
    ensures
        (a + b).contains(x) <==> a.contains(x) || b.contains(x),
{
    let all = a + b;
    if a.contains(x) {
        let k = choose|k: int| 0 <= k < a.len() && a[k] == x;
        assert(all[k] == x);
    }
    if b.contains(x) {
        let k = choose|k: int| 0 <= k < b.len() && b[k] == x;
        assert(all[k + a.len()] == x);
    }
    if all.contains(x) {
        let k = choose|k: int| 0 <= k < all.len() && all[k] == x;
        if k < a.len() {
            assert(a[k] == x);
        } else {
            assert(b[k - a.len()] == x);
        }
    }
}

/// Every source counts: the candidates of a directory, and what went wrong there, are those of
/// environment files, of the package, of both build tools and of compose files, and no others.
pub proof fn law_every_source_counts(
    base: Seq<char>,
    files: Seq<FileEntry>,
    candidate: CandidateModel,
    error: Seq<char>,
)
    ensures
        directory_candidates(files).contains(candidate) <==> {
            ||| all_candidates(PortSource::Env, files).contains(candidate)
            ||| package_candidates(files).contains(candidate)
            ||| all_candidates(PortSource::EsbuildConfig, files).contains(candidate)
            ||| all_candidates(PortSource::ViteConfig, files).contains(candidate)
            ||| all_candidates(PortSource::DockerCompose, files).contains(candidate)
        },
        directory_errors(base, files).contains(error) <==> {
            ||| all_errors(PortSource::Env, base, files).contains(error)
            ||| package_errors(base, files).contains(error)
            ||| all_errors(PortSource::EsbuildConfig, base, files).contains(error)
            ||| all_errors(PortSource::ViteConfig, base, files).contains(error)
            ||| all_errors(PortSource::DockerCompose, base, files).contains(error)
        },
{
    let a = all_candidates(PortSource::Env, files);
    let b = package_candidates(files);
    let c = all_candidates(PortSource::EsbuildConfig, files);
    let d = all_candidates(PortSource::ViteConfig, files);
    let e = all_candidates(PortSource::DockerCompose, files);
    lemma_either(a, b, candidate);
    lemma_either(a + b, c, candidate);
    lemma_either(a + b + c, d, candidate);
    lemma_either(a + b + c + d, e, candidate);
    let a = all_errors(PortSource::Env, base, files);
    let b = package_errors(base, files);
    let c = all_errors(PortSource::EsbuildConfig, base, files);
    let d = all_errors(PortSource::ViteConfig, base, files);
    let e = all_errors(PortSource::DockerCompose, base, files);
    lemma_either(a, b, error);
    lemma_either(a + b, c, error);
    lemma_either(a + b + c, d, error);
    lemma_either(a + b + c + d, e, error);
}

/// Whether a script of a package names a port under a key.
pub open spec fn script_names(script: Option<Seq<char>>, port: u16) -> bool {
    script is Some && script_ports(script->0).contains(port)
}

/// The candidate for a port that a script under a key names.
pub open spec fn from_script(key: Seq<char>, port: u16) -> CandidateModel {
    CandidateModel {
        port,
        source: PortSource::PackageScript,
        detail: "package.json:scripts."@ + key,
        confidence: 85,
    }
}

/// What one script of a package gives.
proof fn lemma_one_script(key: Seq<char>, script: Option<Seq<char>>, candidate: CandidateModel)
    ensures
        crate::detection::optional_script_candidates(key, script).contains(candidate)
            <==> script_names(script, candidate.port) && candidate == from_script(
            key,
            candidate.port,
        ),
{
    let given = crate::detection::optional_script_candidates(key, script);
    if script is Some {
        let ports = script_ports(script->0);
        if given.contains(candidate) {
            let i = choose|i: int| 0 <= i < given.len() && given[i] == candidate;
            assert(ports[i] == candidate.port);
        }
        if ports.contains(candidate.port) && candidate == from_script(key, candidate.port) {
            let i = choose|i: int| 0 <= i < ports.len() && ports[i] == candidate.port;
            assert(given[i] == candidate);
        }
    }
}

/// The scripts `dev`, `start` and `serve` of a package all count.
pub proof fn law_every_start_script_counts(manifest: ManifestModel, candidate: CandidateModel)
    ensures
        manifest_candidates(manifest).contains(candidate) <==> {
            ||| script_names(manifest.dev, candidate.port) && candidate == from_script(
                "dev"@,
                candidate.port,
            )
            ||| script_names(manifest.start, candidate.port) && candidate == from_script(
                "start"@,
                candidate.port,
            )
            ||| script_names(manifest.serve, candidate.port) && candidate == from_script(
                "serve"@,
                candidate.port,
            )
        },
{
    lemma_one_script("dev"@, manifest.dev, candidate);
    lemma_one_script("start"@, manifest.start, candidate);
    lemma_one_script("serve"@, manifest.serve, candidate);
    let a = crate::detection::optional_script_candidates("dev"@, manifest.dev);
    let b = crate::detection::optional_script_candidates("start"@, manifest.start);
    let c = crate::detection::optional_script_candidates("serve"@, manifest.serve);
    lemma_either(a, b, candidate);
    lemma_either(a + b, c, candidate);
}

/// A `package.json` counts where it can be read and understood; otherwise what is wrong with it is
/// told. A missing one is nothing to tell of.
pub proof fn law_package_counts_or_is_told_of(
    base: Seq<char>,
    files: Seq<FileEntry>,
)
    ensures
        match file_named(files, "package.json"@) {
            FileModel::Missing => package_candidates(files).len() == 0 && package_errors(
                base,
                files,
            ).len() == 0 && start_command(files) is None,
            FileModel::Unreadable(error) => package_candidates(files).len() == 0
                && package_errors(base, files) == seq![
                "Failed to read "@ + joined(base, "package.json"@) + ": "@ + error,
            ] && start_command(files) is None,
            FileModel::Text(contents) => match manifest_in(contents) {
                Ok(manifest) => package_candidates(files) == manifest_candidates(manifest)
                    && package_errors(base, files).len() == 0 && start_command(files)
                    == manifest_command(manifest, files),
                Err(error) => package_candidates(files).len() == 0 && package_errors(base, files)
                    == seq![
                    "Failed to parse "@ + joined(base, "package.json"@) + ": "@ + error,
                ] && start_command(files) is None,
            },
        },
{
}

/// A package is started with the first of the scripts `dev`, `start` and `serve` that is not blank,
/// by the package manager whose lock file is there: pnpm before yarn before bun, and npm where there
/// is none of theirs.
pub proof fn law_start_command_follows_script_and_lock_file(
    manifest: ManifestModel,
    files: Seq<FileEntry>,
)
    ensures
        ({
            let dev = manifest.dev is Some && is_filled_in(manifest.dev->0);
            let start = manifest.start is Some && is_filled_in(manifest.start->0);
            let serve = manifest.serve is Some && is_filled_in(manifest.serve->0);
            let pnpm = has_file(files, "pnpm-lock.yaml"@);
            let yarn = has_file(files, "yarn.lock"@);
            let bun = has_file(files, "bun.lockb"@) || has_file(files, "bun.lock"@);
            &&& dev ==> preferred_script(manifest) == Some("dev"@)
            &&& !dev && start ==> preferred_script(manifest) == Some("start"@)
            &&& !dev && !start && serve ==> preferred_script(manifest) == Some("serve"@)
            &&& !dev && !start && !serve ==> preferred_script(manifest) is None
            &&& preferred_script(manifest) is None <==> manifest_command(manifest, files) is None
            &&& preferred_script(manifest) matches Some(key) ==> {
                &&& pnpm ==> manifest_command(manifest, files) == Some("pnpm run "@ + key)
                &&& !pnpm && yarn ==> manifest_command(manifest, files) == Some("yarn "@ + key)
                &&& !pnpm && !yarn && bun ==> manifest_command(manifest, files) == Some(
                    "bun run "@ + key,
                )
                &&& !pnpm && !yarn && !bun ==> manifest_command(manifest, files) == Some(
                    "npm run "@ + key,
                )
            }
            &&& package_manager(files) is Pnpm <==> pnpm
            &&& package_manager(files) is Yarn <==> !pnpm && yarn
            &&& package_manager(files) is Bun <==> !pnpm && !yarn && bun
        }),
        forall|key: Seq<char>| #[trigger]
            run_command(PackageManager::Npm, key) == "npm run "@ + key && run_command(
                PackageManager::Pnpm,
                key,
            ) == "pnpm run "@ + key && run_command(PackageManager::Yarn, key) == "yarn "@ + key
                && run_command(PackageManager::Bun, key) == "bun run "@ + key,
{
    if manifest.dev is Some {
        law_blank_is_white_space(manifest.dev->0);
    }
    if manifest.start is Some {
        law_blank_is_white_space(manifest.start->0);
    }
    if manifest.serve is Some {
        law_blank_is_white_space(manifest.serve->0);
    }
}

/// What a document says of a package: the text under `name`, and those under `dev`, `start` and
/// `serve` in the object under `scripts`. Anything but a text counts for nothing.
pub proof fn law_package_is_read_by_its_keys(
    members: Map<Seq<char>, JsonModel>,
    scripts: Map<Seq<char>, JsonModel>,
    text: Seq<char>,
)
    ensures
        ({
            let said = package_of(JsonModel::Object(members));
            &&& members.contains_pair("name"@, JsonModel::Text(text)) <==> said.name == Some(text)
            &&& members.contains_pair("scripts"@, JsonModel::Object(scripts)) ==> {
                &&& scripts.contains_pair("dev"@, JsonModel::Text(text)) <==> said.dev == Some(text)
                &&& scripts.contains_pair("start"@, JsonModel::Text(text)) <==> said.start == Some(
                    text,
                )
                &&& scripts.contains_pair("serve"@, JsonModel::Text(text)) <==> said.serve == Some(
                    text,
                )
            }
            &&& !members.contains_key("scripts"@) || !(members["scripts"@] is Object) ==> {
                &&& said.dev is None
                &&& said.start is None
                &&& said.serve is None
            }
        }),
        package_of(JsonModel::Other) == (ManifestModel {
            name: None,
            dev: None,
            start: None,
            serve: None,
        }),
        package_of(JsonModel::Text(text)) == package_of(JsonModel::Other),
{
}

/// How far a source is trusted, and in which files it is looked for.
pub proof fn law_sources()
    ensures
        source_confidence(PortSource::Env) == 95,
        source_confidence(PortSource::PackageScript) == 85,
        source_confidence(PortSource::EsbuildConfig) == 82,
        source_confidence(PortSource::ViteConfig) == 80,
        source_confidence(PortSource::DockerCompose) == 75,
        source_files(PortSource::Env) == seq![
            ".env.local"@,
            ".env.development.local"@,
            ".env.development"@,
            ".env"@,
        ],
        source_files(PortSource::EsbuildConfig) == seq![
            "js"@,
            "mjs"@,
            "cjs"@,
            "ts"@,
            "mts"@,
            "cts"@,
        ].map_values(|ending: Seq<char>| "esbuild.config."@ + ending),
        source_files(PortSource::ViteConfig) == seq![
            "js"@,
            "mjs"@,
            "cjs"@,
            "ts"@,
            "mts"@,
            "cts"@,
        ].map_values(|ending: Seq<char>| "vite.config."@ + ending),
        source_files(PortSource::DockerCompose) == seq![
            "docker-compose.yml"@,
            "docker-compose.yaml"@,
            "compose.yml"@,
            "compose.yaml"@,
        ],
{
    reveal_strlit("js");
    reveal_strlit("mjs");
    reveal_strlit("cjs");
    reveal_strlit("ts");
    reveal_strlit("mts");
    reveal_strlit("cts");
    reveal_strlit("esbuild.config.");
    reveal_strlit("esbuild.config.js");
    reveal_strlit("esbuild.config.mjs");
    reveal_strlit("esbuild.config.cjs");
    reveal_strlit("esbuild.config.ts");
    reveal_strlit("esbuild.config.mts");
    reveal_strlit("esbuild.config.cts");
    reveal_strlit("vite.config.");
    reveal_strlit("vite.config.js");
    reveal_strlit("vite.config.mjs");
    reveal_strlit("vite.config.cjs");
    reveal_strlit("vite.config.ts");
    reveal_strlit("vite.config.mts");
    reveal_strlit("vite.config.cts");
    assert("esbuild.config.js"@ =~= "esbuild.config."@ + "js"@);
    assert("esbuild.config.mjs"@ =~= "esbuild.config."@ + "mjs"@);
    assert("esbuild.config.cjs"@ =~= "esbuild.config."@ + "cjs"@);
    assert("esbuild.config.ts"@ =~= "esbuild.config."@ + "ts"@);
    assert("esbuild.config.mts"@ =~= "esbuild.config."@ + "mts"@);
    assert("esbuild.config.cts"@ =~= "esbuild.config."@ + "cts"@);
    assert("vite.config.js"@ =~= "vite.config."@ + "js"@);
    assert("vite.config.mjs"@ =~= "vite.config."@ + "mjs"@);
    assert("vite.config.cjs"@ =~= "vite.config."@ + "cjs"@);
    assert("vite.config.ts"@ =~= "vite.config."@ + "ts"@);
    assert("vite.config.mts"@ =~= "vite.config."@ + "mts"@);
    assert("vite.config.cts"@ =~= "vite.config."@ + "cts"@);
    assert(source_files(PortSource::EsbuildConfig) =~= seq![
        "js"@,
        "mjs"@,
        "cjs"@,
        "ts"@,
        "mts"@,
        "cts"@,
    ].map_values(|ending: Seq<char>| "esbuild.config."@ + ending));
    assert(source_files(PortSource::ViteConfig) =~= seq![
        "js"@,
        "mjs"@,
        "cjs"@,
        "ts"@,
        "mts"@,
        "cts"@,
    ].map_values(|ending: Seq<char>| "vite.config."@ + ending));
}

/// The candidates of a package are those of `dev`, then those of `start`, then those of `serve`,
/// each in the order in which the script names the ports.
pub proof fn law_start_scripts_come_in_order(
    manifest: ManifestModel,
    dev: Seq<u16>,
    start: Seq<u16>,
    serve: Seq<u16>,
)
    requires
        dev == (if manifest.dev is Some {
            script_ports(manifest.dev->0)
        } else {
            Seq::empty()
        }),
        start == (if manifest.start is Some {
            script_ports(manifest.start->0)
        } else {
            Seq::empty()
        }),
        serve == (if manifest.serve is Some {
            script_ports(manifest.serve->0)
        } else {
            Seq::empty()
        }),
    ensures
        ({
            let all = manifest_candidates(manifest);
            &&& all.len() == dev.len() + start.len() + serve.len()
            &&& forall|i: int|
                0 <= i < dev.len() ==> all[i] == from_script("dev"@, #[trigger] dev[i])
            &&& forall|i: int|
                0 <= i < start.len() ==> all[dev.len() + i] == from_script(
                    "start"@,
                    #[trigger] start[i],
                )
            &&& forall|i: int|
                0 <= i < serve.len() ==> all[dev.len() + start.len() + i] == from_script(
                    "serve"@,
                    #[trigger] serve[i],
                )
        }),
{
}

/// The place of a source where confidence is equal.
pub open spec fn place_of(source: PortSource) -> int {
    match source {
        PortSource::Env => 0,
        PortSource::PackageScript => 1,
        PortSource::EsbuildConfig => 2,
        PortSource::ViteConfig => 3,
        PortSource::DockerCompose => 4,
    }
}

/// Whether a candidate is better than another by its confidence, or with equal confidence by its
/// source.
pub open spec fn is_better(a: CandidateModel, b: CandidateModel) -> bool {
    ||| a.confidence > b.confidence
    ||| a.confidence == b.confidence && place_of(a.source) < place_of(b.source)
}

/// The candidates of a ranking stand by confidence, then by source, then by port, and no two are for
/// one port. The best port is that of the first.
pub proof fn law_ranking_goes_by_confidence(
    result: Seq<CandidateModel>,
    v: Seq<CandidateModel>,
    i: int,
    j: int,
)
    requires
        is_ranking(result, v),
        0 <= i < j < result.len(),
    ensures
        is_better(result[i], result[j]) || (!is_better(result[j], result[i]) && result[i].port
            < result[j].port),
        result[i].port != result[j].port,
        first_port(result) == Some(result[0].port),
{
    assert(crate::ranking::ranks_before(result[i], result[j]));
}

/// Every candidate's port is in a ranking, with a candidate that it is not better than.
pub proof fn law_ranking_holds_every_port(
    result: Seq<CandidateModel>,
    v: Seq<CandidateModel>,
    m: int,
) -> (i: int)
    requires
        is_ranking(result, v),
        0 <= m < v.len(),
    ensures
        0 <= i < result.len(),
        result[i].port == v[m].port,
        !is_better(v[m], result[i]),
        first_port(result) is Some,
{
    let n = v.len() as int;
    assert(has_candidate(result, v[m].port));
    let i = choose|i: int| 0 <= i < result.len() && (#[trigger] result[i]).port == v[m].port;
    let k = law_ranking_picks_the_first_of_the_best(result, v, i);
    if m < k {
        assert(is_better(v[k], v[m]));
    }
    i
}

/// A ranking holds only candidates that are there, each the first of those for its port that none
/// is better than.
pub proof fn law_ranking_picks_the_first_of_the_best(
    result: Seq<CandidateModel>,
    v: Seq<CandidateModel>,
    i: int,
) -> (k: int)
    requires
        is_ranking(result, v),
        0 <= i < result.len(),
    ensures
        0 <= k < v.len(),
        v[k] == result[i],
        forall|m: int|
            0 <= m < k && (#[trigger] v[m]).port == v[k].port ==> is_better(v[k], v[m]),
        forall|m: int|
            0 <= m < v.len() && (#[trigger] v[m]).port == v[k].port ==> !is_better(v[m], v[k]),
{
    let n = v.len() as int;
    assert(is_chosen(v, n, result[i]));
    let k = choose|k: int| #[trigger] chosen_at(v, n, k, result[i]);
    lemma_best(v, n, k);
    k
}

/// What it means to be the best for a port.
proof fn lemma_best(v: Seq<CandidateModel>, n: int, k: int)
    requires
        best_for_port(v, n, k),
    ensures
        forall|m: int|
            0 <= m < k && (#[trigger] v[m]).port == v[k].port ==> is_better(v[k], v[m]),
        forall|m: int|
            0 <= m < n && (#[trigger] v[m]).port == v[k].port ==> !is_better(v[m], v[k]),
{
}

/// Without candidates there is nothing to suggest.
pub proof fn law_nothing_to_rank(result: Seq<CandidateModel>, v: Seq<CandidateModel>)
    requires
        is_ranking(result, v),
        v.len() == 0,
    ensures
        result.len() == 0,
        first_port(result) is None,
{
    if result.len() > 0 {
        let k = law_ranking_picks_the_first_of_the_best(result, v, 0);
    }
}

} // verus!
