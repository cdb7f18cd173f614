//! Servers that listen inside the chosen folders, and the projects that they belong to.

use std::collections::HashMap;

use vstd::prelude::*;
use vstd::utf8::encode_utf8;

use crate::detection::{
    contains_file, detect_project_start_command_for_path, file_named, find_entry, has_entry,
    has_file, start_command, FileContents, FileEntry, FileModel,
};
use crate::folders::{
    available_folders, folder_warnings, in_folders, path_in_discovery_folders, sort_out_folders,
    FolderChoice,
};
use crate::listeners::{cwd_texts, listener_models, ListenerModel, TcpListenerInfo};
use crate::manifest::{manifest_in, read_package_manifest, ManifestModel, PackageManifest};
use crate::paths::{
    absolute, ancestors, components, components_of, file_name, find_file_name, find_parent,
    is_absolute, is_same_path, is_within, join, joined, list_ancestors, parent, same_path, within,
};
use crate::projects::Project;
use crate::snapshot::ListenerSnapshot;
use crate::text::{
    any_in, chars_of, ends_with, finishes_with, mentions, optional, optional_str, same_text, spells,
    strings, text_of, texts, trim, trimmed, CharSet,
};

verus! {

/// The directories that hold projects but are none.
pub open spec fn excluded_directories() -> Seq<Seq<char>> {
    seq![
        "/Users"@,
        "/Volumes"@,
        "/private"@,
        "/private/var"@,
        "/var"@,
        "/tmp"@,
        "/private/tmp"@,
        "/opt"@,
    ]
}

/// The directories in which nothing is a project.
pub open spec fn excluded_trees() -> Seq<Seq<char>> {
    seq![
        "/Applications"@,
        "/System"@,
        "/Library"@,
        "/usr"@,
        "/bin"@,
        "/sbin"@,
        "/opt/homebrew"@,
    ]
}

/// The directories below the home directory in which nothing is a project.
pub open spec fn excluded_home_trees() -> Seq<Seq<char>> {
    seq![
        "Library"@,
        ".vscode/extensions"@,
        ".vscode-insiders/extensions"@,
        ".cursor/extensions"@,
    ]
}

/// Whether a component marks a path as one inside an application, a dependency, a repository's
/// own data or an environment.
pub open spec fn is_foreign(component: Seq<char>) -> bool {
    ||| finishes_with(component, ".app"@)
    ||| component == "node_modules"@
    ||| component == ".git"@
    ||| component == ".venv"@
}

/// Whether a path is the home directory.
pub open spec fn is_home(path: Seq<char>, home: Option<Seq<char>>) -> bool {
    match home {
        Some(home) => same_path(home, path),
        None => false,
    }
}

/// Whether a directory may be that of a project.
pub open spec fn may_be_project(path: Seq<char>, home: Option<Seq<char>>) -> bool {
    &&& absolute(path)
    &&& parent(path) is Some
    &&& !is_home(path, home)
    &&& !exists|i: int|
        0 <= i < excluded_directories().len() && same_path(
            path,
            #[trigger] excluded_directories()[i],
        )
    &&& !exists|i: int|
        0 <= i < excluded_trees().len() && within(path, #[trigger] excluded_trees()[i])
    &&& !(home is Some && exists|i: int|
        0 <= i < excluded_home_trees().len() && within(
            path,
            joined(home->0, #[trigger] excluded_home_trees()[i]),
        ))
    &&& !exists|i: int| 0 <= i < components(path).len() && is_foreign(#[trigger] components(path)[i])
}

/// The directories that hold projects but are none.
fn list_excluded_directories() -> (r: Vec<String>)
    ensures
        strings(r@) == excluded_directories(),
{
    let r = vec![
        "/Users".to_owned(),
        "/Volumes".to_owned(),
        "/private".to_owned(),
        "/private/var".to_owned(),
        "/var".to_owned(),
        "/tmp".to_owned(),
        "/private/tmp".to_owned(),
        "/opt".to_owned(),
    ];
    proof {
        assert(strings(r@) =~= excluded_directories());
    }
    r
}

/// The directories in which nothing is a project.
fn list_excluded_trees() -> (r: Vec<String>)
    ensures
        strings(r@) == excluded_trees(),
{
    let r = vec![
        "/Applications".to_owned(),
        "/System".to_owned(),
        "/Library".to_owned(),
        "/usr".to_owned(),
        "/bin".to_owned(),
        "/sbin".to_owned(),
        "/opt/homebrew".to_owned(),
    ];
    proof {
        assert(strings(r@) =~= excluded_trees());
    }
    r
}

/// The directories below the home directory in which nothing is a project.
fn list_excluded_home_trees() -> (r: Vec<String>)
    ensures
        strings(r@) == excluded_home_trees(),
{
    let r = vec![
        "Library".to_owned(),
        ".vscode/extensions".to_owned(),
        ".vscode-insiders/extensions".to_owned(),
        ".cursor/extensions".to_owned(),
    ];
    proof {
        assert(strings(r@) =~= excluded_home_trees());
    }
    r
}

/// Whether a path is one of some others.
fn is_any_path(path: &str, others: &Vec<String>) -> (r: bool)
    ensures
        r <==> exists|i: int|
            0 <= i < strings(others@).len() && same_path(path@, #[trigger] strings(others@)[i]),
{
    let ghost all = strings(others@);
    let mut i: usize = 0;
    while i < others.len()
        invariant
            i <= others@.len(),
            all == strings(others@),
            forall|j: int| 0 <= j < i ==> !same_path(path@, #[trigger] all[j]),
        decreases others.len() - i,
    {
        proof {
            assert(all[i as int] == others@[i as int]@);
        }
        if is_same_path(path, others[i].as_str()) {
            return true;
        }
        i += 1;
    }
    false
}

/// Whether a path lies below the home directory in a directory in which nothing is a project.
fn is_in_home_tree(path: &str, home: &str) -> (r: bool)
    ensures
        r <==> exists|i: int|
            0 <= i < excluded_home_trees().len() && within(
                path@,
                joined(home@, #[trigger] excluded_home_trees()[i]),
            ),
{
    let trees = list_excluded_home_trees();
    let ghost all = excluded_home_trees();
    let mut i: usize = 0;
    proof {
        assert(strings(trees@).len() == trees@.len());
    }
    while i < trees.len()
        invariant
            i <= trees@.len(),
            all == excluded_home_trees(),
            all == strings(trees@),
            forall|j: int| 0 <= j < i ==> !within(path@, joined(home@, #[trigger] all[j])),
        decreases trees.len() - i,
    {
        proof {
            assert(all[i as int] == trees@[i as int]@);
        }
        if is_within(path, join(home, trees[i].as_str()).as_str()) {
            return true;
        }
        i += 1;
    }
    false
}

/// Whether a component of a path marks it as one that is no project.
fn has_foreign_component(path: &str) -> (r: bool)
    ensures
        r <==> exists|i: int|
            0 <= i < components(path@).len() && is_foreign(#[trigger] components(path@)[i]),
{
    let parts = components_of(path);
    let ghost all = components(path@);
    let mut i: usize = 0;
    proof {
        assert(texts(parts@).len() == parts@.len());
    }
    while i < parts.len()
        invariant
            i <= parts@.len(),
            all == components(path@),
            all == texts(parts@),
            forall|j: int| 0 <= j < i ==> !is_foreign(#[trigger] all[j]),
        decreases parts.len() - i,
    {
        let part = parts[i].as_slice();
        proof {
            assert(all[i as int] == part@);
        }
        if ends_with(part, ".app") || spells(part, "node_modules") || spells(part, ".git") || spells(
            part,
            ".venv",
        ) {
            return true;
        }
        i += 1;
    }
    false
}

/// Whether a path is the home directory.
fn is_home_directory(path: &str, home: Option<&str>) -> (r: bool)
    ensures
        r == is_home(path@, optional_str(home)),
{
    match home {
        Some(home) => is_same_path(home, path),
        None => false,
    }
}

/// Whether a directory may be that of a project.
pub fn is_project_directory_candidate(path: &str, home: Option<&str>) -> (r: bool)
    ensures
        r == may_be_project(path@, optional_str(home)),
{
    if !is_absolute(path) || find_parent(path).is_none() || is_home_directory(path, home) {
        return false;
    }
    if is_any_path(path, &list_excluded_directories()) {
        return false;
    }
    if path_in_discovery_folders(path, list_excluded_trees().as_slice()) {
        return false;
    }
    match home {
        Some(home) => {
            if is_in_home_tree(path, home) {
                return false;
            }
        },
        None => {},
    }
    !has_foreign_component(path)
}

/// What was found in a directory.
#[derive(Debug)]
pub struct DirectoryListing {
    pub path: String,
    pub files: Vec<FileEntry>,
}

/// What the first listing from `i` on for a path says. Where there is none, nothing was found.
pub open spec fn listing_from(
    directories: Seq<DirectoryListing>,
    path: Seq<char>,
    i: int,
) -> Seq<FileEntry>
    decreases directories.len() - i,
{
    if i < 0 || i >= directories.len() {
        Seq::empty()
    } else if directories[i].path@ == path {
        directories[i].files@
    } else {
        listing_from(directories, path, i + 1)
    }
}

/// What was found in the directory at a path.
fn find_listing<'a>(directories: &'a [DirectoryListing], path: &str) -> (r: Option<
    &'a Vec<FileEntry>,
>)
    ensures
        match r {
            Some(files) => files@ == listing_from(directories@, path@, 0),
            None => listing_from(directories@, path@, 0).len() == 0,
        },
{
    let mut i: usize = 0;
    while i < directories.len()
        invariant
            i <= directories@.len(),
            listing_from(directories@, path@, 0) == listing_from(directories@, path@, i as int),
        decreases directories.len() - i,
    {
        if same_text(directories[i].path.as_str(), path) {
            return Some(&directories[i].files);
        }
        i += 1;
    }
    None
}

/// Whether what was found in a directory is the mark of a project: a manifest or a repository.
pub open spec fn marks_project(files: Seq<FileEntry>) -> bool {
    ||| has_file(files, "package.json"@)
    ||| has_file(files, "Cargo.toml"@)
    ||| has_file(files, "pyproject.toml"@)
    ||| has_entry(files, ".git"@)
}

/// The names that mark the directory of a project.
pub fn list_project_marks() -> (r: Vec<String>)
    ensures
        strings(r@) == seq!["package.json"@, "Cargo.toml"@, "pyproject.toml"@, ".git"@],
{
    let r = vec![
        "package.json".to_owned(),
        "Cargo.toml".to_owned(),
        "pyproject.toml".to_owned(),
        ".git".to_owned(),
    ];
    proof {
        assert(strings(r@) =~= seq!["package.json"@, "Cargo.toml"@, "pyproject.toml"@, ".git"@]);
    }
    r
}

/// Whether what was found in a directory is the mark of a project.
pub fn has_project_mark(files: &[FileEntry]) -> (r: bool)
    ensures
        r == marks_project(files@),
{
    contains_file(files, "package.json") || contains_file(files, "Cargo.toml") || contains_file(
        files,
        "pyproject.toml",
    ) || find_entry(files, ".git").is_some()
}

/// The name of a package as it is shown, if it can be: it is neither empty nor longer than 214
/// bytes and has no control characters.
pub open spec fn shown_name(manifest: ManifestModel) -> Option<Seq<char>> {
    match manifest.name {
        Some(name) => {
            let name = trimmed(name);
            if name.len() > 0 && encode_utf8(name).len() <= 214 && !mentions(
                name,
                CharSet::Control,
            ) {
                Some(name)
            } else {
                None
            }
        },
        None => None,
    }
}

/// The name of a package as it is shown, if it can be.
pub fn package_display_name(manifest: &PackageManifest) -> (r: Option<String>)
    ensures
        optional(r) == shown_name(manifest@),
{
    match &manifest.name {
        Some(name) => {
            let chars = chars_of(name.as_str());
            let shown = trim(chars.as_slice());
            let text = text_of(shown);
            if shown.len() > 0 && text.as_str().as_bytes().len() <= 214 && !any_in(
                shown,
                CharSet::Control,
            ) {
                Some(text)
            } else {
                None
            }
        },
        None => None,
    }
}

/// The name of the package in a directory as it is shown, if there is one that can be.
pub open spec fn directory_package_name(files: Seq<FileEntry>) -> Option<Seq<char>> {
    match file_named(files, "package.json"@) {
        FileModel::Text(contents) => match manifest_in(contents) {
            Ok(manifest) => shown_name(manifest),
            Err(_) => None,
        },
        _ => None,
    }
}

/// The name of the package in a directory as it is shown, if there is one that can be.
fn find_package_name(files: &[FileEntry]) -> (r: Option<String>)
    ensures
        optional(r) == directory_package_name(files@),
{
    let entry = match find_entry(files, "package.json") {
        Some(entry) => entry,
        None => {
            return None;
        },
    };
    match &entry.contents {
        FileContents::Text(contents) => match read_package_manifest(contents.as_str()) {
            Ok(manifest) => package_display_name(&manifest),
            Err(_) => None,
        },
        FileContents::Unreadable(_) => None,
    }
}

/// A project that was found around a working directory.
#[derive(Debug)]
pub struct DetectedProjectMetadata {
    pub path: String,
    pub name: String,
    pub suggested_start_command: Option<String>,
}

/// What a `DetectedProjectMetadata` says.
pub struct MetadataModel {
    pub path: Seq<char>,
    pub name: Seq<char>,
    pub suggested_start_command: Option<Seq<char>>,
}

impl View for DetectedProjectMetadata {
    type V = MetadataModel;

    open spec fn view(&self) -> MetadataModel {
        MetadataModel {
            path: self.path@,
            name: self.name@,
            suggested_start_command: optional(self.suggested_start_command),
        }
    }
}

/// What some metadata says, where there is any.
pub open spec fn optional_metadata(metadata: Option<DetectedProjectMetadata>) -> Option<
    MetadataModel,
> {
    match metadata {
        Some(metadata) => Some(metadata@),
        None => None,
    }
}

/// The project in a directory: its name is that of its package, or else that of the directory.
pub open spec fn project_in(path: Seq<char>, files: Seq<FileEntry>) -> Option<MetadataModel> {
    let name = match directory_package_name(files) {
        Some(name) => Some(name),
        None => file_name(path),
    };
    match name {
        Some(name) => Some(
            MetadataModel { path, name, suggested_start_command: start_command(files) },
        ),
        None => None,
    }
}

/// The project of the first of some nested directories, from `i` on, that has the mark of one.
/// The home directory and what is above it have no project.
pub open spec fn project_from(
    nested: Seq<Seq<char>>,
    home: Option<Seq<char>>,
    directories: Seq<DirectoryListing>,
    i: int,
) -> Option<MetadataModel>
    decreases nested.len() - i,
{
    if i < 0 || i >= nested.len() || is_home(nested[i], home) {
        None
    } else if may_be_project(nested[i], home) && marks_project(
        listing_from(directories, nested[i], 0),
    ) {
        project_in(nested[i], listing_from(directories, nested[i], 0))
    } else {
        project_from(nested, home, directories, i + 1)
    }
}

/// The project around a working directory.
pub open spec fn project_around(
    cwd: Seq<char>,
    home: Option<Seq<char>>,
    directories: Seq<DirectoryListing>,
) -> Option<MetadataModel> {
    project_from(ancestors(cwd), home, directories, 0)
}

/// The directories, from position `i` of some nested ones on, that have to be looked into to find
/// the project around the first.
pub open spec fn inspected_from(
    nested: Seq<Seq<char>>,
    home: Option<Seq<char>>,
    i: int,
) -> Seq<Seq<char>>
    decreases nested.len() - i,
{
    if i < 0 || i >= nested.len() || is_home(nested[i], home) {
        Seq::empty()
    } else if may_be_project(nested[i], home) {
        seq![nested[i]] + inspected_from(nested, home, i + 1)
    } else {
        inspected_from(nested, home, i + 1)
    }
}

/// The directories that have to be looked into to find the project around a working directory.
pub fn directories_to_inspect(cwd: &str, home: Option<&str>) -> (r: Vec<String>)
    ensures
        strings(r@) == inspected_from(ancestors(cwd@), optional_str(home), 0),
{
    let nested = list_ancestors(cwd);
    let ghost all = ancestors(cwd@);
    let ghost at_home = optional_str(home);
    let mut found: Vec<String> = Vec::new();
    let mut i: usize = 0;
    proof {
        assert(strings(nested@).len() == nested@.len());
        assert(strings(found@) + inspected_from(all, at_home, 0) =~= inspected_from(
            all,
            at_home,
            0,
        ));
    }
    while i < nested.len()
        invariant
            i <= nested@.len(),
            all == strings(nested@),
            all == ancestors(cwd@),
            at_home == optional_str(home),
            strings(found@) + inspected_from(all, at_home, i as int) == inspected_from(
                all,
                at_home,
                0,
            ),
        decreases nested.len() - i,
    {
        let ghost before = found@;
        let path = nested[i].as_str();
        proof {
            assert(all[i as int] == path@);
        }
        if is_home_directory(path, home) {
            proof {
                assert(strings(found@) + Seq::<Seq<char>>::empty() =~= strings(found@));
            }
            return found;
        }
        if is_project_directory_candidate(path, home) {
            found.push(path.to_owned());
            proof {
                assert(strings(found@) =~= strings(before).push(path@));
                assert(strings(found@) + inspected_from(all, at_home, i + 1) =~= strings(before) + (
                seq![path@] + inspected_from(all, at_home, i + 1)));
            }
        }
        i += 1;
    }
    proof {
        assert(strings(found@) + inspected_from(all, at_home, i as int) =~= strings(found@));
    }
    found
}

/// The project around a working directory, from what was found in the directories that
/// `directories_to_inspect` lists.
pub fn detect_listener_project(
    cwd: &str,
    home: Option<&str>,
    directories: &[DirectoryListing],
) -> (r: Option<DetectedProjectMetadata>)
    ensures
        optional_metadata(r) == project_around(cwd@, optional_str(home), directories@),
{
    let nested = list_ancestors(cwd);
    let ghost all = ancestors(cwd@);
    let ghost at_home = optional_str(home);
    let nothing: Vec<FileEntry> = Vec::new();
    let mut i: usize = 0;
    proof {
        assert(strings(nested@).len() == nested@.len());
    }
    while i < nested.len()
        invariant
            i <= nested@.len(),
            all == strings(nested@),
            all == ancestors(cwd@),
            at_home == optional_str(home),
            nothing@.len() == 0,
            project_around(cwd@, at_home, directories@) == project_from(
                all,
                at_home,
                directories@,
                i as int,
            ),
        decreases nested.len() - i,
    {
        let path = nested[i].as_str();
        proof {
            assert(all[i as int] == path@);
        }
        if is_home_directory(path, home) {
            return None;
        }
        let files = match find_listing(directories, path) {
            Some(files) => files,
            None => &nothing,
        };
        proof {
            assert(files@ =~= listing_from(directories@, path@, 0));
        }
        if is_project_directory_candidate(path, home) && has_project_mark(files.as_slice()) {
            let name = match find_package_name(files.as_slice()) {
                Some(name) => Some(name),
                None => find_file_name(path),
            };
            return match name {
                Some(name) => Some(
                    DetectedProjectMetadata {
                        path: path.to_owned(),
                        name,
                        suggested_start_command: detect_project_start_command_for_path(
                            files.as_slice(),
                        ),
                    },
                ),
                None => None,
            };
        }
        i += 1;
    }
    None
}

/// A project, with the path that its own resolves to, if it does.
#[derive(Debug)]
pub struct SavedProject {
    pub project: Project,
    pub canonical_path: Option<String>,
}

/// Where a project is.
pub open spec fn saved_path(saved: SavedProject) -> Seq<char> {
    match saved.canonical_path {
        Some(path) => path@,
        None => saved.project.path@,
    }
}

/// Whether a path, where there is one, is that of a project.
pub open spec fn is_saved_path(path: Option<Seq<char>>, saved: SavedProject) -> bool {
    match path {
        Some(path) => same_path(path, saved_path(saved)),
        None => false,
    }
}

/// Whether a listener may belong to a project: it listens on its port, and it works in its
/// directory or was found to belong there.
pub open spec fn may_belong(
    saved: SavedProject,
    port: u16,
    project_path: Option<Seq<char>>,
    cwd: Option<Seq<char>>,
) -> bool {
    saved.project.port == port && (is_saved_path(project_path, saved) || is_saved_path(cwd, saved))
}

/// Whether the project at `i` is the only one that a listener may belong to.
pub open spec fn is_only_match(
    saved: Seq<SavedProject>,
    port: u16,
    project_path: Option<Seq<char>>,
    cwd: Option<Seq<char>>,
    i: int,
) -> bool {
    0 <= i < saved.len() && may_belong(saved[i], port, project_path, cwd) && forall|j: int|
        0 <= j < saved.len() && may_belong(#[trigger] saved[j], port, project_path, cwd) ==> j == i
}

/// The position of the only project that a listener may belong to.
pub open spec fn only_match(
    saved: Seq<SavedProject>,
    port: u16,
    project_path: Option<Seq<char>>,
    cwd: Option<Seq<char>>,
) -> Option<int> {
    if exists|i: int| is_only_match(saved, port, project_path, cwd, i) {
        Some(choose|i: int| is_only_match(saved, port, project_path, cwd, i))
    } else {
        None
    }
}

/// Whether a path, where there is one, is that of a project.
fn is_at_saved_path(path: Option<&str>, saved: &SavedProject) -> (r: bool)
    ensures
        r == is_saved_path(optional_str(path), *saved),
{
    match path {
        Some(path) => match &saved.canonical_path {
            Some(canonical) => is_same_path(path, canonical.as_str()),
            None => is_same_path(path, saved.project.path.as_str()),
        },
        None => false,
    }
}

/// The only project that a listener may belong to.
pub fn matching_saved_listener_project<'a>(
    projects: &'a [SavedProject],
    port: u16,
    project_path: Option<&str>,
    cwd: Option<&str>,
) -> (r: Option<&'a SavedProject>)
    ensures
        match r {
            Some(saved) => {
                &&& only_match(
                    projects@,
                    port,
                    optional_str(project_path),
                    optional_str(cwd),
                ) matches Some(i)
                &&& 0 <= i < projects@.len()
                &&& *saved == projects@[i]
            },
            None => only_match(
                projects@,
                port,
                optional_str(project_path),
                optional_str(cwd),
            ) is None,
        },
{
    let ghost at = optional_str(project_path);
    let ghost works_in = optional_str(cwd);
    let mut found: Option<usize> = None;
    let mut i: usize = 0;
    while i < projects.len()
        invariant
            i <= projects@.len(),
            at == optional_str(project_path),
            works_in == optional_str(cwd),
            match found {
                Some(k) => k < i && may_belong(projects@[k as int], port, at, works_in)
                    && forall|j: int|
                    0 <= j < i && may_belong(#[trigger] projects@[j], port, at, works_in) ==> j
                        == k,
                None => forall|j: int|
                    0 <= j < i ==> !may_belong(#[trigger] projects@[j], port, at, works_in),
            },
        decreases projects.len() - i,
    {
        let saved = &projects[i];
        let belongs = saved.project.port == port && (is_at_saved_path(project_path, saved)
            || is_at_saved_path(cwd, saved));
        if belongs {
            if let Some(k) = found {
                proof {
                    assert(may_belong(projects@[k as int], port, at, works_in));
                    assert(may_belong(projects@[i as int], port, at, works_in));
                    assert forall|j: int| !is_only_match(projects@, port, at, works_in, j) by {
                        if is_only_match(projects@, port, at, works_in, j) {
                            assert(k == j);
                            assert(i == j);
                        }
                    }
                }
                return None;
            }
            found = Some(i);
        }
        i += 1;
    }
    match found {
        Some(k) => {
            proof {
                assert(is_only_match(projects@, port, at, works_in, k as int));
                let chosen = only_match(projects@, port, at, works_in)->0;
                assert(is_only_match(projects@, port, at, works_in, chosen));
                assert(chosen == k);
            }
            Some(&projects[k])
        },
        None => {
            proof {
                assert forall|j: int| !is_only_match(projects@, port, at, works_in, j) by {}
            }
            None
        },
    }
}

/// A server that was discovered.
#[derive(Debug)]
pub struct DiscoveredListener {
    pub port: u16,
    pub pid: i32,
    pub process_name: String,
    pub name: String,
    pub path: Option<String>,
    pub project_id: Option<String>,
    pub suggested_start_command: Option<String>,
}

/// What a `DiscoveredListener` says.
pub struct DiscoveredModel {
    pub port: u16,
    pub pid: i32,
    pub process_name: Seq<char>,
    pub name: Seq<char>,
    pub path: Option<Seq<char>>,
    pub project_id: Option<Seq<char>>,
    pub suggested_start_command: Option<Seq<char>>,
}

impl View for DiscoveredListener {
    type V = DiscoveredModel;

    open spec fn view(&self) -> DiscoveredModel {
        DiscoveredModel {
            port: self.port,
            pid: self.pid,
            process_name: self.process_name@,
            name: self.name@,
            path: optional(self.path),
            project_id: optional(self.project_id),
            suggested_start_command: optional(self.suggested_start_command),
        }
    }
}

/// What each discovered server in a list says.
pub open spec fn discovered_models(v: Seq<DiscoveredListener>) -> Seq<DiscoveredModel> {
    Seq::new(v.len(), |i: int| v[i]@)
}

/// The servers that were discovered, and what may be wrong with the list.
#[derive(Debug)]
pub struct ListenerDiscoveryResult {
    pub listeners: Vec<DiscoveredListener>,
    pub warnings: Vec<String>,
}

/// The path of some metadata.
pub open spec fn metadata_path(metadata: Option<MetadataModel>) -> Option<Seq<char>> {
    match metadata {
        Some(metadata) => Some(metadata.path),
        None => None,
    }
}

/// What is reported of a listener that works in `cwd`, inside the chosen folders, around which
/// the project `metadata` was found and which belongs to the kept project `saved`. A project above
/// the chosen folders is not reported: it must not widen them.
pub open spec fn reported_discovery(
    listener: ListenerModel,
    metadata: Option<MetadataModel>,
    saved: Option<SavedProject>,
    folders: Seq<Seq<char>>,
) -> Option<DiscoveredModel> {
    let path = match saved {
        Some(saved) => match saved.canonical_path {
            Some(path) => Some(path@),
            None => metadata_path(metadata),
        },
        None => metadata_path(metadata),
    };
    match path {
        Some(path) => if in_folders(path, folders) {
            Some(
                DiscoveredModel {
                    port: listener.port,
                    pid: listener.pid,
                    process_name: listener.process_name,
                    name: match (saved, metadata) {
                        (Some(saved), _) => saved.project.name@,
                        (None, Some(metadata)) => metadata.name,
                        (None, None) => listener.process_name,
                    },
                    path: Some(path),
                    project_id: match saved {
                        Some(saved) => Some(saved.project.id@),
                        None => None,
                    },
                    suggested_start_command: match (saved, metadata) {
                        (Some(saved), _) => Some(saved.project.start_command@),
                        (None, Some(metadata)) => metadata.suggested_start_command,
                        (None, None) => None,
                    },
                },
            )
        } else {
            None
        },
        None => None,
    }
}

/// The project that a listener belongs to, by its position.
pub open spec fn saved_at(saved: Seq<SavedProject>, i: Option<int>) -> Option<SavedProject> {
    match i {
        Some(i) => Some(saved[i]),
        None => None,
    }
}

/// What is reported of a listener, if anything is.
pub open spec fn discovery_of(
    listener: ListenerModel,
    cwds: Map<i32, Seq<char>>,
    saved: Seq<SavedProject>,
    folders: Seq<Seq<char>>,
    home: Option<Seq<char>>,
    directories: Seq<DirectoryListing>,
) -> Option<DiscoveredModel> {
    if cwds.contains_key(listener.pid) && in_folders(cwds[listener.pid], folders) {
        let cwd = cwds[listener.pid];
        let metadata = project_around(cwd, home, directories);
        let owner = only_match(saved, listener.port, metadata_path(metadata), Some(cwd));
        reported_discovery(listener, metadata, saved_at(saved, owner), folders)
    } else {
        None
    }
}

/// What is reported of the first `n` listeners.
pub open spec fn discoveries(
    listeners: Seq<ListenerModel>,
    cwds: Map<i32, Seq<char>>,
    saved: Seq<SavedProject>,
    folders: Seq<Seq<char>>,
    home: Option<Seq<char>>,
    directories: Seq<DirectoryListing>,
    n: int,
) -> Seq<DiscoveredModel>
    decreases n,
{
    if n <= 0 {
        Seq::empty()
    } else {
        let before = discoveries(listeners, cwds, saved, folders, home, directories, n - 1);
        match discovery_of(listeners[n - 1], cwds, saved, folders, home, directories) {
            Some(found) => before.push(found),
            None => before,
        }
    }
}

/// What some discovery says, where there is one.
pub open spec fn optional_discovery(found: Option<DiscoveredListener>) -> Option<DiscoveredModel> {
    match found {
        Some(found) => Some(found@),
        None => None,
    }
}

/// What is reported of a listener around which a project was found and which belongs to a kept
/// one.
fn report_discovery(
    listener: &TcpListenerInfo,
    metadata: &Option<DetectedProjectMetadata>,
    saved: Option<&SavedProject>,
    folders: &[String],
) -> (r: Option<DiscoveredListener>)
    ensures
        optional_discovery(r) == reported_discovery(
            listener@,
            optional_metadata(*metadata),
            (match saved {
                Some(saved) => Some(*saved),
                None => None,
            }),
            strings(folders@),
        ),
{
    let around = match metadata {
        Some(metadata) => Some(metadata.path.clone()),
        None => None,
    };
    let path = match saved {
        Some(saved) => match &saved.canonical_path {
            Some(path) => Some(path.clone()),
            None => around,
        },
        None => around,
    };
    let path = match path {
        Some(path) => path,
        None => {
            return None;
        },
    };
    if !path_in_discovery_folders(path.as_str(), folders) {
        return None;
    }
    let name = match (saved, metadata) {
        (Some(saved), _) => saved.project.name.clone(),
        (None, Some(metadata)) => metadata.name.clone(),
        (None, None) => listener.process_name.clone(),
    };
    let project_id = match saved {
        Some(saved) => Some(saved.project.id.clone()),
        None => None,
    };
    let suggested_start_command = match (saved, metadata) {
        (Some(saved), _) => Some(saved.project.start_command.clone()),
        (None, Some(metadata)) => match &metadata.suggested_start_command {
            Some(command) => Some(command.clone()),
            None => None,
        },
        (None, None) => None,
    };
    Some(
        DiscoveredListener {
            port: listener.port,
            pid: listener.pid,
            process_name: listener.process_name.clone(),
            name,
            path: Some(path),
            project_id,
            suggested_start_command,
        },
    )
}

/// What is reported of a listener, if anything is.
fn discover_listener(
    listener: &TcpListenerInfo,
    cwds: &HashMap<i32, String>,
    saved: &[SavedProject],
    folders: &[String],
    home: Option<&str>,
    directories: &[DirectoryListing],
) -> (r: Option<DiscoveredListener>)
    ensures
        optional_discovery(r) == discovery_of(
            listener@,
            cwd_texts(cwds@),
            saved@,
            strings(folders@),
            optional_str(home),
            directories@,
        ),
{
    let cwd = match cwds.get(&listener.pid) {
        Some(cwd) => cwd,
        None => {
            proof {
                assert(!cwd_texts(cwds@).contains_key(listener.pid));
            }
            return None;
        },
    };
    proof {
        assert(cwd_texts(cwds@).contains_key(listener.pid));
        assert(cwd_texts(cwds@)[listener.pid] == cwd@);
    }
    if !path_in_discovery_folders(cwd.as_str(), folders) {
        return None;
    }
    let metadata = detect_listener_project(cwd.as_str(), home, directories);
    let around: Option<&str> = match &metadata {
        Some(metadata) => Some(metadata.path.as_str()),
        None => None,
    };
    let owner = matching_saved_listener_project(saved, listener.port, around, Some(cwd.as_str()));
    report_discovery(listener, &metadata, owner, folders)
}

/// The servers of a snapshot that work inside the chosen folders and belong to projects there.
/// `directories` holds what was found in the directories around them.
pub fn build_listener_discovery(
    snapshot: ListenerSnapshot,
    projects: &[SavedProject],
    folders: &[String],
    home: Option<&str>,
    directories: &[DirectoryListing],
) -> (r: ListenerDiscoveryResult)
    ensures
        discovered_models(r.listeners@) == discoveries(
            listener_models(snapshot.listeners@),
            cwd_texts(snapshot.cwd_by_pid@),
            projects@,
            strings(folders@),
            optional_str(home),
            directories@,
            snapshot.listeners@.len() as int,
        ),
        r.warnings == snapshot.warnings,
{
    let ghost listeners = listener_models(snapshot.listeners@);
    let ghost cwds = cwd_texts(snapshot.cwd_by_pid@);
    let mut found: Vec<DiscoveredListener> = Vec::new();
    let mut i: usize = 0;
    proof {
        assert(discovered_models(found@) =~= Seq::empty());
    }
    while i < snapshot.listeners.len()
        invariant
            i <= snapshot.listeners@.len(),
            listeners == listener_models(snapshot.listeners@),
            cwds == cwd_texts(snapshot.cwd_by_pid@),
            discovered_models(found@) == discoveries(
                listeners,
                cwds,
                projects@,
                strings(folders@),
                optional_str(home),
                directories@,
                i as int,
            ),
        decreases snapshot.listeners.len() - i,
    {
        let ghost before = found@;
        proof {
            assert(listeners[i as int] == snapshot.listeners@[i as int]@);
        }
        let discovery = discover_listener(
            &snapshot.listeners[i],
            &snapshot.cwd_by_pid,
            projects,
            folders,
            home,
            directories,
        );
        if let Some(discovery) = discovery {
            found.push(discovery);
            proof {
                assert(discovered_models(found@) =~= discovered_models(before).push(discovery@));
            }
        }
        i += 1;
    }
    ListenerDiscoveryResult { listeners: found, warnings: snapshot.warnings }
}

/// Whether listeners have to be looked for at all. Without a folder that can be searched they are
/// not.
pub fn needs_listener_scan(choices: &[FolderChoice]) -> (r: bool)
    ensures
        r == (available_folders(choices@, choices@.len() as int).len() > 0),
{
    let (folders, _) = sort_out_folders(choices);
    proof {
        assert(strings(folders@).len() == folders@.len());
    }
    folders.len() > 0
}

/// The servers that work inside the chosen folders. The snapshot, or the message that there is
/// none, counts only where a folder can be searched.
pub fn discover_in_folders(
    choices: &[FolderChoice],
    snapshot: Result<ListenerSnapshot, String>,
    projects: &[SavedProject],
    home: Option<&str>,
    directories: &[DirectoryListing],
) -> (r: Result<ListenerDiscoveryResult, String>)
    ensures
        ({
            let folders = available_folders(choices@, choices@.len() as int);
            let warnings = folder_warnings(choices@, choices@.len() as int);
            match r {
                Ok(result) => if folders.len() == 0 {
                    result.listeners@.len() == 0 && strings(result.warnings@) == warnings
                } else {
                    &&& snapshot is Ok
                    &&& discovered_models(result.listeners@) == discoveries(
                        listener_models(snapshot->Ok_0.listeners@),
                        cwd_texts(snapshot->Ok_0.cwd_by_pid@),
                        projects@,
                        folders,
                        optional_str(home),
                        directories@,
                        snapshot->Ok_0.listeners@.len() as int,
                    )
                    &&& strings(result.warnings@) == strings(snapshot->Ok_0.warnings@) + warnings
                },
                Err(message) => folders.len() > 0 && snapshot is Err && message@
                    == snapshot->Err_0@,
            }
        }),
{
    let (folders, warnings) = sort_out_folders(choices);
    proof {
        assert(strings(folders@).len() == folders@.len());
    }
    if folders.len() == 0 {
        return Ok(ListenerDiscoveryResult { listeners: Vec::new(), warnings });
    }
    let ghost listeners = snapshot->Ok_0.listeners@;
    let ghost told = snapshot->Ok_0.warnings@;
    let mut snapshot = match snapshot {
        Ok(snapshot) => snapshot,
        Err(error) => {
            return Err(error);
        },
    };
    let mut all_warnings: Vec<String> = Vec::new();
    std::mem::swap(&mut all_warnings, &mut snapshot.warnings);
    let mut more = warnings;
    let ghost added = more@;
    all_warnings.append(&mut more);
    proof {
        assert(all_warnings@ =~= told + added);
        assert(strings(all_warnings@) =~= strings(told) + strings(added));
    }
    snapshot.warnings = all_warnings;
    Ok(build_listener_discovery(snapshot, projects, folders.as_slice(), home, directories))
}

/// Discovery stays inside the chosen folders: whatever is reported works in one of them, and the
/// project that it is reported for lies in one of them.
pub proof fn law_discovery_stays_in_the_folders(
    listener: ListenerModel,
    cwds: Map<i32, Seq<char>>,
    saved: Seq<SavedProject>,
    folders: Seq<Seq<char>>,
    home: Option<Seq<char>>,
    directories: Seq<DirectoryListing>,
)
    requires
        discovery_of(listener, cwds, saved, folders, home, directories) is Some,
    ensures
        ({
            let found = discovery_of(listener, cwds, saved, folders, home, directories)->0;
            &&& found.port == listener.port
            &&& found.pid == listener.pid
            &&& cwds.contains_key(listener.pid)
            &&& in_folders(cwds[listener.pid], folders)
            &&& found.path is Some
            &&& in_folders(found.path->0, folders)
        }),
{
}

/// Without a chosen folder nothing is discovered.
pub proof fn law_no_folders_no_discovery(
    listeners: Seq<ListenerModel>,
    cwds: Map<i32, Seq<char>>,
    saved: Seq<SavedProject>,
    home: Option<Seq<char>>,
    directories: Seq<DirectoryListing>,
    n: int,
)
    requires
        0 <= n <= listeners.len(),
    ensures
        discoveries(listeners, cwds, saved, Seq::empty(), home, directories, n).len() == 0,
    decreases n,
{
    if n > 0 {
        law_no_folders_no_discovery(listeners, cwds, saved, home, directories, n - 1);
    }
}

/// A listener is reported for a kept project only if it listens on that project's port, and only
/// if no other kept project comes into question.
pub proof fn law_discovery_names_only_matching_projects(
    listener: ListenerModel,
    cwds: Map<i32, Seq<char>>,
    saved: Seq<SavedProject>,
    folders: Seq<Seq<char>>,
    home: Option<Seq<char>>,
    directories: Seq<DirectoryListing>,
)
    requires
        discovery_of(listener, cwds, saved, folders, home, directories) is Some,
        discovery_of(listener, cwds, saved, folders, home, directories)->0.project_id is Some,
    ensures
        exists|i: int|
            {
                &&& 0 <= i < saved.len()
                &&& (#[trigger] saved[i]).project.port == listener.port
                &&& Some(saved[i].project.id@) == discovery_of(
                    listener,
                    cwds,
                    saved,
                    folders,
                    home,
                    directories,
                )->0.project_id
                &&& is_only_match(
                    saved,
                    listener.port,
                    metadata_path(project_around(cwds[listener.pid], home, directories)),
                    Some(cwds[listener.pid]),
                    i,
                )
            },
{
    let cwd = cwds[listener.pid];
    let at = metadata_path(project_around(cwd, home, directories));
    let i = only_match(saved, listener.port, at, Some(cwd))->0;
    assert(is_only_match(saved, listener.port, at, Some(cwd), i));
    assert(saved[i].project.port == listener.port);
}

/// The project around a working directory is that directory or one above it, may be a project and
/// has the mark of one.
pub proof fn law_detected_project_is_around(
    cwd: Seq<char>,
    home: Option<Seq<char>>,
    directories: Seq<DirectoryListing>,
)
    requires
        project_around(cwd, home, directories) is Some,
    ensures
        ({
            let path = project_around(cwd, home, directories)->0.path;
            &&& ancestors(cwd).contains(path)
            &&& within(cwd, path)
            &&& may_be_project(path, home)
            &&& marks_project(listing_from(directories, path, 0))
        }),
{
    let i = lemma_project_from(ancestors(cwd), home, directories, 0);
    crate::paths::law_path_is_within_its_ancestors(cwd, i);
}

/// Where the project of some nested directories is.
proof fn lemma_project_from(
    nested: Seq<Seq<char>>,
    home: Option<Seq<char>>,
    directories: Seq<DirectoryListing>,
    i: int,
) -> (k: int)
    requires
        i >= 0,
        project_from(nested, home, directories, i) is Some,
    ensures
        i <= k < nested.len(),
        project_from(nested, home, directories, i)->0.path == nested[k],
        may_be_project(nested[k], home),
        marks_project(listing_from(directories, nested[k], 0)),
    decreases nested.len() - i,
{
    if may_be_project(nested[i], home) && marks_project(listing_from(directories, nested[i], 0)) {
        i
    } else {
        lemma_project_from(nested, home, directories, i + 1)
    }
}

/// Looking into the directories that have to be looked into is enough: what was found elsewhere
/// does not change the project around a working directory.
pub proof fn law_inspected_directories_suffice(
    cwd: Seq<char>,
    home: Option<Seq<char>>,
    a: Seq<DirectoryListing>,
    b: Seq<DirectoryListing>,
)
    requires
        forall|path: Seq<char>| #[trigger]
            inspected_from(ancestors(cwd), home, 0).contains(path) ==> listing_from(a, path, 0)
                == listing_from(b, path, 0),
    ensures
        project_around(cwd, home, a) == project_around(cwd, home, b),
{
    lemma_same_listings(ancestors(cwd), home, a, b, 0);
}

/// Where the listings of the inspected directories agree, so do the projects found.
proof fn lemma_same_listings(
    nested: Seq<Seq<char>>,
    home: Option<Seq<char>>,
    a: Seq<DirectoryListing>,
    b: Seq<DirectoryListing>,
    i: int,
)
    requires
        0 <= i <= nested.len(),
        forall|path: Seq<char>| #[trigger]
            inspected_from(nested, home, i).contains(path) ==> listing_from(a, path, 0)
                == listing_from(b, path, 0),
    ensures
        project_from(nested, home, a, i) == project_from(nested, home, b, i),
    decreases nested.len() - i,
{
    if i < nested.len() && !is_home(nested[i], home) {
        let all = inspected_from(nested, home, i);
        let rest = inspected_from(nested, home, i + 1);
        if may_be_project(nested[i], home) {
            assert(all[0] == nested[i]);
            assert(all.contains(nested[i]));
        }
        assert forall|path: Seq<char>| #[trigger] rest.contains(path) implies listing_from(
            a,
            path,
            0,
        ) == listing_from(b, path, 0) by {
            let k = choose|k: int| 0 <= k < rest.len() && rest[k] == path;
            if may_be_project(nested[i], home) {
                assert(all[k + 1] == path);
            } else {
                assert(all[k] == path);
            }
            assert(all.contains(path));
        }
        lemma_same_listings(nested, home, a, b, i + 1);
    }
}

} // verus!
