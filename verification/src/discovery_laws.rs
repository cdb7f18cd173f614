//! Where the project around a working directory is looked for and found.

use vstd::prelude::*;

use crate::detection::{file_named, has_entry, has_file, start_command, FileEntry, FileModel};
use crate::discovery::{
    directory_package_name, discovery_of, inspected_from, is_home, is_only_match, listing_from,
    marks_project, may_be_project, only_match, project_around, project_from, project_in, shown_name,
    DirectoryListing, SavedProject,
};
use crate::folders::in_folders;
use crate::listeners::ListenerModel;
use crate::manifest::{manifest_in, ManifestModel};
use crate::paths::{absolute, ancestors, components, file_name, joined, parent, within};
use crate::selection::{lemma_picked_none, lemma_picked_push, picked};
use crate::text::{finishes_with, trimmed, CharSet};
use crate::text_laws::{law_mentions, none_in};

verus! {

/// Whether a path has the components of the home directory.
pub open spec fn is_at_home(path: Seq<char>, home: Option<Seq<char>>) -> bool {
    home is Some && components(path) == components(home->0)
}

/// Whether some component of a path is `name`.
pub open spec fn passes_through(path: Seq<char>, name: Seq<char>) -> bool {
    components(path).contains(name)
}

/// Whether some component of a path is that of an application.
pub open spec fn passes_an_application(path: Seq<char>) -> bool {
    exists|i: int|
        0 <= i < components(path).len() && finishes_with(#[trigger] components(path)[i], ".app"@)
}

/// Whether a path denotes one of the directories that hold projects but are none.
pub open spec fn is_shared_directory(path: Seq<char>) -> bool {
    ||| components(path) == components("/Users"@)
    ||| components(path) == components("/Volumes"@)
    ||| components(path) == components("/private"@)
    ||| components(path) == components("/private/var"@)
    ||| components(path) == components("/var"@)
    ||| components(path) == components("/tmp"@)
    ||| components(path) == components("/private/tmp"@)
    ||| components(path) == components("/opt"@)
}

/// Whether a path lies in a part of the system in which nothing is a project.
pub open spec fn is_in_the_system(path: Seq<char>) -> bool {
    ||| within(path, "/Applications"@)
    ||| within(path, "/System"@)
    ||| within(path, "/Library"@)
    ||| within(path, "/usr"@)
    ||| within(path, "/bin"@)
    ||| within(path, "/sbin"@)
    ||| within(path, "/opt/homebrew"@)
}

/// Whether a path lies in a part of the home directory in which nothing is a project.
pub open spec fn is_in_private_data(path: Seq<char>, home: Seq<char>) -> bool {
    ||| within(path, joined(home, "Library"@))
    ||| within(path, joined(home, ".vscode/extensions"@))
    ||| within(path, joined(home, ".vscode-insiders/extensions"@))
    ||| within(path, joined(home, ".cursor/extensions"@))
}

/// A directory may be that of a project unless it is relative, a root, the home directory, one of
/// the shared directories, in the system or private data, or inside an application, a dependency,
/// a repository's own data or an environment.
pub proof fn law_which_directories_may_be_projects(path: Seq<char>, home: Option<Seq<char>>)
    ensures
        may_be_project(path, home) <==> {
            &&& absolute(path)
            &&& parent(path) is Some
            &&& !is_at_home(path, home)
            &&& !is_shared_directory(path)
            &&& !is_in_the_system(path)
            &&& !(home is Some && is_in_private_data(path, home->0))
            &&& !passes_through(path, "node_modules"@)
            &&& !passes_through(path, ".git"@)
            &&& !passes_through(path, ".venv"@)
            &&& !passes_an_application(path)
        },
{
    let shared = crate::discovery::excluded_directories();
    let system = crate::discovery::excluded_trees();
    let data = crate::discovery::excluded_home_trees();
    let all = components(path);
    assert(shared.len() == 8 && system.len() == 7 && data.len() == 4);
    if may_be_project(path, home) {
        assert(!crate::paths::same_path(path, shared[0]));
        assert(!crate::paths::same_path(path, shared[1]));
        assert(!crate::paths::same_path(path, shared[2]));
        assert(!crate::paths::same_path(path, shared[3]));
        assert(!crate::paths::same_path(path, shared[4]));
        assert(!crate::paths::same_path(path, shared[5]));
        assert(!crate::paths::same_path(path, shared[6]));
        assert(!crate::paths::same_path(path, shared[7]));
        assert(!within(path, system[0]));
        assert(!within(path, system[1]));
        assert(!within(path, system[2]));
        assert(!within(path, system[3]));
        assert(!within(path, system[4]));
        assert(!within(path, system[5]));
        assert(!within(path, system[6]));
        if home is Some {
            assert(!within(path, joined(home->0, data[0])));
            assert(!within(path, joined(home->0, data[1])));
            assert(!within(path, joined(home->0, data[2])));
            assert(!within(path, joined(home->0, data[3])));
        }
        assert forall|i: int| 0 <= i < all.len() implies !crate::discovery::is_foreign(
            #[trigger] all[i],
        ) by {}
    }
    if !may_be_project(path, home) {
        if exists|i: int|
            0 <= i < shared.len() && crate::paths::same_path(path, #[trigger] shared[i]) {
            let i = choose|i: int|
                0 <= i < shared.len() && crate::paths::same_path(path, #[trigger] shared[i]);
            assert(i == 0 || i == 1 || i == 2 || i == 3 || i == 4 || i == 5 || i == 6 || i == 7);
        }
        if exists|i: int| 0 <= i < system.len() && within(path, #[trigger] system[i]) {
            let i = choose|i: int| 0 <= i < system.len() && within(path, #[trigger] system[i]);
            assert(i == 0 || i == 1 || i == 2 || i == 3 || i == 4 || i == 5 || i == 6);
        }
        if home is Some {
            if exists|i: int|
                0 <= i < data.len() && within(path, joined(home->0, #[trigger] data[i])) {
                let i = choose|i: int|
                    0 <= i < data.len() && within(path, joined(home->0, #[trigger] data[i]));
                assert(i == 0 || i == 1 || i == 2 || i == 3);
            }
        }
        if exists|i: int| 0 <= i < all.len() && crate::discovery::is_foreign(#[trigger] all[i]) {
            let i = choose|i: int|
                0 <= i < all.len() && crate::discovery::is_foreign(#[trigger] all[i]);
            assert(all.contains(all[i]));
        }
    }
}

/// The first listing of a path, searched from a position on.
proof fn lemma_listing_from(directories: Seq<DirectoryListing>, path: Seq<char>, i: int, k: int)
    requires
        0 <= i <= k < directories.len(),
        directories[k].path@ == path,
        forall|j: int| i <= j < k ==> (#[trigger] directories[j]).path@ != path,
    ensures
        listing_from(directories, path, i) == directories[k].files@,
    decreases directories.len() - i,
{
    if i < k {
        assert(directories[i].path@ != path);
        lemma_listing_from(directories, path, i + 1, k);
    }
}

/// Without a listing of a path nothing is in it.
proof fn lemma_no_listing(directories: Seq<DirectoryListing>, path: Seq<char>, i: int)
    requires
        0 <= i <= directories.len(),
        forall|j: int| i <= j < directories.len() ==> (#[trigger] directories[j]).path@ != path,
    ensures
        listing_from(directories, path, i).len() == 0,
    decreases directories.len() - i,
{
    if i < directories.len() {
        lemma_no_listing(directories, path, i + 1);
    }
}

/// What was found in a directory is what the first listing of its path says, and nothing where
/// there is none.
pub proof fn law_listing_is_found_by_path(
    directories: Seq<DirectoryListing>,
    path: Seq<char>,
    k: int,
)
    ensures
        0 <= k < directories.len() && directories[k].path@ == path && (forall|j: int|
            0 <= j < k ==> (#[trigger] directories[j]).path@ != path) ==> listing_from(
            directories,
            path,
            0,
        ) == directories[k].files@,
        (forall|j: int| 0 <= j < directories.len() ==> (#[trigger] directories[j]).path@ != path)
            ==> listing_from(directories, path, 0).len() == 0,
{
    if 0 <= k < directories.len() && directories[k].path@ == path && (forall|j: int|
        0 <= j < k ==> (#[trigger] directories[j]).path@ != path) {
        lemma_listing_from(directories, path, 0, k);
    }
    if forall|j: int| 0 <= j < directories.len() ==> (#[trigger] directories[j]).path@ != path {
        lemma_no_listing(directories, path, 0);
    }
}

/// A directory has the mark of a project where a `package.json`, a `Cargo.toml` or a
/// `pyproject.toml` is a file in it, or anything in it is named `.git`.
pub proof fn law_marks_of_a_project(files: Seq<FileEntry>)
    ensures
        has_file(files, "package.json"@) ==> marks_project(files),
        has_file(files, "Cargo.toml"@) ==> marks_project(files),
        has_file(files, "pyproject.toml"@) ==> marks_project(files),
        has_entry(files, ".git"@) ==> marks_project(files),
        !has_file(files, "package.json"@) && !has_file(files, "Cargo.toml"@) && !has_file(
            files,
            "pyproject.toml"@,
        ) && !has_entry(files, ".git"@) ==> !marks_project(files),
{
}

/// Whether a directory may be that of a project and has the mark of one.
pub open spec fn is_marked(
    path: Seq<char>,
    home: Option<Seq<char>>,
    directories: Seq<DirectoryListing>,
) -> bool {
    may_be_project(path, home) && marks_project(listing_from(directories, path, 0))
}

/// The project of nested directories, from one of them on.
proof fn lemma_nearest(
    nested: Seq<Seq<char>>,
    home: Option<Seq<char>>,
    directories: Seq<DirectoryListing>,
    i: int,
    k: int,
)
    requires
        0 <= i <= k <= nested.len(),
        forall|j: int|
            i <= j < k ==> !is_at_home(#[trigger] nested[j], home) && !is_marked(
                nested[j],
                home,
                directories,
            ),
    ensures
        project_from(nested, home, directories, i) == project_from(nested, home, directories, k),
    decreases k - i,
{
    if i < k {
        assert(!is_at_home(nested[i], home));
        lemma_nearest(nested, home, directories, i + 1, k);
    }
}

/// The project around a working directory is that of the nearest directory, from there upwards,
/// that has the mark of one, where the home directory does not come before it.
pub proof fn law_nearest_marked_directory_is_the_project(
    cwd: Seq<char>,
    home: Option<Seq<char>>,
    directories: Seq<DirectoryListing>,
    k: int,
)
    requires
        0 <= k < ancestors(cwd).len(),
        forall|j: int|
            0 <= j < k ==> !is_at_home(#[trigger] ancestors(cwd)[j], home) && !is_marked(
                ancestors(cwd)[j],
                home,
                directories,
            ),
    ensures
        is_marked(ancestors(cwd)[k], home, directories) ==> project_around(cwd, home, directories)
            == project_in(ancestors(cwd)[k], listing_from(directories, ancestors(cwd)[k], 0)),
        is_at_home(ancestors(cwd)[k], home) ==> project_around(cwd, home, directories) is None,
        k == ancestors(cwd).len() - 1 && !is_marked(ancestors(cwd)[k], home, directories)
            ==> project_around(cwd, home, directories) is None,
{
    let nested = ancestors(cwd);
    lemma_nearest(nested, home, directories, 0, k);
    if is_marked(nested[k], home, directories) {
        assert(!is_home(nested[k], home));
    }
    assert(project_from(nested, home, directories, k + 1) is None || k + 1 < nested.len());
}

/// A project that is found in a directory has its path, the name of its package where that can be
/// shown and else that of the directory, and the command that its files suggest.
pub proof fn law_found_project_is_named(path: Seq<char>, files: Seq<FileEntry>)
    ensures
        match project_in(path, files) {
            Some(project) => {
                &&& project.path == path
                &&& project.suggested_start_command == start_command(files)
                &&& directory_package_name(files) is Some ==> Some(project.name)
                    == directory_package_name(files)
                &&& directory_package_name(files) is None ==> Some(project.name) == file_name(path)
            },
            None => directory_package_name(files) is None && file_name(path) is None,
        },
        directory_package_name(files) == match file_named(files, "package.json"@) {
            FileModel::Text(contents) => match manifest_in(contents) {
                Ok(manifest) => shown_name(manifest),
                Err(_) => None,
            },
            FileModel::Missing => None,
            FileModel::Unreadable(_) => None,
        },
{
}

/// The name of a package is shown, without the white space around it, where it is not blank, takes
/// no more than 214 bytes and holds no control character.
pub proof fn law_which_names_are_shown(manifest: ManifestModel, name: Seq<char>)
    ensures
        shown_name(manifest) == Some(name) <==> {
            &&& manifest.name is Some
            &&& name == trimmed(manifest.name->0)
            &&& name.len() > 0
            &&& vstd::utf8::encode_utf8(name).len() < 215
            &&& none_in(name, CharSet::Control)
        },
{
    law_mentions(name, CharSet::Control);
    if manifest.name is Some {
        law_mentions(trimmed(manifest.name->0), CharSet::Control);
    }
}

/// The directories to look into, among nested ones from one of them on.
proof fn lemma_inspected(nested: Seq<Seq<char>>, home: Option<Seq<char>>, i: int, h: int)
    requires
        0 <= i <= h <= nested.len(),
        h == nested.len() || is_at_home(nested[h], home),
        forall|j: int| 0 <= j < h ==> !is_at_home(#[trigger] nested[j], home),
    ensures
        picked(
            nested.take(i),
            |path: Seq<char>|
                if may_be_project(path, home) {
                    Some(path)
                } else {
                    None
                },
        ) + inspected_from(nested, home, i) == picked(
            nested.take(h),
            |path: Seq<char>|
                if may_be_project(path, home) {
                    Some(path)
                } else {
                    None
                },
        ),
    decreases h - i,
{
    let candidate = |path: Seq<char>|
        if may_be_project(path, home) {
            Some(path)
        } else {
            None
        };
    let before = picked(nested.take(i), candidate);
    if i < h {
        assert(!is_at_home(nested[i], home));
        lemma_inspected(nested, home, i + 1, h);
        lemma_picked_push(nested, candidate, i + 1);
        let rest = inspected_from(nested, home, i + 1);
        if may_be_project(nested[i], home) {
            assert(before.push(nested[i]) + rest =~= before + (seq![nested[i]] + rest));
        }
    } else {
        assert(inspected_from(nested, home, h).len() == 0);
        assert(before + inspected_from(nested, home, h) =~= before);
    }
}

/// The directories to look into are all those from the working directory upwards that may be
/// projects, up to the home directory, the nearest first.
pub proof fn law_directories_up_to_home_are_inspected(
    cwd: Seq<char>,
    home: Option<Seq<char>>,
    h: int,
)
    requires
        0 <= h <= ancestors(cwd).len(),
        h == ancestors(cwd).len() || is_at_home(ancestors(cwd)[h], home),
        forall|j: int| 0 <= j < h ==> !is_at_home(#[trigger] ancestors(cwd)[j], home),
    ensures
        inspected_from(ancestors(cwd), home, 0) == picked(
            ancestors(cwd).take(h),
            |path: Seq<char>|
                if may_be_project(path, home) {
                    Some(path)
                } else {
                    None
                },
        ),
{
    let nested = ancestors(cwd);
    let candidate = |path: Seq<char>|
        if may_be_project(path, home) {
            Some(path)
        } else {
            None
        };
    lemma_inspected(nested, home, 0, h);
    lemma_picked_none(nested, candidate);
    assert(Seq::<Seq<char>>::empty() + inspected_from(nested, home, 0) =~= inspected_from(
        nested,
        home,
        0,
    ));
}

/// A path lies in the folders exactly where it lies within one of them.
pub proof fn law_path_lies_in_any_folder(path: Seq<char>, folders: Seq<Seq<char>>)
    ensures
        in_folders(path, folders) <==> exists|i: int|
            0 <= i < folders.len() && within(path, #[trigger] folders[i]),
{
}

/// Whatever is reported of a listener says its port, its process and the name of that; it works in
/// one of the folders, and the path reported lies in one of them. That path is the one to which a
/// kept project's resolves, or else that of the project around the working directory.
pub proof fn law_report_is_about_the_listener(
    listener: ListenerModel,
    cwds: Map<i32, Seq<char>>,
    saved: Seq<SavedProject>,
    folders: Seq<Seq<char>>,
    home: Option<Seq<char>>,
    directories: Seq<DirectoryListing>,
)
    requires
        discovery_of(listener, cwds, saved, folders, home, directories) is Some,
    ensures
        ({
            let found = discovery_of(listener, cwds, saved, folders, home, directories)->0;
            let around = project_around(cwds[listener.pid], home, directories);
            &&& found.port == listener.port
            &&& found.pid == listener.pid
            &&& found.process_name == listener.process_name
            &&& cwds.contains_key(listener.pid)
            &&& exists|i: int|
                0 <= i < folders.len() && within(cwds[listener.pid], #[trigger] folders[i])
            &&& found.path is Some
            &&& exists|i: int|
                0 <= i < folders.len() && within(found.path->0, #[trigger] folders[i])
            &&& found.project_id is None ==> around is Some && found.path == Some(around->0.path)
                && found.name == around->0.name && found.suggested_start_command
                == around->0.suggested_start_command
            &&& found.project_id is Some ==> exists|s: int|
                {
                    &&& 0 <= s < saved.len()
                    &&& Some((#[trigger] saved[s]).project.id@) == found.project_id
                    &&& found.name == saved[s].project.name@
                    &&& found.suggested_start_command == Some(saved[s].project.start_command@)
                    &&& saved[s].canonical_path is Some ==> found.path == Some(
                        saved[s].canonical_path->0@,
                    )
                    &&& saved[s].canonical_path is None ==> around is Some && found.path == Some(
                        around->0.path,
                    )
                }
        }),
{
    let cwd = cwds[listener.pid];
    let at = crate::discovery::metadata_path(project_around(cwd, home, directories));
    let found = discovery_of(listener, cwds, saved, folders, home, directories)->0;
    if found.project_id is Some {
        let s = only_match(saved, listener.port, at, Some(cwd))->0;
        assert(is_only_match(saved, listener.port, at, Some(cwd), s));
        assert(Some(saved[s].project.id@) == found.project_id);
    }
}

} // verus!
