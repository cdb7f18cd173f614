//! Which folders are searched, and which servers are found in them.

use vstd::prelude::*;

use crate::discovery::{
    discoveries, discovery_of, is_only_match, may_belong, only_match, project_around,
    DirectoryListing, DiscoveredModel, SavedProject,
};
use crate::folders::{available_folders, folder_warnings, in_folders, FolderChoice};
use crate::listeners::ListenerModel;
use crate::paths::{components, within};
use crate::projects::PathResolution;
use crate::selection::{gives, lemma_picked_none, lemma_picked_push, lemma_picked_values, picked};

verus! {

/// The directory that a choice resolves to, if it resolves to one.
pub open spec fn directory_of(choice: FolderChoice) -> Option<Seq<char>> {
    match choice.resolution {
        PathResolution::Resolved { path, is_directory } => if is_directory {
            Some(path@)
        } else {
            None
        },
        PathResolution::NotText => None,
        PathResolution::Failed(_) => None,
    }
}

/// What is said of a choice that resolves to no directory.
pub open spec fn complaint_about(choice: FolderChoice) -> Option<Seq<char>> {
    match directory_of(choice) {
        Some(_) => None,
        None => Some("Discovery folder is unavailable: "@ + choice.folder@),
    }
}

/// The first choices are searched or warned of, each in its order.
proof fn lemma_sorted_out(choices: Seq<FolderChoice>, n: int)
    requires
        0 <= n <= choices.len(),
    ensures
        available_folders(choices, n) == picked(
            choices.take(n),
            |choice: FolderChoice| directory_of(choice),
        ),
        folder_warnings(choices, n) == picked(
            choices.take(n),
            |choice: FolderChoice| complaint_about(choice),
        ),
        available_folders(choices, n).len() + folder_warnings(choices, n).len() == n,
    decreases n,
{
    let directory = |choice: FolderChoice| directory_of(choice);
    let complaint = |choice: FolderChoice| complaint_about(choice);
    if n > 0 {
        lemma_sorted_out(choices, n - 1);
        lemma_picked_push(choices, directory, n);
        lemma_picked_push(choices, complaint, n);
    } else {
        lemma_picked_none(choices, directory);
        lemma_picked_none(choices, complaint);
    }
}

/// Each choice is either searched or warned of: the folders searched are the directories that the
/// choices resolve to, all of them and in their order, and there is a warning for each of the
/// other choices.
pub proof fn law_each_folder_is_searched_or_warned_of(choices: Seq<FolderChoice>)
    ensures
        ({
            let searched = available_folders(choices, choices.len() as int);
            let warnings = folder_warnings(choices, choices.len() as int);
            &&& searched == picked(choices, |choice: FolderChoice| directory_of(choice))
            &&& warnings == picked(choices, |choice: FolderChoice| complaint_about(choice))
            &&& searched.len() + warnings.len() == choices.len()
            &&& forall|i: int|
                0 <= i < choices.len() ==> match directory_of(#[trigger] choices[i]) {
                    Some(path) => searched.contains(path),
                    None => warnings.contains(
                        "Discovery folder is unavailable: "@ + choices[i].folder@,
                    ),
                }
            &&& forall|path: Seq<char>| #[trigger]
                searched.contains(path) ==> exists|i: int|
                    0 <= i < choices.len() && directory_of(#[trigger] choices[i]) == Some(path)
            &&& forall|warning: Seq<char>| #[trigger]
                warnings.contains(warning) ==> exists|i: int|
                    0 <= i < choices.len() && directory_of(#[trigger] choices[i]) is None && warning
                        == "Discovery folder is unavailable: "@ + choices[i].folder@
        }),
{
    let n = choices.len() as int;
    let directory = |choice: FolderChoice| directory_of(choice);
    let complaint = |choice: FolderChoice| complaint_about(choice);
    let searched = available_folders(choices, n);
    let warnings = folder_warnings(choices, n);
    assert(choices.take(n) =~= choices);
    lemma_sorted_out(choices, n);
    lemma_picked_values(choices, directory);
    lemma_picked_values(choices, complaint);
    assert forall|i: int| 0 <= i < choices.len() implies match directory_of(#[trigger] choices[i]) {
        Some(path) => searched.contains(path),
        None => warnings.contains("Discovery folder is unavailable: "@ + choices[i].folder@),
    } by {
        match directory_of(choices[i]) {
            Some(path) => {
                assert(directory(choices[i]) == Some(path));
                assert(gives(choices, directory, path));
            },
            None => {
                let warning = "Discovery folder is unavailable: "@ + choices[i].folder@;
                assert(complaint(choices[i]) == Some(warning));
                assert(gives(choices, complaint, warning));
            },
        }
    }
    assert forall|path: Seq<char>| #[trigger] searched.contains(path) implies exists|i: int|
        0 <= i < choices.len() && directory_of(#[trigger] choices[i]) == Some(path) by {
        assert(gives(choices, directory, path));
        let i = choose|i: int| 0 <= i < choices.len() && directory(#[trigger] choices[i]) == Some(path);
        assert(directory_of(choices[i]) == Some(path));
    }
    assert forall|warning: Seq<char>| #[trigger] warnings.contains(warning) implies exists|i: int|
        0 <= i < choices.len() && directory_of(#[trigger] choices[i]) is None && warning
            == "Discovery folder is unavailable: "@ + choices[i].folder@ by {
        assert(gives(choices, complaint, warning));
        let i = choose|i: int|
            0 <= i < choices.len() && complaint(#[trigger] choices[i]) == Some(warning);
        assert(complaint_about(choices[i]) == Some(warning));
    }
}

/// What is reported of the first listeners, one after the other.
proof fn lemma_discoveries(
    listeners: Seq<ListenerModel>,
    cwds: Map<i32, Seq<char>>,
    saved: Seq<SavedProject>,
    folders: Seq<Seq<char>>,
    home: Option<Seq<char>>,
    directories: Seq<DirectoryListing>,
    n: int,
)
    requires
        0 <= n <= listeners.len(),
    ensures
        discoveries(listeners, cwds, saved, folders, home, directories, n) == picked(
            listeners.take(n),
            |listener: ListenerModel|
                discovery_of(listener, cwds, saved, folders, home, directories),
        ),
    decreases n,
{
    let report = |listener: ListenerModel|
        discovery_of(listener, cwds, saved, folders, home, directories);
    if n > 0 {
        lemma_discoveries(listeners, cwds, saved, folders, home, directories, n - 1);
        lemma_picked_push(listeners, report, n);
    } else {
        lemma_picked_none(listeners, report);
    }
}

/// Every listener of which something is to be reported is, in the order of the listeners, and
/// nothing else is.
pub proof fn law_each_listener_is_considered(
    listeners: Seq<ListenerModel>,
    cwds: Map<i32, Seq<char>>,
    saved: Seq<SavedProject>,
    folders: Seq<Seq<char>>,
    home: Option<Seq<char>>,
    directories: Seq<DirectoryListing>,
)
    ensures
        ({
            let report = |listener: ListenerModel|
                discovery_of(listener, cwds, saved, folders, home, directories);
            let found = discoveries(
                listeners,
                cwds,
                saved,
                folders,
                home,
                directories,
                listeners.len() as int,
            );
            &&& found == picked(listeners, report)
            &&& forall|one: DiscoveredModel| #[trigger]
                found.contains(one) <==> gives(listeners, report, one)
        }),
{
    let report = |listener: ListenerModel|
        discovery_of(listener, cwds, saved, folders, home, directories);
    let n = listeners.len() as int;
    assert(listeners.take(n) =~= listeners);
    lemma_discoveries(listeners, cwds, saved, folders, home, directories, n);
    lemma_picked_values(listeners, report);
}

/// Whether a path and that of a kept project have the same components. A kept project counts
/// under the path that its own resolves to, where it resolves to one.
pub open spec fn is_path_of(path: Seq<char>, saved: SavedProject) -> bool {
    match saved.canonical_path {
        Some(canonical) => components(path) == components(canonical@),
        None => components(path) == components(saved.project.path@),
    }
}

/// Whether a listener on `port` comes into question for a kept project: the project has that port,
/// and its path is the listener's working directory or that of the project around it.
pub open spec fn comes_into_question(
    saved: SavedProject,
    port: u16,
    cwd: Seq<char>,
    around: Option<Seq<char>>,
) -> bool {
    &&& saved.project.port == port
    &&& is_path_of(cwd, saved) || (around is Some && is_path_of(around->0, saved))
}

/// The two ways to say that a listener comes into question agree.
proof fn lemma_may_belong(
    saved: SavedProject,
    port: u16,
    cwd: Seq<char>,
    around: Option<Seq<char>>,
)
    ensures
        may_belong(saved, port, around, Some(cwd)) == comes_into_question(
            saved,
            port,
            cwd,
            around,
        ),
{
}

/// A server that comes into question for no kept project, or for more than one, is reported
/// whenever its working directory lies in any of the folders that can be searched and the project
/// around it lies in any of them.
pub proof fn law_new_server_in_any_folder_is_reported(
    choices: Seq<FolderChoice>,
    a: int,
    b: int,
    listeners: Seq<ListenerModel>,
    x: int,
    cwds: Map<i32, Seq<char>>,
    saved: Seq<SavedProject>,
    home: Option<Seq<char>>,
    directories: Seq<DirectoryListing>,
)
    requires
        0 <= x < listeners.len(),
        cwds.contains_key(listeners[x].pid),
        0 <= a < choices.len(),
        directory_of(choices[a]) is Some,
        within(cwds[listeners[x].pid], directory_of(choices[a])->0),
        project_around(cwds[listeners[x].pid], home, directories) is Some,
        0 <= b < choices.len(),
        directory_of(choices[b]) is Some,
        within(
            project_around(cwds[listeners[x].pid], home, directories)->0.path,
            directory_of(choices[b])->0,
        ),
        forall|s: int|
            0 <= s < saved.len() && comes_into_question(
                #[trigger] saved[s],
                listeners[x].port,
                cwds[listeners[x].pid],
                Some(project_around(cwds[listeners[x].pid], home, directories)->0.path),
            ) ==> exists|t: int|
                0 <= t < saved.len() && t != s && comes_into_question(
                    #[trigger] saved[t],
                    listeners[x].port,
                    cwds[listeners[x].pid],
                    Some(project_around(cwds[listeners[x].pid], home, directories)->0.path),
                ),
    ensures
        ({
            let project = project_around(cwds[listeners[x].pid], home, directories)->0;
            discoveries(
                listeners,
                cwds,
                saved,
                available_folders(choices, choices.len() as int),
                home,
                directories,
                listeners.len() as int,
            ).contains(
                DiscoveredModel {
                    port: listeners[x].port,
                    pid: listeners[x].pid,
                    process_name: listeners[x].process_name,
                    name: project.name,
                    path: Some(project.path),
                    project_id: None,
                    suggested_start_command: project.suggested_start_command,
                },
            )
        }),
{
    let folders = available_folders(choices, choices.len() as int);
    let listener = listeners[x];
    let cwd = cwds[listener.pid];
    let project = project_around(cwd, home, directories)->0;
    let report = |listener: ListenerModel|
        discovery_of(listener, cwds, saved, folders, home, directories);
    law_each_folder_is_searched_or_warned_of(choices);
    lemma_in_folders(cwd, folders, directory_of(choices[a])->0);
    lemma_in_folders(project.path, folders, directory_of(choices[b])->0);
    assert forall|i: int| !is_only_match(
        saved,
        listener.port,
        Some(project.path),
        Some(cwd),
        i,
    ) by {
        if 0 <= i < saved.len() {
            lemma_may_belong(saved[i], listener.port, cwd, Some(project.path));
            if comes_into_question(saved[i], listener.port, cwd, Some(project.path)) {
                let t = choose|t: int|
                    0 <= t < saved.len() && t != i && comes_into_question(
                        #[trigger] saved[t],
                        listener.port,
                        cwd,
                        Some(project.path),
                    );
                lemma_may_belong(saved[t], listener.port, cwd, Some(project.path));
            }
        }
    }
    assert(only_match(saved, listener.port, Some(project.path), Some(cwd)) is None);
    law_each_listener_is_considered(listeners, cwds, saved, folders, home, directories);
    let found = report(listeners[x]);
    assert(found is Some);
    assert(gives(listeners, report, found->0));
}

/// A path that lies in a folder that is searched lies in the folders.
proof fn lemma_in_folders(path: Seq<char>, folders: Seq<Seq<char>>, folder: Seq<char>)
    requires
        folders.contains(folder),
        within(path, folder),
    ensures
        in_folders(path, folders),
{
    let i = choose|i: int| 0 <= i < folders.len() && folders[i] == folder;
    assert(within(path, folders[i]));
}

/// A server that comes into question for one kept project alone is reported as that project's,
/// whenever its working directory lies in any of the folders that can be searched and the
/// project's own path lies in any of them.
pub proof fn law_server_of_a_kept_project_is_reported(
    choices: Seq<FolderChoice>,
    a: int,
    b: int,
    listeners: Seq<ListenerModel>,
    x: int,
    cwds: Map<i32, Seq<char>>,
    saved: Seq<SavedProject>,
    s: int,
    home: Option<Seq<char>>,
    directories: Seq<DirectoryListing>,
)
    requires
        0 <= x < listeners.len(),
        cwds.contains_key(listeners[x].pid),
        0 <= a < choices.len(),
        directory_of(choices[a]) is Some,
        within(cwds[listeners[x].pid], directory_of(choices[a])->0),
        0 <= s < saved.len(),
        saved[s].canonical_path is Some,
        0 <= b < choices.len(),
        directory_of(choices[b]) is Some,
        within(saved[s].canonical_path->0@, directory_of(choices[b])->0),
        forall|t: int|
            0 <= t < saved.len() ==> (comes_into_question(
                #[trigger] saved[t],
                listeners[x].port,
                cwds[listeners[x].pid],
                match project_around(cwds[listeners[x].pid], home, directories) {
                    Some(project) => Some(project.path),
                    None => None,
                },
            ) <==> t == s),
    ensures
        discoveries(
            listeners,
            cwds,
            saved,
            available_folders(choices, choices.len() as int),
            home,
            directories,
            listeners.len() as int,
        ).contains(
            DiscoveredModel {
                port: listeners[x].port,
                pid: listeners[x].pid,
                process_name: listeners[x].process_name,
                name: saved[s].project.name@,
                path: Some(saved[s].canonical_path->0@),
                project_id: Some(saved[s].project.id@),
                suggested_start_command: Some(saved[s].project.start_command@),
            },
        ),
{
    let folders = available_folders(choices, choices.len() as int);
    let listener = listeners[x];
    let cwd = cwds[listener.pid];
    let around = match project_around(cwd, home, directories) {
        Some(project) => Some(project.path),
        None => None,
    };
    let report = |listener: ListenerModel|
        discovery_of(listener, cwds, saved, folders, home, directories);
    law_each_folder_is_searched_or_warned_of(choices);
    lemma_in_folders(cwd, folders, directory_of(choices[a])->0);
    lemma_in_folders(saved[s].canonical_path->0@, folders, directory_of(choices[b])->0);
    assert forall|i: int| is_only_match(saved, listener.port, around, Some(cwd), i) <==> i == s by {
        assert forall|t: int| 0 <= t < saved.len() implies (may_belong(
            #[trigger] saved[t],
            listener.port,
            around,
            Some(cwd),
        ) <==> t == s) by {
            lemma_may_belong(saved[t], listener.port, cwd, around);
        }
        assert(may_belong(saved[s], listener.port, around, Some(cwd)));
    }
    assert(is_only_match(saved, listener.port, around, Some(cwd), s));
    assert(only_match(saved, listener.port, around, Some(cwd)) == Some(s));
    law_each_listener_is_considered(listeners, cwds, saved, folders, home, directories);
    let found = report(listeners[x]);
    assert(found is Some);
    assert(gives(listeners, report, found->0));
}

/// A server that comes into question for one kept project alone, whose own path does not resolve,
/// is reported as that project's at the path of the project around it, whenever that and its working
/// directory lie in any of the folders that can be searched.
pub proof fn law_server_of_an_unreachable_project_is_reported(
    choices: Seq<FolderChoice>,
    a: int,
    b: int,
    listeners: Seq<ListenerModel>,
    x: int,
    cwds: Map<i32, Seq<char>>,
    saved: Seq<SavedProject>,
    s: int,
    home: Option<Seq<char>>,
    directories: Seq<DirectoryListing>,
)
    requires
        0 <= x < listeners.len(),
        cwds.contains_key(listeners[x].pid),
        0 <= a < choices.len(),
        directory_of(choices[a]) is Some,
        within(cwds[listeners[x].pid], directory_of(choices[a])->0),
        0 <= s < saved.len(),
        saved[s].canonical_path is None,
        project_around(cwds[listeners[x].pid], home, directories) is Some,
        0 <= b < choices.len(),
        directory_of(choices[b]) is Some,
        within(
            project_around(cwds[listeners[x].pid], home, directories)->0.path,
            directory_of(choices[b])->0,
        ),
        forall|t: int|
            0 <= t < saved.len() ==> (comes_into_question(
                #[trigger] saved[t],
                listeners[x].port,
                cwds[listeners[x].pid],
                match project_around(cwds[listeners[x].pid], home, directories) {
                    Some(project) => Some(project.path),
                    None => None,
                },
            ) <==> t == s),
    ensures
        discoveries(
            listeners,
            cwds,
            saved,
            available_folders(choices, choices.len() as int),
            home,
            directories,
            listeners.len() as int,
        ).contains(
            DiscoveredModel {
                port: listeners[x].port,
                pid: listeners[x].pid,
                process_name: listeners[x].process_name,
                name: saved[s].project.name@,
                path: Some(project_around(cwds[listeners[x].pid], home, directories)->0.path),
                project_id: Some(saved[s].project.id@),
                suggested_start_command: Some(saved[s].project.start_command@),
            },
        ),
{
    let folders = available_folders(choices, choices.len() as int);
    let listener = listeners[x];
    let cwd = cwds[listener.pid];
    let around = match project_around(cwd, home, directories) {
        Some(project) => Some(project.path),
        None => None,
    };
    let report = |listener: ListenerModel|
        discovery_of(listener, cwds, saved, folders, home, directories);
    law_each_folder_is_searched_or_warned_of(choices);
    lemma_in_folders(cwd, folders, directory_of(choices[a])->0);
    lemma_in_folders(around->0, folders, directory_of(choices[b])->0);
    assert forall|i: int| is_only_match(saved, listener.port, around, Some(cwd), i) <==> i == s by {
        assert forall|t: int| 0 <= t < saved.len() implies (may_belong(
            #[trigger] saved[t],
            listener.port,
            around,
            Some(cwd),
        ) <==> t == s) by {
            lemma_may_belong(saved[t], listener.port, cwd, around);
        }
        assert(may_belong(saved[s], listener.port, around, Some(cwd)));
    }
    assert(is_only_match(saved, listener.port, around, Some(cwd), s));
    assert(only_match(saved, listener.port, around, Some(cwd)) == Some(s));
    law_each_listener_is_considered(listeners, cwds, saved, folders, home, directories);
    let found = report(listeners[x]);
    assert(found is Some);
    assert(gives(listeners, report, found->0));
}

/// There is something to search exactly where some choice resolves to a directory.
pub proof fn law_any_directory_is_searched(choices: Seq<FolderChoice>)
    ensures
        available_folders(choices, choices.len() as int).len() > 0 <==> exists|i: int|
            0 <= i < choices.len() && directory_of(#[trigger] choices[i]) is Some,
{
    let searched = available_folders(choices, choices.len() as int);
    law_each_folder_is_searched_or_warned_of(choices);
    if searched.len() > 0 {
        assert(searched.contains(searched[0]));
    }
    if exists|i: int| 0 <= i < choices.len() && directory_of(#[trigger] choices[i]) is Some {
        let i = choose|i: int|
            0 <= i < choices.len() && directory_of(#[trigger] choices[i]) is Some;
        assert(searched.contains(directory_of(choices[i])->0));
    }
}

} // verus!
