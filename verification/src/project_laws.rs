//! Which projects are accepted, and what becomes of the list.

use vstd::prelude::*;

use crate::numbers::decimal;
use crate::ordering::{new_order, reordered};
use crate::projects::{
    add_refusal, changed_project, id_from, localhost_url, made_project, path_holder_from,
    project_under, refusal, update_refusal, with_id, without_id, AddProjectInput, PathResolution,
    ProjectModel, UpdateProjectInput,
};
use crate::selection::{lemma_picked_none, lemma_picked_push, picked};
use crate::text::{trimmed, CharSet};
use crate::text_laws::{all_in, bare, law_blank_is_white_space, law_strip_leaves_the_middle};

verus! {

/// Whether a text has a character that is not white space.
pub open spec fn is_filled_in(s: Seq<char>) -> bool {
    exists|i: int| 0 <= i < s.len() && !CharSet::WhiteSpace.has(#[trigger] s[i])
}

/// The directory that a path was resolved to, if it was resolved to one.
pub open spec fn directory_at(resolution: PathResolution) -> Option<Seq<char>> {
    match resolution {
        PathResolution::Resolved { path, is_directory } => if is_directory {
            Some(path@)
        } else {
            None
        },
        _ => None,
    }
}

/// A text is filled in exactly where something is left of it once it is trimmed.
proof fn lemma_filled_in(s: Seq<char>)
    ensures
        is_filled_in(s) <==> trimmed(s).len() > 0,
{
    law_blank_is_white_space(s);
}

/// The first project that holds a path, not counting those of the ignored identifier.
proof fn lemma_path_holder(
    projects: Seq<ProjectModel>,
    path: Seq<char>,
    ignored: Option<Seq<char>>,
    i: int,
)
    requires
        0 <= i <= projects.len(),
    ensures
        match path_holder_from(projects, path, ignored, i) {
            Some(k) => {
                &&& i <= k < projects.len()
                &&& projects[k].path == path
                &&& ignored != Some(projects[k].id)
                &&& forall|j: int|
                    i <= j < k && (#[trigger] projects[j]).path == path ==> ignored == Some(
                        projects[j].id,
                    )
            },
            None => forall|j: int|
                i <= j < projects.len() && (#[trigger] projects[j]).path == path ==> ignored
                    == Some(projects[j].id),
        },
    decreases projects.len() - i,
{
    if i < projects.len() {
        lemma_path_holder(projects, path, ignored, i + 1);
    }
}

/// Input in order is accepted: a name and a command that are not blank, a port that is not zero,
/// and a directory whose very path no project has that counts.
proof fn lemma_accepted(
    name: Seq<char>,
    resolution: PathResolution,
    port: u16,
    start_command: Seq<char>,
    projects: Seq<ProjectModel>,
    ignored: Option<Seq<char>>,
)
    ensures
        refusal(name, resolution, port, start_command, projects, ignored) is None <==> {
            &&& is_filled_in(name)
            &&& port != 0
            &&& is_filled_in(start_command)
            &&& directory_at(resolution) is Some
            &&& forall|j: int|
                0 <= j < projects.len() && (#[trigger] projects[j]).path == directory_at(
                    resolution,
                )->0 ==> ignored == Some(projects[j].id)
        },
{
    lemma_filled_in(name);
    lemma_filled_in(start_command);
    if directory_at(resolution) is Some {
        lemma_path_holder(projects, directory_at(resolution)->0, ignored, 0);
    }
}

/// A new project is accepted exactly where its name and its command are not blank, its port is not
/// zero, its path resolves to a directory and no project in the list has that very path. It is
/// then added with what was entered.
pub proof fn law_new_project_in_order_is_accepted(
    projects: Seq<ProjectModel>,
    input: AddProjectInput,
    resolution: PathResolution,
    id: Seq<char>,
    created_at: Seq<char>,
)
    ensures
        add_refusal(projects, input, resolution) is None <==> {
            &&& is_filled_in(input.name@)
            &&& input.port != 0
            &&& is_filled_in(input.start_command@)
            &&& directory_at(resolution) is Some
            &&& forall|j: int|
                0 <= j < projects.len() ==> (#[trigger] projects[j]).path != directory_at(
                    resolution,
                )->0
        },
        ({
            let made = made_project(input, resolution, id, created_at);
            &&& made.id == id
            &&& made.created_at == created_at
            &&& made.port == input.port
            &&& directory_at(resolution) is Some ==> made.path == directory_at(resolution)->0
        }),
{
    lemma_accepted(
        input.name@,
        resolution,
        input.port,
        input.start_command@,
        projects,
        None,
    );
}

/// A change of a kept project is accepted exactly where the name and the command are not blank, the
/// port is not zero, the path resolves to a directory and no project with another identifier has
/// that very path. The project keeps its identifier and the time at which it was made.
pub proof fn law_change_in_order_is_accepted(
    projects: Seq<ProjectModel>,
    input: UpdateProjectInput,
    resolution: PathResolution,
    project: ProjectModel,
)
    ensures
        update_refusal(projects, input, resolution) is None <==> {
            &&& exists|i: int| 0 <= i < projects.len() && (#[trigger] projects[i]).id == input.id@
            &&& is_filled_in(input.name@)
            &&& input.port != 0
            &&& is_filled_in(input.start_command@)
            &&& directory_at(resolution) is Some
            &&& forall|j: int|
                0 <= j < projects.len() && (#[trigger] projects[j]).id != input.id@
                    ==> projects[j].path != directory_at(resolution)->0
        },
        (forall|i: int| 0 <= i < projects.len() ==> (#[trigger] projects[i]).id != input.id@)
            ==> update_refusal(projects, input, resolution) == Some("Project not found"@),
        ({
            let changed = changed_project(project, input, resolution);
            &&& changed.id == project.id
            &&& changed.created_at == project.created_at
            &&& changed.port == input.port
            &&& directory_at(resolution) is Some ==> changed.path == directory_at(resolution)->0
        }),
{
    law_project_is_found_by_identifier(projects, input.id@);
    lemma_accepted(
        input.name@,
        resolution,
        input.port,
        input.start_command@,
        projects,
        Some(input.id@),
    );
}

/// The name and the command of a project are what was entered without the white space around it.
pub proof fn law_entered_text_is_trimmed(
    input: AddProjectInput,
    change: UpdateProjectInput,
    project: ProjectModel,
    resolution: PathResolution,
    lead: Seq<char>,
    text: Seq<char>,
    tail: Seq<char>,
)
    requires
        all_in(lead, CharSet::WhiteSpace),
        all_in(tail, CharSet::WhiteSpace),
        bare(text, CharSet::WhiteSpace),
    ensures
        ({
            let made = made_project(input, resolution, project.id, project.created_at);
            let changed = changed_project(project, change, resolution);
            &&& input.name@ == lead + text + tail ==> made.name == text
            &&& input.start_command@ == lead + text + tail ==> made.start_command == text
            &&& change.name@ == lead + text + tail ==> changed.name == text
            &&& change.start_command@ == lead + text + tail ==> changed.start_command == text
        }),
{
    law_strip_leaves_the_middle(lead, text, tail, CharSet::WhiteSpace);
}

/// Input that is not in order is refused with the message for the first thing that is wrong with
/// it: the name, the port, the command, the path, and last the project that has the path already.
pub proof fn law_refusal_names_the_first_fault(
    name: Seq<char>,
    resolution: PathResolution,
    port: u16,
    start_command: Seq<char>,
    projects: Seq<ProjectModel>,
    ignored: Option<Seq<char>>,
)
    ensures
        ({
            let message = refusal(name, resolution, port, start_command, projects, ignored);
            let entered = is_filled_in(name) && port != 0 && is_filled_in(start_command);
            &&& !is_filled_in(name) ==> message == Some("Project name cannot be empty"@)
            &&& is_filled_in(name) && port == 0 ==> message == Some(
                "Port must be in the range 1..65535"@,
            )
            &&& is_filled_in(name) && port != 0 && !is_filled_in(start_command) ==> message == Some(
                "Start command cannot be empty"@,
            )
            &&& entered ==> match resolution {
                PathResolution::Failed(error) => message == Some("Invalid path: "@ + error@),
                PathResolution::NotText => message == Some("Path contains invalid UTF-8"@),
                PathResolution::Resolved { path, is_directory } => {
                    &&& !is_directory ==> message == Some(
                        "Project path must be an existing directory"@,
                    )
                    &&& is_directory && message is Some ==> exists|i: int|
                        {
                            &&& 0 <= i < projects.len()
                            &&& (#[trigger] projects[i]).path == path@
                            &&& ignored != Some(projects[i].id)
                            &&& forall|j: int|
                                0 <= j < i && (#[trigger] projects[j]).path == path@ ==> ignored
                                    == Some(projects[j].id)
                            &&& message == Some(
                                "Path '"@ + path@ + "' is already assigned to project '"@
                                    + projects[i].name + "'"@,
                            )
                        }
                },
            }
        }),
{
    lemma_filled_in(name);
    lemma_filled_in(start_command);
    if let PathResolution::Resolved { path, is_directory } = resolution {
        lemma_path_holder(projects, path@, ignored, 0);
        let held = path_holder_from(projects, path@, ignored, 0);
        if held is Some {
            assert(projects[held->0].path == path@);
        }
    }
}

/// The first project with an identifier, searched from a position on.
proof fn lemma_first_with_id(projects: Seq<ProjectModel>, id: Seq<char>, i: int)
    requires
        0 <= i <= projects.len(),
    ensures
        match id_from(projects, id, i) {
            Some(k) => i <= k < projects.len() && projects[k].id == id && forall|j: int|
                i <= j < k ==> (#[trigger] projects[j]).id != id,
            None => forall|j: int| i <= j < projects.len() ==> (#[trigger] projects[j]).id != id,
        },
    decreases projects.len() - i,
{
    if i < projects.len() && projects[i].id != id {
        lemma_first_with_id(projects, id, i + 1);
    }
}

/// A project is found under an identifier exactly where some project has it, and the first one
/// that has it is found.
pub proof fn law_project_is_found_by_identifier(projects: Seq<ProjectModel>, id: Seq<char>)
    ensures
        match with_id(projects, id) {
            Some(i) => {
                &&& 0 <= i < projects.len()
                &&& projects[i].id == id
                &&& forall|j: int| 0 <= j < i ==> (#[trigger] projects[j]).id != id
                &&& project_under(projects, id) == Some(projects[i])
            },
            None => {
                &&& forall|j: int| 0 <= j < projects.len() ==> (#[trigger] projects[j]).id != id
                &&& project_under(projects, id) is None
            },
        },
{
    lemma_first_with_id(projects, id, 0);
}

/// The first projects without those of an identifier, one after the other.
proof fn lemma_without_id_is_picked(projects: Seq<ProjectModel>, id: Seq<char>, n: int)
    requires
        0 <= n <= projects.len(),
    ensures
        without_id(projects, id, n) == picked(
            projects.take(n),
            |project: ProjectModel|
                if project.id == id {
                    None
                } else {
                    Some(project)
                },
        ),
    decreases n,
{
    let other = |project: ProjectModel|
        if project.id == id {
            None
        } else {
            Some(project)
        };
    if n > 0 {
        lemma_without_id_is_picked(projects, id, n - 1);
        lemma_picked_push(projects, other, n);
    } else {
        lemma_picked_none(projects, other);
    }
}

/// Removing leaves all projects with other identifiers, in the order that they had.
pub proof fn law_remove_keeps_the_order(projects: Seq<ProjectModel>, id: Seq<char>)
    ensures
        without_id(projects, id, projects.len() as int) == picked(
            projects,
            |project: ProjectModel|
                if project.id == id {
                    None
                } else {
                    Some(project)
                },
        ),
{
    assert(projects.take(projects.len() as int) =~= projects);
    lemma_without_id_is_picked(projects, id, projects.len() as int);
}

/// A reordered list has at each position the project from the position that the new order names.
pub proof fn law_reordered_projects_are_unchanged(
    projects: Seq<ProjectModel>,
    ids: Seq<Seq<char>>,
)
    ensures
        reordered(projects, ids).len() == projects.len(),
        forall|k: int|
            0 <= k < projects.len() ==> (#[trigger] reordered(projects, ids)[k]) == projects[new_order(
                projects,
                ids,
            )[k]],
{
    crate::ordering::law_reorder_is_a_permutation(projects, ids);
}

/// The address of a port is that of this machine, followed by the port.
pub proof fn law_address_ends_with_the_port(port: u16)
    ensures
        localhost_url(port) == "http://localhost:"@ + decimal(port as nat),
{
}

/// A list has an identifier exactly where some project has it, and its identifiers are distinct
/// exactly where no two projects share one.
pub proof fn law_identifiers_of_a_list(projects: Seq<ProjectModel>, id: Seq<char>)
    ensures
        crate::ownership::has_id(projects, id) <==> exists|i: int|
            0 <= i < projects.len() && (#[trigger] projects[i]).id == id,
        crate::ordering::distinct_ids(projects) <==> forall|i: int, j: int|
            0 <= i < j < projects.len() ==> (#[trigger] projects[i]).id != (
            #[trigger] projects[j]).id,
{
}

} // verus!
