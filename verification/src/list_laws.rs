//! What always holds of the list of projects.

use vstd::prelude::*;

use crate::ordering::{distinct_ids, law_reorder_is_a_permutation, new_order, reordered};
use crate::ownership::has_id;
use crate::projects::{
    add_refusal, changed_project, id_from, is_resolved_directory, made_project, normalized,
    path_holder_from, project_under, update_refusal, with_id, without_id, AddProjectInput,
    PathResolution, ProjectModel, UpdateProjectInput,
};
use crate::text::{law_trim_is_idempotent, trimmed};

verus! {

/// Whether no two projects have one path.
pub open spec fn distinct_paths(projects: Seq<ProjectModel>) -> bool {
    forall|i: int, j: int|
        0 <= i < j < projects.len() ==> (#[trigger] projects[i]).path != (
        #[trigger] projects[j]).path
}

/// Whether a project can be shown, reached and started, and has no white space around its name
/// and its command.
pub open spec fn is_complete(project: ProjectModel) -> bool {
    &&& project.name.len() > 0
    &&& trimmed(project.name) == project.name
    &&& project.port > 0
    &&& project.start_command.len() > 0
    &&& trimmed(project.start_command) == project.start_command
}

/// Whether every project is complete.
pub open spec fn all_complete(projects: Seq<ProjectModel>) -> bool {
    forall|i: int| 0 <= i < projects.len() ==> is_complete(#[trigger] projects[i])
}

/// What the first project with an identifier is.
proof fn lemma_id_from(projects: Seq<ProjectModel>, id: Seq<char>, i: int)
    requires
        0 <= i <= projects.len(),
    ensures
        match id_from(projects, id, i) {
            Some(k) => i <= k < projects.len() && projects[k].id == id && forall|j: int|
                i <= j < k ==> (#[trigger] projects[j]).id != id,
            None => forall|j: int| i <= j < projects.len() ==> (#[trigger] projects[j]).id != id,
        },
    decreases projects.len() - i,
{
    if i < projects.len() && projects[i].id != id {
        lemma_id_from(projects, id, i + 1);
    }
}

/// Where no project has a path, none does.
proof fn lemma_path_is_free(
    projects: Seq<ProjectModel>,
    path: Seq<char>,
    ignored: Option<Seq<char>>,
    i: int,
)
    requires
        0 <= i <= projects.len(),
        path_holder_from(projects, path, ignored, i) is None,
    ensures
        forall|j: int|
            i <= j < projects.len() && ignored != Some((#[trigger] projects[j]).id)
                ==> projects[j].path != path,
    decreases projects.len() - i,
{
    if i < projects.len() {
        lemma_path_is_free(projects, path, ignored, i + 1);
    }
}

/// Adding a project keeps the paths distinct and the projects complete, and the identifiers
/// distinct where its own is new.
pub proof fn law_add_keeps_distinct_and_complete(
    projects: Seq<ProjectModel>,
    input: AddProjectInput,
    resolution: PathResolution,
    id: Seq<char>,
    created_at: Seq<char>,
)
    requires
        add_refusal(projects, input, resolution) is None,
    ensures
        ({
            let project = made_project(input, resolution, id, created_at);
            let after = projects.push(project);
            &&& distinct_paths(projects) ==> distinct_paths(after)
            &&& distinct_ids(projects) && !has_id(projects, id) ==> distinct_ids(after)
            &&& is_complete(project)
            &&& all_complete(projects) ==> all_complete(after)
        }),
{
    let path = normalized(resolution)->Ok_0;
    lemma_path_is_free(projects, path, None, 0);
    law_trim_is_idempotent(input.name@);
    law_trim_is_idempotent(input.start_command@);
    let project = made_project(input, resolution, id, created_at);
    let after = projects.push(project);
    if distinct_ids(projects) && !has_id(projects, id) {
        assert forall|i: int, j: int| 0 <= i < j < after.len() implies (#[trigger] after[i]).id
            != (#[trigger] after[j]).id by {
            if j == projects.len() {
                assert(projects[i].id != id);
            }
        }
    }
}

/// A project that was added is found under its identifier, where that is new.
pub proof fn law_added_project_is_found(
    projects: Seq<ProjectModel>,
    input: AddProjectInput,
    resolution: PathResolution,
    id: Seq<char>,
    created_at: Seq<char>,
)
    requires
        !has_id(projects, id),
    ensures
        ({
            let project = made_project(input, resolution, id, created_at);
            project_under(projects.push(project), id) == Some(project)
        }),
{
    let project = made_project(input, resolution, id, created_at);
    let after = projects.push(project);
    lemma_id_from(after, id, 0);
    let found = with_id(after, id);
    assert(after[projects.len() as int].id == id);
    if let Some(k) = found {
        if k < projects.len() {
            assert(projects[k].id == id);
        }
    }
}

/// A path is kept for one project at a time: a second project with a path in the list is refused.
pub proof fn law_path_is_taken_once(
    projects: Seq<ProjectModel>,
    input: AddProjectInput,
    resolution: PathResolution,
    i: int,
)
    requires
        0 <= i < projects.len(),
        normalized(resolution) == Ok::<Seq<char>, Seq<char>>(projects[i].path),
    ensures
        add_refusal(projects, input, resolution) is Some,
{
    if add_refusal(projects, input, resolution) is None {
        lemma_path_is_free(projects, projects[i].path, None, 0);
        assert(projects[i].path != projects[i].path);
    }
}

/// Changing a project keeps the identifiers distinct and the projects complete, and the paths
/// distinct where the identifiers are.
pub proof fn law_update_keeps_distinct_and_complete(
    projects: Seq<ProjectModel>,
    input: UpdateProjectInput,
    resolution: PathResolution,
)
    requires
        update_refusal(projects, input, resolution) is None,
    ensures
        ({
            let i = with_id(projects, input.id@)->0;
            let project = changed_project(projects[i], input, resolution);
            let after = projects.update(i, project);
            &&& distinct_ids(projects) ==> distinct_ids(after)
            &&& distinct_ids(projects) && distinct_paths(projects) ==> distinct_paths(after)
            &&& is_complete(project)
            &&& all_complete(projects) ==> all_complete(after)
        }),
{
    let path = normalized(resolution)->Ok_0;
    lemma_id_from(projects, input.id@, 0);
    lemma_path_is_free(projects, path, Some(input.id@), 0);
    law_trim_is_idempotent(input.name@);
    law_trim_is_idempotent(input.start_command@);
    let k = with_id(projects, input.id@)->0;
    let after = projects.update(k, changed_project(projects[k], input, resolution));
    if distinct_ids(projects) {
        assert forall|i: int, j: int| 0 <= i < j < after.len() implies (#[trigger] after[i]).id
            != (#[trigger] after[j]).id by {
            assert(projects[i].id != projects[j].id);
        }
        if distinct_paths(projects) {
            assert forall|i: int, j: int| 0 <= i < j < after.len() implies (
            #[trigger] after[i]).path != (#[trigger] after[j]).path by {
                assert(projects[i].path != projects[j].path);
                assert(projects[i].id != projects[j].id);
            }
        }
    }
    if all_complete(projects) {
        assert forall|i: int| 0 <= i < after.len() implies is_complete(#[trigger] after[i]) by {
            assert(is_complete(projects[i]));
        }
    }
}

/// A changed project is found under the identifier that it had, and keeps the time at which it was
/// made.
pub proof fn law_updated_project_is_found(
    projects: Seq<ProjectModel>,
    input: UpdateProjectInput,
    resolution: PathResolution,
)
    requires
        update_refusal(projects, input, resolution) is None,
    ensures
        ({
            let i = with_id(projects, input.id@)->0;
            let project = changed_project(projects[i], input, resolution);
            &&& project_under(projects.update(i, project), input.id@) == Some(project)
            &&& project.created_at == projects[i].created_at
        }),
{
    lemma_id_from(projects, input.id@, 0);
    let i = with_id(projects, input.id@)->0;
    let project = changed_project(projects[i], input, resolution);
    let after = projects.update(i, project);
    lemma_id_from(after, input.id@, 0);
    assert(after[i].id == input.id@);
    if let Some(k) = with_id(after, input.id@) {
        if k < i {
            assert(projects[k].id == input.id@);
        }
    }
}

/// Where only projects with the ignored identifier have a path, none stands in the way.
proof fn lemma_path_becomes_free(
    projects: Seq<ProjectModel>,
    path: Seq<char>,
    ignored: Seq<char>,
    i: int,
)
    requires
        0 <= i <= projects.len(),
        forall|j: int|
            0 <= j < projects.len() && (#[trigger] projects[j]).id != ignored ==> projects[j].path
                != path,
    ensures
        path_holder_from(projects, path, Some(ignored), i) is None,
    decreases projects.len() - i,
{
    if i < projects.len() {
        lemma_path_becomes_free(projects, path, ignored, i + 1);
    }
}

/// Entering again what a complete project says changes nothing: where no two projects have one path
/// or one identifier, it is accepted and leaves the list as it was.
pub proof fn law_same_input_changes_nothing(
    projects: Seq<ProjectModel>,
    input: UpdateProjectInput,
    resolution: PathResolution,
    i: int,
)
    requires
        distinct_paths(projects),
        distinct_ids(projects),
        0 <= i < projects.len(),
        is_complete(projects[i]),
        input.id@ == projects[i].id,
        input.name@ == projects[i].name,
        input.port == projects[i].port,
        input.start_command@ == projects[i].start_command,
        is_resolved_directory(resolution),
        normalized(resolution) == Ok::<Seq<char>, Seq<char>>(projects[i].path),
    ensures
        update_refusal(projects, input, resolution) is None,
        with_id(projects, input.id@) == Some(i),
        projects.update(i, changed_project(projects[i], input, resolution)) == projects,
{
    lemma_id_from(projects, input.id@, 0);
    let found = with_id(projects, input.id@);
    if let Some(k) = found {
        if k < i {
            assert(projects[k].id != projects[i].id);
        } else if k > i {
            assert(projects[i].id != projects[k].id);
        }
    }
    assert forall|j: int|
        0 <= j < projects.len() && (#[trigger] projects[j]).id
            != input.id@ implies projects[j].path != projects[i].path by {
        if j < i {
            assert(projects[j].path != projects[i].path);
        } else if j > i {
            assert(projects[i].path != projects[j].path);
        }
    }
    lemma_path_becomes_free(projects, projects[i].path, input.id@, 0);
    assert(projects.update(i, changed_project(projects[i], input, resolution)) =~= projects);
}

/// What is left when an identifier is taken out: the other projects, in their order.
proof fn lemma_without_id(projects: Seq<ProjectModel>, id: Seq<char>, n: int)
    requires
        0 <= n <= projects.len(),
    ensures
        !has_id(without_id(projects, id, n), id),
        forall|x: ProjectModel| #[trigger]
            without_id(projects, id, n).contains(x) <==> x.id != id && projects.take(n).contains(x),
        distinct_paths(projects) ==> distinct_paths(without_id(projects, id, n)),
        distinct_ids(projects) ==> distinct_ids(without_id(projects, id, n)),
        all_complete(projects) ==> all_complete(without_id(projects, id, n)),
    decreases n,
{
    if n > 0 {
        lemma_without_id(projects, id, n - 1);
        let before = without_id(projects, id, n - 1);
        let after = without_id(projects, id, n);
        let last = projects[n - 1];
        let shorter = projects.take(n - 1);
        let longer = projects.take(n);
        assert forall|x: ProjectModel| #[trigger] after.contains(x) <==> x.id != id
            && longer.contains(x) by {
            assert(before.contains(x) <==> x.id != id && shorter.contains(x));
            if shorter.contains(x) {
                let k = choose|k: int|
                    0 <= k < shorter.len() && shorter[k] == x;
                assert(longer[k] == x);
            }
            if longer.contains(x) && x != last {
                let k = choose|k: int| 0 <= k < longer.len() && longer[k] == x;
                assert(shorter[k] == x);
            }
            assert(longer[n - 1] == last);
            if last.id != id {
                if before.contains(x) {
                    let k = choose|k: int| 0 <= k < before.len() && before[k] == x;
                    assert(after[k] == x);
                }
                if after.contains(x) && x != last {
                    let k = choose|k: int| 0 <= k < after.len() && after[k] == x;
                    assert(before[k] == x);
                }
                assert(after[before.len() as int] == last);
            }
        }
        if last.id != id {
            assert forall|i: int| 0 <= i < after.len() implies (#[trigger] after[i]).id != id by {
                if i < before.len() {
                    assert(before[i].id != id);
                }
            }
            assert forall|i: int| 0 <= i < before.len() implies exists|k: int|
                0 <= k < n - 1 && #[trigger] projects[k] == #[trigger] before[i] by {
                assert(before.contains(before[i]));
                let k = choose|k: int| 0 <= k < shorter.len() && shorter[k] == before[i];
                assert(projects[k] == before[i]);
            }
            if distinct_paths(projects) {
                assert forall|i: int, j: int| 0 <= i < j < after.len() implies (
                #[trigger] after[i]).path != (#[trigger] after[j]).path by {
                    if j < before.len() {
                        assert(before[i].path != before[j].path);
                    } else {
                        let k = choose|k: int| 0 <= k < n - 1 && #[trigger] projects[k] == before[i];
                        assert(projects[k].path != projects[n - 1].path);
                    }
                }
            }
            if distinct_ids(projects) {
                assert forall|i: int, j: int| 0 <= i < j < after.len() implies (
                #[trigger] after[i]).id != (#[trigger] after[j]).id by {
                    if j < before.len() {
                        assert(before[i].id != before[j].id);
                    } else {
                        let k = choose|k: int| 0 <= k < n - 1 && #[trigger] projects[k] == before[i];
                        assert(projects[k].id != projects[n - 1].id);
                    }
                }
            }
            if all_complete(projects) {
                assert(is_complete(projects[n - 1]));
                assert forall|i: int| 0 <= i < after.len() implies is_complete(
                    #[trigger] after[i],
                ) by {
                    if i < before.len() {
                        assert(is_complete(before[i]));
                    }
                }
            }
        }
    }
}

/// Removing takes out every project with the identifier and no other, and keeps paths and
/// identifiers distinct and projects complete.
pub proof fn law_remove_takes_out_only_its_project(projects: Seq<ProjectModel>, id: Seq<char>)
    ensures
        ({
            let after = without_id(projects, id, projects.len() as int);
            &&& !has_id(after, id)
            &&& forall|x: ProjectModel| #[trigger]
                after.contains(x) <==> x.id != id && projects.contains(x)
            &&& distinct_paths(projects) ==> distinct_paths(after)
            &&& distinct_ids(projects) ==> distinct_ids(after)
            &&& all_complete(projects) ==> all_complete(after)
        }),
{
    lemma_without_id(projects, id, projects.len() as int);
    assert(projects.take(projects.len() as int) =~= projects);
}

/// Without a project of an identifier, taking it out changes nothing.
proof fn lemma_nothing_to_take_out(projects: Seq<ProjectModel>, id: Seq<char>, n: int)
    requires
        0 <= n <= projects.len(),
        !has_id(projects, id),
    ensures
        without_id(projects, id, n) == projects.take(n),
    decreases n,
{
    if n > 0 {
        lemma_nothing_to_take_out(projects, id, n - 1);
        assert(projects[n - 1].id != id);
        assert(projects.take(n) =~= projects.take(n - 1).push(projects[n - 1]));
    } else {
        assert(projects.take(0) =~= Seq::empty());
    }
}

/// Only the first `n` projects matter to what is left of them.
proof fn lemma_without_id_of_prefix(
    a: Seq<ProjectModel>,
    b: Seq<ProjectModel>,
    id: Seq<char>,
    n: int,
)
    requires
        0 <= n <= a.len(),
        n <= b.len(),
        forall|i: int| 0 <= i < n ==> a[i] == b[i],
    ensures
        without_id(a, id, n) == without_id(b, id, n),
    decreases n,
{
    if n > 0 {
        lemma_without_id_of_prefix(a, b, id, n - 1);
    }
}

/// Removing a project that was just added gives back the list from before, where its identifier
/// was new.
pub proof fn law_remove_undoes_add(projects: Seq<ProjectModel>, project: ProjectModel)
    requires
        !has_id(projects, project.id),
    ensures
        without_id(projects.push(project), project.id, projects.len() + 1int) == projects,
{
    let after = projects.push(project);
    let n = projects.len() as int;
    lemma_without_id_of_prefix(after, projects, project.id, n);
    lemma_nothing_to_take_out(projects, project.id, n);
    assert(projects.take(n) =~= projects);
    assert(after[n].id == project.id);
}

/// Reordering keeps paths and identifiers distinct and projects complete.
pub proof fn law_reorder_keeps_distinct_and_complete(
    projects: Seq<ProjectModel>,
    ids: Seq<Seq<char>>,
)
    ensures
        distinct_paths(projects) ==> distinct_paths(reordered(projects, ids)),
        distinct_ids(projects) ==> distinct_ids(reordered(projects, ids)),
        all_complete(projects) ==> all_complete(reordered(projects, ids)),
{
    law_reorder_is_a_permutation(projects, ids);
    let order = new_order(projects, ids);
    let after = reordered(projects, ids);
    assert forall|i: int| 0 <= i < after.len() implies 0 <= #[trigger] order[i]
        < projects.len() by {
        assert(order.contains(order[i]));
    }
    if distinct_paths(projects) {
        assert forall|i: int, j: int| 0 <= i < j < after.len() implies (#[trigger] after[i]).path
            != (#[trigger] after[j]).path by {
            assert(order[i] != order[j]);
            if order[i] < order[j] {
                assert(projects[order[i]].path != projects[order[j]].path);
            } else {
                assert(projects[order[j]].path != projects[order[i]].path);
            }
        }
    }
    if distinct_ids(projects) {
        assert forall|i: int, j: int| 0 <= i < j < after.len() implies (#[trigger] after[i]).id
            != (#[trigger] after[j]).id by {
            assert(order[i] != order[j]);
            if order[i] < order[j] {
                assert(projects[order[i]].id != projects[order[j]].id);
            } else {
                assert(projects[order[j]].id != projects[order[i]].id);
            }
        }
    }
    if all_complete(projects) {
        assert forall|i: int| 0 <= i < after.len() implies is_complete(#[trigger] after[i]) by {
            assert(0 <= order[i] < projects.len());
            assert(is_complete(projects[order[i]]));
        }
    }
}

/// In a list without projects, paths and identifiers are distinct and all projects complete.
pub proof fn law_empty_list_is_distinct_and_complete()
    ensures
        distinct_paths(Seq::empty()),
        distinct_ids(Seq::empty()),
        all_complete(Seq::empty()),
{
}

} // verus!
