//! The order of the projects in the list.

use vstd::prelude::*;

use crate::projects::{project_models, Project, ProjectModel};
use crate::text::{same_text, strings};

verus! {

/// The last of the first `n` projects that has this identifier.
pub open spec fn last_with_id(projects: Seq<ProjectModel>, id: Seq<char>, n: int) -> Option<int>
    decreases n,
{
    if n <= 0 {
        None
    } else if projects[n - 1].id == id {
        Some(n - 1)
    } else {
        last_with_id(projects, id, n - 1)
    }
}

/// The positions of the projects that the first `n` identifiers ask for, each once, in the order
/// asked for. An identifier without a project asks for nothing.
pub open spec fn requested(
    projects: Seq<ProjectModel>,
    ids: Seq<Seq<char>>,
    n: int,
) -> Seq<int>
    decreases n,
{
    if n <= 0 {
        Seq::empty()
    } else {
        let before = requested(projects, ids, n - 1);
        match last_with_id(projects, ids[n - 1], projects.len() as int) {
            Some(i) => if before.contains(i) {
                before
            } else {
                before.push(i)
            },
            None => before,
        }
    }
}

/// The positions below `n` that are not among `taken`, in ascending order.
pub open spec fn untaken(taken: Seq<int>, n: int) -> Seq<int>
    decreases n,
{
    if n <= 0 {
        Seq::empty()
    } else if taken.contains(n - 1) {
        untaken(taken, n - 1)
    } else {
        untaken(taken, n - 1).push(n - 1)
    }
}

/// The positions of the projects in their new order: those asked for, then the others as they
/// were.
pub open spec fn new_order(projects: Seq<ProjectModel>, ids: Seq<Seq<char>>) -> Seq<int> {
    let first = requested(projects, ids, ids.len() as int);
    first + untaken(first, projects.len() as int)
}

/// The projects at some positions.
pub open spec fn at_positions(projects: Seq<ProjectModel>, positions: Seq<int>) -> Seq<
    ProjectModel,
> {
    Seq::new(positions.len(), |i: int| projects[positions[i]])
}

/// The projects in the order that the identifiers ask for.
pub open spec fn reordered(projects: Seq<ProjectModel>, ids: Seq<Seq<char>>) -> Seq<ProjectModel> {
    at_positions(projects, new_order(projects, ids))
}

/// What the last project with an identifier is.
pub proof fn lemma_last_with_id(projects: Seq<ProjectModel>, id: Seq<char>, n: int)
    requires
        0 <= n <= projects.len(),
    ensures
        match last_with_id(projects, id, n) {
            Some(i) => 0 <= i < n && projects[i].id == id && forall|j: int|
                i < j < n ==> (#[trigger] projects[j]).id != id,
            None => forall|j: int| 0 <= j < n ==> (#[trigger] projects[j]).id != id,
        },
    decreases n,
{
    if n > 0 {
        lemma_last_with_id(projects, id, n - 1);
    }
}

/// The positions asked for are positions in the list, each once.
proof fn lemma_requested(projects: Seq<ProjectModel>, ids: Seq<Seq<char>>, n: int)
    requires
        0 <= n <= ids.len(),
    ensures
        requested(projects, ids, n).no_duplicates(),
        forall|k: int|
            0 <= k < requested(projects, ids, n).len() ==> 0 <= #[trigger] requested(
                projects,
                ids,
                n,
            )[k] < projects.len(),
    decreases n,
{
    if n > 0 {
        lemma_requested(projects, ids, n - 1);
        lemma_last_with_id(projects, ids[n - 1], projects.len() as int);
    }
}

/// The positions that are left are those below `n` that were not taken, each once.
proof fn lemma_untaken(taken: Seq<int>, n: int)
    requires
        n >= 0,
    ensures
        untaken(taken, n).no_duplicates(),
        forall|i: int| #[trigger]
            untaken(taken, n).contains(i) <==> 0 <= i < n && !taken.contains(i),
    decreases n,
{
    if n > 0 {
        lemma_untaken(taken, n - 1);
        let before = untaken(taken, n - 1);
        assert forall|i: int| #[trigger]
            untaken(taken, n).contains(i) <==> 0 <= i < n && !taken.contains(i) by {
            if !taken.contains(n - 1) {
                let now = before.push(n - 1);
                if before.contains(i) {
                    let k = choose|k: int| 0 <= k < before.len() && before[k] == i;
                    assert(now[k] == i);
                }
                if i == n - 1 {
                    assert(now[before.len() as int] == i);
                }
                if now.contains(i) && i != n - 1 {
                    let k = choose|k: int| 0 <= k < now.len() && now[k] == i;
                    assert(before[k] == i);
                }
            } else {
                assert(untaken(taken, n) == before);
            }
        }
        assert forall|k: int| 0 <= k < before.len() implies before[k] != n - 1 by {
            assert(before.contains(before[k]));
        }
    }
}

/// Reordering only moves projects: every position of the list occurs exactly once in the new
/// order, and the list stays as long as it was.
pub proof fn law_reorder_is_a_permutation(projects: Seq<ProjectModel>, ids: Seq<Seq<char>>)
    ensures
        new_order(projects, ids).no_duplicates(),
        forall|i: int|
            #![trigger new_order(projects, ids).contains(i)]
            new_order(projects, ids).contains(i) <==> 0 <= i < projects.len(),
        reordered(projects, ids).len() == projects.len(),
{
    let n = projects.len() as int;
    let first = requested(projects, ids, ids.len() as int);
    let rest = untaken(first, n);
    let all = new_order(projects, ids);
    lemma_requested(projects, ids, ids.len() as int);
    lemma_untaken(first, n);
    assert forall|i: int| #[trigger] all.contains(i) <==> 0 <= i < n by {
        if all.contains(i) {
            let k = choose|k: int| 0 <= k < all.len() && all[k] == i;
            if k < first.len() {
                assert(first[k] == i);
            } else {
                assert(rest[k - first.len()] == i);
                assert(rest.contains(i));
            }
        }
        if 0 <= i < n {
            if first.contains(i) {
                let k = choose|k: int| 0 <= k < first.len() && first[k] == i;
                assert(all[k] == i);
            } else {
                assert(rest.contains(i));
                let k = choose|k: int| 0 <= k < rest.len() && rest[k] == i;
                assert(all[first.len() + k] == i);
            }
        }
    }
    assert(all.no_duplicates()) by {
        assert forall|a: int, b: int| 0 <= a < b < all.len() implies all[a] != all[b] by {
            if a < first.len() && b >= first.len() {
                assert(first.contains(all[a]));
                assert(rest.contains(rest[b - first.len()]));
            } else if a >= first.len() {
                assert(rest[a - first.len()] != rest[b - first.len()]);
            }
        }
    }
    all.unique_seq_to_set();
    vstd::set_lib::lemma_int_range(0, n);
    assert(all.to_set() =~= vstd::set_lib::set_int_range(0, n));
}

/// Whether no two projects have one identifier.
pub open spec fn distinct_ids(projects: Seq<ProjectModel>) -> bool {
    forall|i: int, j: int|
        0 <= i < j < projects.len() ==> (#[trigger] projects[i]).id != (#[trigger] projects[j]).id
}

/// The projects asked for come first, in the order asked for: where each identifier names a
/// project and none is given twice, the list begins with exactly these.
pub proof fn law_reorder_follows_the_request(
    projects: Seq<ProjectModel>,
    ids: Seq<Seq<char>>,
    k: int,
)
    requires
        0 <= k < ids.len(),
        ids.no_duplicates(),
        forall|j: int|
            0 <= j < ids.len() ==> last_with_id(
                projects,
                #[trigger] ids[j],
                projects.len() as int,
            ) is Some,
    ensures
        reordered(projects, ids)[k].id == ids[k],
{
    lemma_request_in_order(projects, ids, ids.len() as int);
    lemma_last_with_id(projects, ids[k], projects.len() as int);
}

/// Distinct identifiers that name projects are met one by one.
proof fn lemma_request_in_order(projects: Seq<ProjectModel>, ids: Seq<Seq<char>>, n: int)
    requires
        0 <= n <= ids.len(),
        ids.no_duplicates(),
        forall|j: int|
            0 <= j < ids.len() ==> last_with_id(
                projects,
                #[trigger] ids[j],
                projects.len() as int,
            ) is Some,
    ensures
        requested(projects, ids, n).len() == n,
        forall|j: int|
            0 <= j < n ==> Some(#[trigger] requested(projects, ids, n)[j]) == last_with_id(
                projects,
                ids[j],
                projects.len() as int,
            ),
    decreases n,
{
    if n > 0 {
        lemma_request_in_order(projects, ids, n - 1);
        let before = requested(projects, ids, n - 1);
        let m = projects.len() as int;
        let i = last_with_id(projects, ids[n - 1], m)->0;
        lemma_last_with_id(projects, ids[n - 1], m);
        if before.contains(i) {
            let k = choose|k: int| 0 <= k < before.len() && before[k] == i;
            lemma_last_with_id(projects, ids[k], m);
            assert(ids[k] == ids[n - 1]);
        }
    }
}

/// Whether the identifier at `j` of a request asks for the project at `p`.
pub open spec fn asks_for(
    projects: Seq<ProjectModel>,
    ids: Seq<Seq<char>>,
    j: int,
    p: int,
) -> bool {
    0 <= j < ids.len() && last_with_id(projects, ids[j], projects.len() as int) == Some(p)
}

/// Whether a request asks for the project at `p`.
pub open spec fn is_asked_for(projects: Seq<ProjectModel>, ids: Seq<Seq<char>>, p: int) -> bool {
    exists|j: int| #[trigger] asks_for(projects, ids, j, p)
}

/// Whether a request asks for the project at `p` first with the identifier at `j`.
pub open spec fn first_asks_for(
    projects: Seq<ProjectModel>,
    ids: Seq<Seq<char>>,
    j: int,
    p: int,
) -> bool {
    asks_for(projects, ids, j, p) && forall|k: int|
        0 <= k < j ==> !#[trigger] asks_for(projects, ids, k, p)
}

/// The positions asked for are those that some identifier asks for, in the order in which they
/// are first asked for.
proof fn lemma_requested_in_order(projects: Seq<ProjectModel>, ids: Seq<Seq<char>>, n: int)
    requires
        0 <= n <= ids.len(),
    ensures
        forall|p: int| #[trigger]
            requested(projects, ids, n).contains(p) <==> exists|j: int|
                j < n && #[trigger] asks_for(projects, ids, j, p),
        forall|a: int, b: int, i: int, j: int|
            #![trigger
                first_asks_for(projects, ids, i, requested(projects, ids, n)[a]),
                first_asks_for(projects, ids, j, requested(projects, ids, n)[b])]
            0 <= a < b < requested(projects, ids, n).len() && first_asks_for(
                projects,
                ids,
                i,
                requested(projects, ids, n)[a],
            ) && first_asks_for(projects, ids, j, requested(projects, ids, n)[b]) ==> i < j,
    decreases n,
{
    if n > 0 {
        lemma_requested_in_order(projects, ids, n - 1);
        let before = requested(projects, ids, n - 1);
        let now = requested(projects, ids, n);
        assert forall|p: int| #[trigger] now.contains(p) <==> exists|j: int|
            j < n && #[trigger] asks_for(projects, ids, j, p) by {
            if before.contains(p) {
                let k = choose|k: int| 0 <= k < before.len() && before[k] == p;
                assert(now[k] == p);
            }
            if now.contains(p) && !before.contains(p) {
                let k = choose|k: int| 0 <= k < now.len() && now[k] == p;
                if k < before.len() {
                    assert(before[k] == p);
                }
                assert(asks_for(projects, ids, n - 1, p));
            }
            if asks_for(projects, ids, n - 1, p) && !before.contains(p) {
                assert(now[before.len() as int] == p);
            }
        }
        assert forall|a: int, b: int, i: int, j: int|
            0 <= a < b < now.len() && #[trigger] first_asks_for(projects, ids, i, now[a])
                && #[trigger] first_asks_for(projects, ids, j, now[b]) implies i < j by {
            if b < before.len() {
                assert(first_asks_for(projects, ids, i, before[a]));
                assert(first_asks_for(projects, ids, j, before[b]));
            } else {
                assert(before.contains(before[a]));
                let k = choose|k: int|
                    k < n - 1 && #[trigger] asks_for(projects, ids, k, before[a]);
                assert(i <= k);
                assert(!before.contains(now[b]));
            }
        }
    }
}

/// The positions that are left stand in ascending order.
proof fn lemma_untaken_ascends(taken: Seq<int>, n: int)
    ensures
        forall|a: int, b: int|
            0 <= a < b < untaken(taken, n).len() ==> #[trigger] untaken(taken, n)[a]
                < #[trigger] untaken(taken, n)[b],
    decreases n,
{
    if n > 0 {
        lemma_untaken_ascends(taken, n - 1);
        lemma_untaken(taken, n - 1);
        let before = untaken(taken, n - 1);
        assert forall|k: int| 0 <= k < before.len() implies #[trigger] before[k] < n - 1 by {
            assert(before.contains(before[k]));
        }
    }
}

/// Whatever is asked for, the projects asked for come first, in the order in which they are first
/// asked for, and the others follow in the order that they had. Identifiers that name no project
/// and those that come again make no difference.
pub proof fn law_reorder_follows_any_request(
    projects: Seq<ProjectModel>,
    ids: Seq<Seq<char>>,
    a: int,
    b: int,
)
    requires
        0 <= a < b < new_order(projects, ids).len(),
    ensures
        ({
            let first = new_order(projects, ids)[a];
            let second = new_order(projects, ids)[b];
            &&& is_asked_for(projects, ids, second) ==> is_asked_for(projects, ids, first)
            &&& forall|i: int, j: int| #[trigger]
                first_asks_for(projects, ids, i, first) && #[trigger] first_asks_for(
                    projects,
                    ids,
                    j,
                    second,
                ) ==> i < j
            &&& !is_asked_for(projects, ids, first) ==> first < second
        }),
{
    let n = ids.len() as int;
    let asked = requested(projects, ids, n);
    let rest = untaken(asked, projects.len() as int);
    let order = new_order(projects, ids);
    lemma_requested_in_order(projects, ids, n);
    lemma_untaken(asked, projects.len() as int);
    lemma_untaken_ascends(asked, projects.len() as int);
    assert forall|k: int| 0 <= k < order.len() implies (is_asked_for(
        projects,
        ids,
        #[trigger] order[k],
    ) <==> k < asked.len()) by {
        if k < asked.len() {
            assert(asked.contains(order[k]));
        } else {
            assert(order[k] == rest[k - asked.len()]);
            assert(rest.contains(order[k]));
            if is_asked_for(projects, ids, order[k]) {
                let j = choose|j: int| #[trigger] asks_for(projects, ids, j, order[k]);
                assert(j < n);
                assert(asked.contains(order[k]));
            }
        }
    }
    assert forall|i: int, j: int| #[trigger]
        first_asks_for(projects, ids, i, order[a]) && #[trigger] first_asks_for(
            projects,
            ids,
            j,
            order[b],
        ) implies i < j by {
        assert(is_asked_for(projects, ids, order[b]));
        assert(first_asks_for(projects, ids, i, asked[a]));
        assert(first_asks_for(projects, ids, j, asked[b]));
    }
    if a >= asked.len() {
        assert(rest[a - asked.len()] < rest[b - asked.len()]);
    }
}

/// A project that is asked for is one with that identifier, and every identifier that names a
/// project asks for one.
pub proof fn law_request_is_by_identifier(
    projects: Seq<ProjectModel>,
    ids: Seq<Seq<char>>,
    j: int,
)
    requires
        0 <= j < ids.len(),
    ensures
        forall|p: int| #[trigger]
            asks_for(projects, ids, j, p) ==> 0 <= p < projects.len() && projects[p].id == ids[j],
        (exists|p: int| #[trigger] asks_for(projects, ids, j, p)) <==> exists|p: int|
            0 <= p < projects.len() && (#[trigger] projects[p]).id == ids[j],
{
    let n = projects.len() as int;
    lemma_last_with_id(projects, ids[j], n);
    if let Some(p) = last_with_id(projects, ids[j], n) {
        assert(asks_for(projects, ids, j, p));
        assert(projects[p].id == ids[j]);
    }
}

/// The identifiers of a list, in its order.
pub open spec fn ids_of(projects: Seq<ProjectModel>) -> Seq<Seq<char>> {
    Seq::new(projects.len(), |i: int| projects[i].id)
}

/// Asking for the order that a list has changes nothing, where no two projects have one
/// identifier.
pub proof fn law_reorder_to_the_present_order(projects: Seq<ProjectModel>)
    requires
        distinct_ids(projects),
    ensures
        reordered(projects, ids_of(projects)) == projects,
{
    let ids = ids_of(projects);
    let n = projects.len() as int;
    lemma_identity(projects, n);
    let first = requested(projects, ids, n);
    lemma_untaken(first, n);
    assert(untaken(first, n).len() == 0) by {
        if untaken(first, n).len() > 0 {
            let i = untaken(first, n)[0];
            assert(untaken(first, n).contains(i));
            assert(first[i] == i);
        }
    }
    assert(reordered(projects, ids) =~= projects);
}

/// Asking for each identifier in turn gives each position in turn.
proof fn lemma_identity(projects: Seq<ProjectModel>, n: int)
    requires
        0 <= n <= projects.len(),
        distinct_ids(projects),
    ensures
        requested(projects, ids_of(projects), n) == Seq::new(n as nat, |i: int| i),
    decreases n,
{
    if n > 0 {
        lemma_identity(projects, n - 1);
        let before = Seq::new((n - 1) as nat, |i: int| i);
        lemma_last_with_id(projects, projects[n - 1].id, projects.len() as int);
        let i = last_with_id(projects, projects[n - 1].id, projects.len() as int);
        assert(i == Some(n - 1)) by {
            if i is Some && i->0 < n - 1 {
                assert(projects[i->0].id != projects[n - 1].id);
            }
            if i is Some && i->0 > n - 1 {
                assert(projects[n - 1].id != projects[i->0].id);
            }
        }
        assert(before.push(n - 1) =~= Seq::new(n as nat, |i: int| i));
    }
}

/// Finds the last project with an identifier.
pub fn find_last(projects: &[Project], id: &str) -> (r: Option<usize>)
    ensures
        match r {
            Some(i) => i < projects@.len() && last_with_id(
                project_models(projects@),
                id@,
                projects@.len() as int,
            ) == Some(i as int),
            None => last_with_id(
                project_models(projects@),
                id@,
                projects@.len() as int,
            ) is None,
        },
{
    let ghost models = project_models(projects@);
    let mut i: usize = projects.len();
    while i > 0
        invariant
            i <= projects@.len(),
            models == project_models(projects@),
            last_with_id(models, id@, projects@.len() as int) == last_with_id(
                models,
                id@,
                i as int,
            ),
        decreases i,
    {
        i -= 1;
        proof {
            assert(models[i as int] == projects@[i as int]@);
        }
        if same_text(projects[i].id.as_str(), id) {
            return Some(i);
        }
    }
    None
}

/// A copy of the list.
pub fn list_projects(projects: &[Project]) -> (r: Vec<Project>)
    ensures
        r@ == projects@,
{
    let mut copy: Vec<Project> = Vec::new();
    let mut i: usize = 0;
    while i < projects.len()
        invariant
            i <= projects@.len(),
            copy@ == projects@.take(i as int),
        decreases projects.len() - i,
    {
        copy.push(projects[i].clone());
        i += 1;
        proof {
            assert(projects@.take(i as int) =~= projects@.take(i - 1).push(projects@[i - 1]));
        }
    }
    proof {
        assert(projects@.take(i as int) =~= projects@);
    }
    copy
}

/// Puts the projects into the order that the identifiers ask for. Projects that none of them
/// asks for follow in the order that they had.
pub fn reorder_projects(projects: &mut Vec<Project>, project_ids: &[String]) -> (r: Vec<Project>)
    ensures
        project_models(final(projects)@) == reordered(
            project_models(old(projects)@),
            strings(project_ids@),
        ),
        r@ == final(projects)@,
{
    let ghost models = project_models(projects@);
    let ghost ids = strings(project_ids@);
    let count: usize = projects.len();
    let mut taken: Vec<bool> = Vec::new();
    while taken.len() < count
        invariant
            taken@.len() <= count,
            forall|j: int| 0 <= j < taken@.len() ==> !#[trigger] taken@[j],
        decreases count - taken.len(),
    {
        taken.push(false);
    }
    let mut moved: Vec<Project> = Vec::new();
    let mut i: usize = 0;
    proof {
        assert(project_models(moved@) =~= at_positions(models, requested(models, ids, 0)));
    }
    while i < project_ids.len()
        invariant
            i <= project_ids@.len(),
            count == projects@.len(),
            projects@ == old(projects)@,
            models == project_models(projects@),
            ids == strings(project_ids@),
            taken@.len() == count,
            forall|j: int|
                0 <= j < count ==> #[trigger] taken@[j] == requested(
                    models,
                    ids,
                    i as int,
                ).contains(j),
            project_models(moved@) == at_positions(models, requested(models, ids, i as int)),
        decreases project_ids.len() - i,
    {
        let ghost before = requested(models, ids, i as int);
        let ghost moved_before = moved@;
        proof {
            assert(ids[i as int] == project_ids@[i as int]@);
        }
        match find_last(projects.as_slice(), project_ids[i].as_str()) {
            Some(index) => {
                if !taken[index] {
                    moved.push(projects[index].clone());
                    taken.set(index, true);
                    proof {
                        let now = before.push(index as int);
                        assert(project_models(moved@) =~= project_models(moved_before).push(
                            models[index as int],
                        ));
                        assert(project_models(moved@) =~= at_positions(models, now));
                        assert forall|j: int| 0 <= j < count implies #[trigger] taken@[j]
                            == now.contains(j) by {
                            if j == index {
                                assert(now[before.len() as int] == j);
                            } else {
                                if before.contains(j) {
                                    let k = choose|k: int| 0 <= k < before.len() && before[k] == j;
                                    assert(now[k] == j);
                                }
                                if now.contains(j) {
                                    let k = choose|k: int| 0 <= k < now.len() && now[k] == j;
                                    assert(before[k] == j);
                                }
                            }
                        }
                    }
                }
            },
            None => {},
        }
        i += 1;
    }
    let ghost first = requested(models, ids, ids.len() as int);
    let mut j: usize = 0;
    proof {
        assert(first + untaken(first, 0) =~= first);
    }
    while j < count
        invariant
            j <= count,
            count == projects@.len(),
            projects@ == old(projects)@,
            models == project_models(projects@),
            taken@.len() == count,
            forall|k: int| 0 <= k < count ==> #[trigger] taken@[k] == first.contains(k),
            project_models(moved@) == at_positions(models, first + untaken(first, j as int)),
        decreases count - j,
    {
        let ghost moved_before = moved@;
        if !taken[j] {
            moved.push(projects[j].clone());
            proof {
                let order = first + untaken(first, j + 1);
                assert(order =~= (first + untaken(first, j as int)).push(j as int));
                assert(project_models(moved@) =~= project_models(moved_before).push(
                    models[j as int],
                ));
                assert(project_models(moved@) =~= at_positions(models, order));
            }
        }
        j += 1;
    }
    *projects = moved;
    list_projects(projects.as_slice())
}

} // verus!
