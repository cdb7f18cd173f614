//! Which project a process that listens on a port belongs to.

use std::collections::HashMap;

use vstd::prelude::*;

use crate::listeners::cwd_texts;
use crate::paths::{is_within, within};
use crate::projects::{project_models, Project, ProjectModel};
use crate::text::{optional, same_text};
use crate::text_map::TextMap;

verus! {

/// How a project stands to its port.
#[derive(Debug, Clone, Copy, PartialEq, Eq, Structural)]
pub enum RunState {
    /// Nothing listens on the port.
    Stopped,
    /// What listens on the port belongs to the project.
    Owned,
    /// What listens on the port belongs to another project.
    OwnedByOther,
    /// What listens on the port belongs to no project, or to several.
    Ambiguous,
}

/// Why nothing is stopped.
#[derive(Debug, Clone, Copy, PartialEq, Eq, Structural)]
pub enum KillBlockedReason {
    NotRunning,
    OwnedByOther,
    Ambiguous,
}

/// Why nothing is started.
#[derive(Debug, Clone, Copy, PartialEq, Eq, Structural)]
pub enum StartBlockedReason {
    AlreadyRunning,
    OwnedByOther,
    Ambiguous,
}

/// How a project stands to its port, and to whom the port belongs.
#[derive(Debug)]
pub struct PortRunInfo {
    pub run_state: RunState,
    pub owner_project_id: Option<String>,
    pub owner_pid: Option<i32>,
    pub port_active: bool,
}

/// What a `PortRunInfo` says.
pub struct RunInfoModel {
    pub run_state: RunState,
    pub owner_project_id: Option<Seq<char>>,
    pub owner_pid: Option<i32>,
    pub port_active: bool,
}

impl View for PortRunInfo {
    type V = RunInfoModel;

    open spec fn view(&self) -> RunInfoModel {
        RunInfoModel {
            run_state: self.run_state,
            owner_project_id: optional(self.owner_project_id),
            owner_pid: self.owner_pid,
            port_active: self.port_active,
        }
    }
}

impl Clone for PortRunInfo {
    fn clone(&self) -> (r: Self)
        ensures
            r@ == self@,
    {
        PortRunInfo {
            run_state: self.run_state,
            owner_project_id: match &self.owner_project_id {
                Some(id) => Some(id.clone()),
                None => None,
            },
            owner_pid: self.owner_pid,
            port_active: self.port_active,
        }
    }
}

/// Whether `id` is the only key of a map.
pub open spec fn only_key(matched: Map<Seq<char>, Vec<i32>>, id: Seq<char>) -> bool {
    matched.contains_key(id) && forall|other: Seq<char>| #[trigger]
        matched.contains_key(other) ==> other == id
}

/// Whether `least` is the smallest of some numbers, or none where there are none.
pub open spec fn is_smallest(numbers: Seq<i32>, least: Option<i32>) -> bool {
    match least {
        Some(n) => numbers.contains(n) && forall|other: i32| #[trigger]
            numbers.contains(other) ==> n <= other,
        None => numbers.len() == 0,
    }
}

/// Whether `info` is what is to be said of the project with the identifier `id`, where
/// `matched` gives the listening processes found to belong to projects.
pub open spec fn classifies(
    info: RunInfoModel,
    id: Seq<char>,
    port_active: bool,
    matched: Map<Seq<char>, Vec<i32>>,
) -> bool {
    &&& info.port_active == port_active
    &&& info.run_state is Stopped <==> !port_active
    &&& info.run_state is Owned <==> port_active && only_key(matched, id)
    &&& info.run_state is OwnedByOther <==> port_active && exists|owner: Seq<char>|
        owner != id && #[trigger] only_key(matched, owner)
    &&& info.owner_project_id is Some <==> info.run_state is Owned || info.run_state is OwnedByOther
    &&& info.owner_project_id is Some ==> only_key(matched, info.owner_project_id->0)
    &&& info.run_state is Owned ==> is_smallest(matched[id]@, info.owner_pid)
    &&& info.run_state !is Owned ==> info.owner_pid is None
}

/// Whether some project has this identifier.
pub open spec fn has_id(projects: Seq<ProjectModel>, id: Seq<char>) -> bool {
    exists|i: int| 0 <= i < projects.len() && (#[trigger] projects[i]).id == id
}

/// Finds the smallest of some numbers.
fn find_smallest(numbers: &Vec<i32>) -> (r: Option<i32>)
    ensures
        is_smallest(numbers@, r),
{
    if numbers.len() == 0 {
        return None;
    }
    let mut least: i32 = numbers[0];
    let mut i: usize = 1;
    proof {
        assert(numbers@[0] == least);
    }
    while i < numbers.len()
        invariant
            1 <= i <= numbers@.len(),
            numbers@.contains(least),
            forall|j: int| 0 <= j < i ==> least <= #[trigger] numbers@[j],
        decreases numbers.len() - i,
    {
        if numbers[i] < least {
            least = numbers[i];
        }
        i += 1;
    }
    Some(least)
}

/// What is to be said of each project on a port, from the listening processes found to belong to
/// projects.
pub fn classify_port_run_info(
    projects_on_port: &[Project],
    port_active: bool,
    matched_pids_by_project: &TextMap<Vec<i32>>,
) -> (r: TextMap<PortRunInfo>)
    ensures
        forall|id: Seq<char>| #[trigger]
            r@.contains_key(id) <==> has_id(project_models(projects_on_port@), id),
        forall|id: Seq<char>| #[trigger]
            r@.contains_key(id) ==> classifies(
                r@[id]@,
                id,
                port_active,
                matched_pids_by_project@,
            ),
{
    let ghost matched = matched_pids_by_project@;
    let ghost models = project_models(projects_on_port@);
    let count = matched_pids_by_project.len();
    let first = matched_pids_by_project.entry(0);
    let owner: Option<(&str, Option<i32>)> = if count == 1 {
        match first {
            Some((id, pids)) => Some((id, find_smallest(pids))),
            None => None,
        }
    } else {
        None
    };
    proof {
        let keys = matched_pids_by_project.keys();
        if let Some((id, pid)) = owner {
            assert forall|other: Seq<char>| #[trigger] matched.contains_key(other) implies other
                == id@ by {
                assert(keys.contains(other));
            }
            assert(only_key(matched, id@));
        } else {
            assert forall|id: Seq<char>| !#[trigger] only_key(matched, id) by {
                if only_key(matched, id) {
                    assert(keys.contains(id));
                    if keys.len() > 1 {
                        assert(keys.contains(keys[0]));
                        assert(keys.contains(keys[1]));
                        assert(keys[0] == keys[1]);
                    }
                }
            }
        }
    }
    let mut infos: TextMap<PortRunInfo> = TextMap::new();
    let mut i: usize = 0;
    while i < projects_on_port.len()
        invariant
            i <= projects_on_port@.len(),
            models == project_models(projects_on_port@),
            matched == matched_pids_by_project@,
            match owner {
                Some((id, pid)) => only_key(matched, id@) && is_smallest(matched[id@]@, pid),
                None => forall|id: Seq<char>| !#[trigger] only_key(matched, id),
            },
            forall|id: Seq<char>| #[trigger]
                infos@.contains_key(id) <==> exists|j: int|
                    0 <= j < i && (#[trigger] models[j]).id == id,
            forall|id: Seq<char>| #[trigger]
                infos@.contains_key(id) ==> classifies(infos@[id]@, id, port_active, matched),
        decreases projects_on_port.len() - i,
    {
        let id = projects_on_port[i].id.as_str();
        proof {
            assert(models[i as int] == projects_on_port@[i as int]@);
        }
        let info = if !port_active {
            PortRunInfo {
                run_state: RunState::Stopped,
                owner_project_id: None,
                owner_pid: None,
                port_active,
            }
        } else {
            match owner {
                Some((owner_id, owner_pid)) => if same_text(owner_id, id) {
                    PortRunInfo {
                        run_state: RunState::Owned,
                        owner_project_id: Some(owner_id.to_owned()),
                        owner_pid,
                        port_active,
                    }
                } else {
                    PortRunInfo {
                        run_state: RunState::OwnedByOther,
                        owner_project_id: Some(owner_id.to_owned()),
                        owner_pid: None,
                        port_active,
                    }
                },
                None => PortRunInfo {
                    run_state: RunState::Ambiguous,
                    owner_project_id: None,
                    owner_pid: None,
                    port_active,
                },
            }
        };
        proof {
            assert(classifies(info@, id@, port_active, matched));
        }
        infos.insert(id, info);
        i += 1;
    }
    infos
}

/// Whether a process works inside the directory of a project.
pub fn project_matches_cwd(project_path: &str, cwd: &str) -> (r: bool)
    ensures
        r == within(cwd@, project_path@),
{
    is_within(cwd, project_path)
}

/// Whether the process at position `k` works inside the directory of the project at position `j`.
pub open spec fn hit(
    projects: Seq<ProjectModel>,
    pids: Seq<i32>,
    cwds: Map<i32, Seq<char>>,
    k: int,
    j: int,
) -> bool {
    cwds.contains_key(pids[k]) && within(cwds[pids[k]], projects[j].path)
}

/// Whether a listening process works inside the directory of a project with this identifier.
pub open spec fn claims(
    projects: Seq<ProjectModel>,
    pids: Seq<i32>,
    cwds: Map<i32, Seq<char>>,
    id: Seq<char>,
    pid: i32,
) -> bool {
    exists|k: int, j: int|
        0 <= k < pids.len() && 0 <= j < projects.len() && #[trigger] hit(projects, pids, cwds, k, j)
            && projects[j].id == id && pids[k] == pid
}

/// Whether some listening process works inside the directory of a project with this identifier.
pub open spec fn claimed(
    projects: Seq<ProjectModel>,
    pids: Seq<i32>,
    cwds: Map<i32, Seq<char>>,
    id: Seq<char>,
) -> bool {
    exists|pid: i32| #[trigger] claims(projects, pids, cwds, id, pid)
}

/// Whether the listening processes belong to this identifier and to no other.
pub open spec fn sole_owner(
    projects: Seq<ProjectModel>,
    pids: Seq<i32>,
    cwds: Map<i32, Seq<char>>,
    id: Seq<char>,
) -> bool {
    claimed(projects, pids, cwds, id) && forall|other: Seq<char>| #[trigger]
        claimed(projects, pids, cwds, other) ==> other == id
}

/// Whether `info` is what is to be said of the project with the identifier `id`, where `pids`
/// listen on the port and `cwds` are the directories that they work in.
pub open spec fn describes(
    info: RunInfoModel,
    projects: Seq<ProjectModel>,
    pids: Seq<i32>,
    cwds: Map<i32, Seq<char>>,
    id: Seq<char>,
) -> bool {
    &&& info.port_active == (pids.len() > 0)
    &&& info.run_state is Stopped <==> pids.len() == 0
    &&& info.run_state is Owned <==> sole_owner(projects, pids, cwds, id)
    &&& info.run_state is OwnedByOther <==> exists|owner: Seq<char>|
        owner != id && #[trigger] sole_owner(projects, pids, cwds, owner)
    &&& info.owner_project_id is Some <==> info.run_state is Owned || info.run_state is OwnedByOther
    &&& info.owner_project_id is Some ==> sole_owner(
        projects,
        pids,
        cwds,
        info.owner_project_id->0,
    )
    &&& info.run_state is Owned ==> {
        &&& info.owner_pid matches Some(pid)
        &&& claims(projects, pids, cwds, id, pid)
        &&& forall|other: i32| #[trigger] claims(projects, pids, cwds, id, other) ==> pid <= other
    }
    &&& info.run_state !is Owned ==> info.owner_pid is None
}

/// What is known of the claims once the pairs of processes and projects before `(k, j)` have been
/// looked at.
spec fn claims_before(
    projects: Seq<ProjectModel>,
    pids: Seq<i32>,
    cwds: Map<i32, Seq<char>>,
    k: int,
    j: int,
    id: Seq<char>,
    pid: i32,
) -> bool {
    exists|a: int, b: int|
        0 <= a < pids.len() && 0 <= b < projects.len() && (a < k || a == k && b < j)
            && #[trigger] hit(projects, pids, cwds, a, b) && projects[b].id == id && pids[a] == pid
}

/// Whether a map holds the claims of the pairs before `(k, j)`.
spec fn holds_claims(
    matched: Map<Seq<char>, Vec<i32>>,
    projects: Seq<ProjectModel>,
    pids: Seq<i32>,
    cwds: Map<i32, Seq<char>>,
    k: int,
    j: int,
) -> bool {
    &&& forall|id: Seq<char>| #[trigger] matched.contains_key(id) ==> matched[id]@.len() > 0
    &&& forall|id: Seq<char>, pid: i32|
        #![trigger claims_before(projects, pids, cwds, k, j, id, pid)]
        #![trigger matched.contains_key(id), matched[id]@.contains(pid)]
        (matched.contains_key(id) && matched[id]@.contains(pid)) <==> claims_before(
            projects,
            pids,
            cwds,
            k,
            j,
            id,
            pid,
        )
}

/// A map that holds all claims says the same as the claims themselves.
proof fn lemma_classifies_describes(
    info: RunInfoModel,
    matched: Map<Seq<char>, Vec<i32>>,
    projects: Seq<ProjectModel>,
    pids: Seq<i32>,
    cwds: Map<i32, Seq<char>>,
    id: Seq<char>,
)
    requires
        holds_claims(matched, projects, pids, cwds, pids.len() as int, 0),
        classifies(info, id, pids.len() > 0, matched),
    ensures
        describes(info, projects, pids, cwds, id),
{
    let n = pids.len() as int;
    assert forall|key: Seq<char>, pid: i32| #[trigger]
        claims(projects, pids, cwds, key, pid) <==> matched.contains_key(key)
            && matched[key]@.contains(pid) by {
        assert(claims(projects, pids, cwds, key, pid) <==> claims_before(
            projects,
            pids,
            cwds,
            n,
            0,
            key,
            pid,
        ));
    }
    assert forall|key: Seq<char>| #[trigger] claimed(projects, pids, cwds, key)
        <==> matched.contains_key(key) by {
        if matched.contains_key(key) {
            let pid = matched[key]@[0];
            assert(matched[key]@.contains(pid));
            assert(claims(projects, pids, cwds, key, pid));
        }
    }
    assert forall|key: Seq<char>| #[trigger] sole_owner(projects, pids, cwds, key) <==> only_key(
        matched,
        key,
    ) by {
        assert(claimed(projects, pids, cwds, key) <==> matched.contains_key(key));
        if only_key(matched, key) {
            assert forall|other: Seq<char>| #[trigger]
                claimed(projects, pids, cwds, other) implies other == key by {
                assert(matched.contains_key(other));
            }
        }
        if sole_owner(projects, pids, cwds, key) {
            assert forall|other: Seq<char>| #[trigger] matched.contains_key(other) implies other
                == key by {
                assert(claimed(projects, pids, cwds, other));
            }
        }
    }
    if sole_owner(projects, pids, cwds, id) {
        let pid = choose|pid: i32| #[trigger] claims(projects, pids, cwds, id, pid);
        assert(pids.len() > 0);
        assert(only_key(matched, id));
    }
    if info.run_state is OwnedByOther {
        let owner = choose|owner: Seq<char>| owner != id && #[trigger] only_key(matched, owner);
        assert(sole_owner(projects, pids, cwds, owner));
    }
    if exists|owner: Seq<char>| owner != id && #[trigger] sole_owner(projects, pids, cwds, owner) {
        let owner = choose|owner: Seq<char>|
            owner != id && #[trigger] sole_owner(projects, pids, cwds, owner);
        assert(only_key(matched, owner));
        let pid = choose|pid: i32| #[trigger] claims(projects, pids, cwds, owner, pid);
        assert(pids.len() > 0);
    }
}

/// A copy of a list of numbers with one more at its end.
fn extended(numbers: Option<&Vec<i32>>, n: i32) -> (r: Vec<i32>)
    ensures
        match numbers {
            Some(numbers) => r@ == numbers@.push(n),
            None => r@ == seq![n],
        },
{
    let mut r: Vec<i32> = match numbers {
        Some(numbers) => {
            let copy = numbers.clone();
            proof {
                assert(copy@ =~= numbers@);
            }
            copy
        },
        None => Vec::new(),
    };
    r.push(n);
    r
}

/// What is to be said of each project on a port, from the processes that listen on it and the
/// directories that they work in.
pub fn resolve_port_run_info_with_cwds(
    projects_on_port: &[Project],
    listening_pids: &[i32],
    cwd_by_pid: &HashMap<i32, String>,
) -> (r: TextMap<PortRunInfo>)
    ensures
        forall|id: Seq<char>| #[trigger]
            r@.contains_key(id) <==> has_id(project_models(projects_on_port@), id),
        forall|id: Seq<char>| #[trigger]
            r@.contains_key(id) ==> describes(
                r@[id]@,
                project_models(projects_on_port@),
                listening_pids@,
                cwd_texts(cwd_by_pid@),
                id,
            ),
{
    let ghost models = project_models(projects_on_port@);
    let ghost pids = listening_pids@;
    let ghost cwds = cwd_texts(cwd_by_pid@);
    let mut matched: TextMap<Vec<i32>> = TextMap::new();
    let mut k: usize = 0;
    while k < listening_pids.len()
        invariant
            k <= listening_pids@.len(),
            models == project_models(projects_on_port@),
            pids == listening_pids@,
            cwds == cwd_texts(cwd_by_pid@),
            holds_claims(matched@, models, pids, cwds, k as int, 0),
        decreases listening_pids.len() - k,
    {
        let pid: i32 = listening_pids[k];
        if let Some(cwd) = cwd_by_pid.get(&pid) {
            proof {
                assert(cwds.contains_key(pid) && cwds[pid] == cwd@);
            }
            let mut j: usize = 0;
            while j < projects_on_port.len()
                invariant
                    j <= projects_on_port@.len(),
                    k < listening_pids@.len(),
                    pid == pids[k as int],
                    cwds.contains_key(pid),
                    cwds[pid] == cwd@,
                    models == project_models(projects_on_port@),
                    pids == listening_pids@,
                    holds_claims(matched@, models, pids, cwds, k as int, j as int),
                decreases projects_on_port.len() - j,
            {
                let ghost before = matched@;
                let project = &projects_on_port[j];
                proof {
                    assert(models[j as int] == project@);
                }
                let belongs = project_matches_cwd(project.path.as_str(), cwd.as_str());
                if belongs {
                    let id = project.id.as_str();
                    let grown = extended(matched.get(id), pid);
                    matched.insert(id, grown);
                }
                proof {
                    assert(belongs == hit(models, pids, cwds, k as int, j as int));
                    assert forall|id: Seq<char>, p: i32|
                        #![trigger claims_before(models, pids, cwds, k as int, j + 1, id, p)]
                        #![trigger matched@.contains_key(id), matched@[id]@.contains(p)]
                        (matched@.contains_key(id) && matched@[id]@.contains(p)) <==> claims_before(
                            models,
                            pids,
                            cwds,
                            k as int,
                            j + 1,
                            id,
                            p,
                        ) by {
                        lemma_one_more_pair(models, pids, cwds, k as int, j as int, id, p);
                        assert((before.contains_key(id) && before[id]@.contains(p))
                            <==> claims_before(models, pids, cwds, k as int, j as int, id, p));
                        if belongs && id == project.id@ {
                            let grown = matched@[id]@;
                            if before.contains_key(id) {
                                let old_pids = before[id]@;
                                assert(grown == old_pids.push(pid));
                                if old_pids.contains(p) {
                                    let a = choose|a: int|
                                        0 <= a < old_pids.len() && old_pids[a] == p;
                                    assert(grown[a] == p);
                                }
                                if grown.contains(p) && p != pid {
                                    let a = choose|a: int| 0 <= a < grown.len() && grown[a] == p;
                                    assert(old_pids[a] == p);
                                }
                                assert(grown[old_pids.len() as int] == pid);
                            } else {
                                assert(grown == seq![pid]);
                                assert(grown[0] == pid);
                            }
                        }
                    }
                    assert(holds_claims(matched@, models, pids, cwds, k as int, j + 1));
                }
                j += 1;
            }
        } else {
            proof {
                assert(!cwds.contains_key(pid));
            }
        }
        proof {
            assert forall|id: Seq<char>, p: i32|
                #![trigger claims_before(models, pids, cwds, k + 1, 0, id, p)]
                #![trigger matched@.contains_key(id), matched@[id]@.contains(p)]
                (matched@.contains_key(id) && matched@[id]@.contains(p)) <==> claims_before(
                    models,
                    pids,
                    cwds,
                    k + 1,
                    0,
                    id,
                    p,
                ) by {
                let m = models.len() as int;
                if cwds.contains_key(pid) {
                    assert(claims_before(models, pids, cwds, k as int, m, id, p) <==> claims_before(
                        models,
                        pids,
                        cwds,
                        k + 1,
                        0,
                        id,
                        p,
                    ));
                    assert((matched@.contains_key(id) && matched@[id]@.contains(p))
                        <==> claims_before(models, pids, cwds, k as int, m, id, p));
                } else {
                    assert(claims_before(models, pids, cwds, k as int, 0, id, p) <==> claims_before(
                        models,
                        pids,
                        cwds,
                        k + 1,
                        0,
                        id,
                        p,
                    ));
                }
            }
        }
        k += 1;
    }
    let infos = classify_port_run_info(projects_on_port, listening_pids.len() > 0, &matched);
    proof {
        assert forall|id: Seq<char>| #[trigger] infos@.contains_key(id) implies describes(
            infos@[id]@,
            models,
            pids,
            cwds,
            id,
        ) by {
            lemma_classifies_describes(infos@[id]@, matched@, models, pids, cwds, id);
        }
    }
    infos
}

/// Looking at one more pair adds its claim and no other.
proof fn lemma_one_more_pair(
    projects: Seq<ProjectModel>,
    pids: Seq<i32>,
    cwds: Map<i32, Seq<char>>,
    k: int,
    j: int,
    id: Seq<char>,
    pid: i32,
)
    requires
        0 <= k < pids.len(),
        0 <= j < projects.len(),
    ensures
        claims_before(projects, pids, cwds, k, j + 1, id, pid) <==> claims_before(
            projects,
            pids,
            cwds,
            k,
            j,
            id,
            pid,
        ) || (hit(projects, pids, cwds, k, j) && projects[j].id == id && pids[k] == pid),
{
}

/// What is to be said of each project on a port, where the attempt to find the directories of the
/// listening processes may have failed.
pub fn resolve_port_run_info(
    projects_on_port: &[Project],
    listening_pids: &[i32],
    cwds: &Result<HashMap<i32, String>, String>,
) -> (r: Result<TextMap<PortRunInfo>, String>)
    ensures
        match (*cwds, r) {
            (Ok(cwd_by_pid), Ok(infos)) => {
                &&& forall|id: Seq<char>| #[trigger]
                    infos@.contains_key(id) <==> has_id(project_models(projects_on_port@), id)
                &&& forall|id: Seq<char>| #[trigger]
                    infos@.contains_key(id) ==> describes(
                        infos@[id]@,
                        project_models(projects_on_port@),
                        listening_pids@,
                        cwd_texts(cwd_by_pid@),
                        id,
                    )
            },
            (Err(error), Err(message)) => message@ == error@,
            _ => false,
        },
{
    match cwds {
        Ok(cwd_by_pid) => Ok(
            resolve_port_run_info_with_cwds(projects_on_port, listening_pids, cwd_by_pid),
        ),
        Err(error) => Err(error.clone()),
    }
}

/// Why a project in this state is not stopped.
pub open spec fn kill_blocked(run_state: RunState) -> Option<KillBlockedReason> {
    match run_state {
        RunState::Stopped => Some(KillBlockedReason::NotRunning),
        RunState::OwnedByOther => Some(KillBlockedReason::OwnedByOther),
        RunState::Ambiguous => Some(KillBlockedReason::Ambiguous),
        RunState::Owned => None,
    }
}

/// Why a project in this state is not started.
pub open spec fn start_blocked(run_state: RunState) -> Option<StartBlockedReason> {
    match run_state {
        RunState::Stopped => None,
        RunState::Owned => Some(StartBlockedReason::AlreadyRunning),
        RunState::OwnedByOther => Some(StartBlockedReason::OwnedByOther),
        RunState::Ambiguous => Some(StartBlockedReason::Ambiguous),
    }
}

/// Why a project in this state is not stopped.
pub fn blocked_reason_for_run_state(run_state: RunState) -> (r: Option<KillBlockedReason>)
    ensures
        r == kill_blocked(run_state),
{
    match run_state {
        RunState::Stopped => Some(KillBlockedReason::NotRunning),
        RunState::OwnedByOther => Some(KillBlockedReason::OwnedByOther),
        RunState::Ambiguous => Some(KillBlockedReason::Ambiguous),
        RunState::Owned => None,
    }
}

/// Why a project in this state is not started.
pub fn start_blocked_reason_for_run_state(run_state: RunState) -> (r: Option<StartBlockedReason>)
    ensures
        r == start_blocked(run_state),
{
    match run_state {
        RunState::Stopped => None,
        RunState::Owned => Some(StartBlockedReason::AlreadyRunning),
        RunState::OwnedByOther => Some(StartBlockedReason::OwnedByOther),
        RunState::Ambiguous => Some(StartBlockedReason::Ambiguous),
    }
}

/// The first `n` projects that use a port.
pub open spec fn on_port(projects: Seq<ProjectModel>, port: u16, n: int) -> Seq<ProjectModel>
    decreases n,
{
    if n <= 0 {
        Seq::empty()
    } else if projects[n - 1].port == port {
        on_port(projects, port, n - 1).push(projects[n - 1])
    } else {
        on_port(projects, port, n - 1)
    }
}

/// A project that uses a port is among those that do.
pub proof fn lemma_on_port(projects: Seq<ProjectModel>, port: u16, n: int, i: int)
    requires
        0 <= i < n <= projects.len(),
        projects[i].port == port,
    ensures
        has_id(on_port(projects, port, n), projects[i].id),
    decreases n,
{
    let found = on_port(projects, port, n);
    if i == n - 1 {
        assert(found[found.len() - 1].id == projects[i].id);
    } else {
        lemma_on_port(projects, port, n - 1, i);
        let before = on_port(projects, port, n - 1);
        let k = choose|k: int|
            0 <= k < before.len() && (#[trigger] before[k]).id == projects[i].id;
        assert(found[k] == before[k]);
    }
}

/// The projects that use a port.
pub fn projects_on_port(projects: &[Project], port: u16) -> (r: Vec<Project>)
    ensures
        project_models(r@) == on_port(project_models(projects@), port, projects@.len() as int),
{
    let ghost models = project_models(projects@);
    let mut found: Vec<Project> = Vec::new();
    let mut i: usize = 0;
    proof {
        assert(project_models(found@) =~= Seq::empty());
    }
    while i < projects.len()
        invariant
            i <= projects@.len(),
            models == project_models(projects@),
            project_models(found@) == on_port(models, port, i as int),
        decreases projects.len() - i,
    {
        let ghost before = found@;
        proof {
            assert(models[i as int] == projects@[i as int]@);
        }
        if projects[i].port == port {
            found.push(projects[i].clone());
            proof {
                assert(project_models(found@) =~= project_models(before).push(models[i as int]));
            }
        }
        i += 1;
    }
    found
}

/// Only what belongs to a project is stopped for it: where nothing blocks stopping a project,
/// there is a process to stop, it listens on the port, it works inside the directory of a project
/// with this identifier, and no listening process works inside the directory of a project with
/// another.
pub proof fn law_only_own_processes_are_stopped(
    info: RunInfoModel,
    projects: Seq<ProjectModel>,
    pids: Seq<i32>,
    cwds: Map<i32, Seq<char>>,
    id: Seq<char>,
)
    requires
        describes(info, projects, pids, cwds, id),
        kill_blocked(info.run_state) is None,
    ensures
        info.owner_pid matches Some(pid) && {
            &&& pids.contains(pid)
            &&& cwds.contains_key(pid)
            &&& exists|j: int|
                0 <= j < projects.len() && (#[trigger] projects[j]).id == id && within(
                    cwds[pid],
                    projects[j].path,
                )
            &&& forall|k: int, j: int|
                0 <= k < pids.len() && 0 <= j < projects.len() && #[trigger] hit(
                    projects,
                    pids,
                    cwds,
                    k,
                    j,
                ) ==> projects[j].id == id
            &&& forall|k: int, j: int|
                0 <= k < pids.len() && 0 <= j < projects.len() && cwds.contains_key(pids[k])
                    && #[trigger] within(cwds[pids[k]], projects[j].path) ==> projects[j].id == id
        },
{
    let pid = info.owner_pid->0;
    let (k, j) = choose|k: int, j: int|
        0 <= k < pids.len() && 0 <= j < projects.len() && #[trigger] hit(projects, pids, cwds, k, j)
            && projects[j].id == id && pids[k] == pid;
    assert(projects[j].id == id);
    assert forall|k: int, j: int|
        0 <= k < pids.len() && 0 <= j < projects.len() && #[trigger] hit(
            projects,
            pids,
            cwds,
            k,
            j,
        ) implies projects[j].id == id by {
        assert(claims(projects, pids, cwds, projects[j].id, pids[k]));
        assert(claimed(projects, pids, cwds, projects[j].id));
    }
    assert forall|k: int, j: int|
        0 <= k < pids.len() && 0 <= j < projects.len() && cwds.contains_key(pids[k])
            && #[trigger] within(cwds[pids[k]], projects[j].path) implies projects[j].id == id by {
        assert(hit(projects, pids, cwds, k, j));
    }
}

/// At most one project owns a port.
pub proof fn law_at_most_one_owner(
    a: RunInfoModel,
    b: RunInfoModel,
    projects: Seq<ProjectModel>,
    pids: Seq<i32>,
    cwds: Map<i32, Seq<char>>,
    id_a: Seq<char>,
    id_b: Seq<char>,
)
    requires
        describes(a, projects, pids, cwds, id_a),
        describes(b, projects, pids, cwds, id_b),
        a.run_state is Owned,
        b.run_state is Owned,
    ensures
        id_a == id_b,
{
    assert(claimed(projects, pids, cwds, id_a));
}

/// What is said of a project follows from the processes and directories: there is only one answer.
pub proof fn law_run_info_is_determined(
    a: RunInfoModel,
    b: RunInfoModel,
    projects: Seq<ProjectModel>,
    pids: Seq<i32>,
    cwds: Map<i32, Seq<char>>,
    id: Seq<char>,
)
    requires
        describes(a, projects, pids, cwds, id),
        describes(b, projects, pids, cwds, id),
    ensures
        a == b,
{
    if a.owner_project_id is Some {
        assert(claimed(projects, pids, cwds, a.owner_project_id->0));
    }
    if a.run_state is Owned {
        assert(claims(projects, pids, cwds, id, a.owner_pid->0));
        assert(claims(projects, pids, cwds, id, b.owner_pid->0));
    }
}

/// A project can be stopped exactly when it owns its port and started exactly when nothing
/// listens there, so never both.
pub proof fn law_never_both_stopped_and_started(run_state: RunState)
    ensures
        kill_blocked(run_state) is None <==> run_state is Owned,
        start_blocked(run_state) is None <==> run_state is Stopped,
        kill_blocked(run_state) is Some || start_blocked(run_state) is Some,
{
}

/// Where something listens but no directory is known, nobody owns the port: nothing is stopped and
/// nothing is started.
pub proof fn law_unknown_directories_are_ambiguous(
    info: RunInfoModel,
    projects: Seq<ProjectModel>,
    pids: Seq<i32>,
    cwds: Map<i32, Seq<char>>,
    id: Seq<char>,
)
    requires
        describes(info, projects, pids, cwds, id),
        pids.len() > 0,
        forall|k: int| 0 <= k < pids.len() ==> !cwds.contains_key(#[trigger] pids[k]),
    ensures
        info.run_state is Ambiguous,
        kill_blocked(info.run_state) is Some,
        start_blocked(info.run_state) is Some,
{
    assert forall|key: Seq<char>, pid: i32| !#[trigger] claims(projects, pids, cwds, key, pid) by {
        assert forall|k: int, j: int|
            0 <= k < pids.len() && 0 <= j < projects.len() implies !#[trigger] hit(
            projects,
            pids,
            cwds,
            k,
            j,
        ) by {
            assert(!cwds.contains_key(pids[k]));
        }
    }
    assert forall|key: Seq<char>| !#[trigger] sole_owner(projects, pids, cwds, key) by {
        assert(!claimed(projects, pids, cwds, key));
    }
}

/// Only the directories of listening processes matter to what is said of a project.
pub proof fn law_only_listening_processes_matter(
    info: RunInfoModel,
    projects: Seq<ProjectModel>,
    pids: Seq<i32>,
    a: Map<i32, Seq<char>>,
    b: Map<i32, Seq<char>>,
    id: Seq<char>,
)
    requires
        describes(info, projects, pids, a, id),
        forall|k: int|
            0 <= k < pids.len() ==> a.contains_key(#[trigger] pids[k]) == b.contains_key(pids[k]),
        forall|k: int|
            0 <= k < pids.len() && a.contains_key(#[trigger] pids[k]) ==> a[pids[k]] == b[pids[k]],
    ensures
        describes(info, projects, pids, b, id),
{
    assert forall|k: int, j: int| 0 <= k < pids.len() implies #[trigger] hit(
        projects,
        pids,
        a,
        k,
        j,
    ) == hit(projects, pids, b, k, j) by {
        assert(a.contains_key(pids[k]) == b.contains_key(pids[k]));
    }
    assert forall|k: int, j: int| 0 <= k < pids.len() implies #[trigger] hit(
        projects,
        pids,
        b,
        k,
        j,
    ) == hit(projects, pids, a, k, j) by {
        assert(a.contains_key(pids[k]) == b.contains_key(pids[k]));
    }
    assert forall|key: Seq<char>, pid: i32| #[trigger]
        claims(projects, pids, b, key, pid) == claims(projects, pids, a, key, pid) by {
        if claims(projects, pids, a, key, pid) {
            let (k, j) = choose|k: int, j: int|
                0 <= k < pids.len() && 0 <= j < projects.len() && #[trigger] hit(
                    projects,
                    pids,
                    a,
                    k,
                    j,
                ) && projects[j].id == key && pids[k] == pid;
            assert(hit(projects, pids, b, k, j));
        }
        if claims(projects, pids, b, key, pid) {
            let (k, j) = choose|k: int, j: int|
                0 <= k < pids.len() && 0 <= j < projects.len() && #[trigger] hit(
                    projects,
                    pids,
                    b,
                    k,
                    j,
                ) && projects[j].id == key && pids[k] == pid;
            assert(hit(projects, pids, a, k, j));
        }
    }
    assert forall|key: Seq<char>| #[trigger]
        claimed(projects, pids, b, key) == claimed(projects, pids, a, key) by {
        if claimed(projects, pids, a, key) {
            let pid = choose|pid: i32| #[trigger] claims(projects, pids, a, key, pid);
            assert(claims(projects, pids, b, key, pid));
        }
        if claimed(projects, pids, b, key) {
            let pid = choose|pid: i32| #[trigger] claims(projects, pids, b, key, pid);
            assert(claims(projects, pids, a, key, pid));
        }
    }
    assert forall|key: Seq<char>| #[trigger]
        sole_owner(projects, pids, b, key) == sole_owner(projects, pids, a, key) by {
        assert(claimed(projects, pids, b, key) == claimed(projects, pids, a, key));
        if sole_owner(projects, pids, a, key) {
            assert forall|other: Seq<char>| #[trigger]
                claimed(projects, pids, b, other) implies other == key by {
                assert(claimed(projects, pids, a, other));
            }
        }
        if sole_owner(projects, pids, b, key) {
            assert forall|other: Seq<char>| #[trigger]
                claimed(projects, pids, a, other) implies other == key by {
                assert(claimed(projects, pids, b, other));
            }
        }
    }
    if info.run_state is OwnedByOther {
        let owner = choose|owner: Seq<char>|
            owner != id && #[trigger] sole_owner(projects, pids, a, owner);
        assert(sole_owner(projects, pids, b, owner));
    }
    if exists|owner: Seq<char>| owner != id && #[trigger] sole_owner(projects, pids, b, owner) {
        let owner = choose|owner: Seq<char>|
            owner != id && #[trigger] sole_owner(projects, pids, b, owner);
        assert(sole_owner(projects, pids, a, owner));
    }
    assert(sole_owner(projects, pids, b, id) == sole_owner(projects, pids, a, id));
    if info.owner_project_id is Some {
        assert(sole_owner(projects, pids, b, info.owner_project_id->0));
    }
    if info.run_state is Owned {
        assert(claims(projects, pids, b, id, info.owner_pid->0));
        assert forall|other: i32| #[trigger] claims(projects, pids, b, id, other) implies
            info.owner_pid->0 <= other by {
            assert(claims(projects, pids, a, id, other));
        }
    }
}

} // verus!
