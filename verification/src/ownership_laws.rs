//! To whom a port belongs, and what may be stopped or started there, by the directories in which
//! the listening processes work.

use vstd::prelude::*;

use crate::control::{is_kill_plan, is_start_plan, port_info, KillPhase, KillPlan, StartPlan};
use crate::listeners::ListenerModel;
use crate::ownership::{
    claimed, claims, describes, hit, kill_blocked, on_port, sole_owner, start_blocked,
    KillBlockedReason, RunInfoModel, RunState, StartBlockedReason,
};
use crate::paths::within;
use crate::projects::{project_under, ProjectModel};
use crate::selection::{gives, lemma_picked_none, lemma_picked_push, lemma_picked_values, picked};
use crate::status::{pids_on, port_of, reports, status_run_info, ProjectDetails, StatusModel};

verus! {

/// Whether a process is known to work in the directory of a project, or anywhere below it.
pub open spec fn works_in(pid: i32, project: ProjectModel, cwds: Map<i32, Seq<char>>) -> bool {
    cwds.contains_key(pid) && within(cwds[pid], project.path)
}

/// Whether some of the processes works in the directory of a project with this identifier, and
/// none in that of a project with another.
pub open spec fn owns(
    projects: Seq<ProjectModel>,
    pids: Seq<i32>,
    cwds: Map<i32, Seq<char>>,
    id: Seq<char>,
) -> bool {
    &&& exists|k: int, j: int|
        0 <= k < pids.len() && 0 <= j < projects.len() && #[trigger] works_in(
            pids[k],
            projects[j],
            cwds,
        ) && projects[j].id == id
    &&& forall|k: int, j: int|
        0 <= k < pids.len() && 0 <= j < projects.len() && #[trigger] works_in(
            pids[k],
            projects[j],
            cwds,
        ) ==> projects[j].id == id
}

/// The two ways to say who owns the processes agree.
proof fn lemma_owns(
    projects: Seq<ProjectModel>,
    pids: Seq<i32>,
    cwds: Map<i32, Seq<char>>,
    id: Seq<char>,
)
    ensures
        sole_owner(projects, pids, cwds, id) == owns(projects, pids, cwds, id),
{
    if sole_owner(projects, pids, cwds, id) {
        let pid = choose|pid: i32| #[trigger] claims(projects, pids, cwds, id, pid);
        let (k, j) = choose|k: int, j: int|
            0 <= k < pids.len() && 0 <= j < projects.len() && #[trigger] hit(
                projects,
                pids,
                cwds,
                k,
                j,
            ) && projects[j].id == id && pids[k] == pid;
        assert(works_in(pids[k], projects[j], cwds));
        assert forall|k: int, j: int|
            0 <= k < pids.len() && 0 <= j < projects.len() && #[trigger] works_in(
                pids[k],
                projects[j],
                cwds,
            ) implies projects[j].id == id by {
            assert(hit(projects, pids, cwds, k, j));
            assert(claims(projects, pids, cwds, projects[j].id, pids[k]));
            assert(claimed(projects, pids, cwds, projects[j].id));
        }
    }
    if owns(projects, pids, cwds, id) {
        let (k, j) = choose|k: int, j: int|
            0 <= k < pids.len() && 0 <= j < projects.len() && #[trigger] works_in(
                pids[k],
                projects[j],
                cwds,
            ) && projects[j].id == id;
        assert(hit(projects, pids, cwds, k, j));
        assert(claims(projects, pids, cwds, id, pids[k]));
        assert(claimed(projects, pids, cwds, id));
        assert forall|other: Seq<char>| #[trigger]
            claimed(projects, pids, cwds, other) implies other == id by {
            let pid = choose|pid: i32| #[trigger] claims(projects, pids, cwds, other, pid);
            let (k, j) = choose|k: int, j: int|
                0 <= k < pids.len() && 0 <= j < projects.len() && #[trigger] hit(
                    projects,
                    pids,
                    cwds,
                    k,
                    j,
                ) && projects[j].id == other && pids[k] == pid;
            assert(works_in(pids[k], projects[j], cwds));
        }
    }
}

/// What is said of a project goes by the directories in which the listening processes work, at any
/// depth: nothing listens, or they work in the directories of one project alone, or of none or
/// several.
pub proof fn law_run_info_goes_by_directories(
    info: RunInfoModel,
    projects: Seq<ProjectModel>,
    pids: Seq<i32>,
    cwds: Map<i32, Seq<char>>,
    id: Seq<char>,
)
    requires
        describes(info, projects, pids, cwds, id),
    ensures
        info.port_active <==> pids.len() > 0,
        info.run_state == RunState::Stopped <==> pids.len() == 0,
        info.run_state == RunState::Owned <==> owns(projects, pids, cwds, id),
        info.run_state == RunState::OwnedByOther <==> exists|other: Seq<char>|
            other != id && #[trigger] owns(projects, pids, cwds, other),
        info.run_state == RunState::Ambiguous <==> pids.len() > 0 && forall|other: Seq<char>|
            !#[trigger] owns(projects, pids, cwds, other),
        forall|other: Seq<char>| #[trigger]
            owns(projects, pids, cwds, other) <==> info.owner_project_id == Some(other),
        info.owner_pid is Some <==> owns(projects, pids, cwds, id),
        forall|k: int, j: int|
            0 <= k < pids.len() && 0 <= j < projects.len() && #[trigger] works_in(
                pids[k],
                projects[j],
                cwds,
            ) && info.owner_pid is Some ==> info.owner_pid->0 <= pids[k],
        info.owner_pid is Some ==> exists|k: int, j: int|
            0 <= k < pids.len() && 0 <= j < projects.len() && #[trigger] works_in(
                pids[k],
                projects[j],
                cwds,
            ) && pids[k] == info.owner_pid->0 && projects[j].id == id,
{
    assert forall|other: Seq<char>| #[trigger]
        owns(projects, pids, cwds, other) == sole_owner(projects, pids, cwds, other) by {
        lemma_owns(projects, pids, cwds, other);
    }
    assert forall|other: Seq<char>| #[trigger] sole_owner(projects, pids, cwds, other) implies owns(
        projects,
        pids,
        cwds,
        other,
    ) by {
        lemma_owns(projects, pids, cwds, other);
    }
    assert(owns(projects, pids, cwds, id) == sole_owner(projects, pids, cwds, id));
    if info.owner_project_id is Some {
        assert(owns(projects, pids, cwds, info.owner_project_id->0));
    }
    assert forall|other: Seq<char>| #[trigger] owns(projects, pids, cwds, other) implies {
        &&& info.owner_project_id == Some(other)
        &&& pids.len() > 0
    } by {
        assert(claimed(projects, pids, cwds, other));
        if other != id {
            assert(sole_owner(projects, pids, cwds, other));
        }
        assert(claimed(projects, pids, cwds, info.owner_project_id->0));
    }
    if info.run_state is OwnedByOther {
        let other = choose|other: Seq<char>|
            other != id && #[trigger] sole_owner(projects, pids, cwds, other);
        assert(owns(projects, pids, cwds, other));
    }
    if info.run_state is Owned {
        assert(owns(projects, pids, cwds, id));
        let pid = info.owner_pid->0;
        assert(claims(projects, pids, cwds, id, pid));
        let (k, j) = choose|k: int, j: int|
            0 <= k < pids.len() && 0 <= j < projects.len() && #[trigger] hit(
                projects,
                pids,
                cwds,
                k,
                j,
            ) && projects[j].id == id && pids[k] == pid;
        assert(works_in(pids[k], projects[j], cwds));
        assert forall|k: int, j: int|
            0 <= k < pids.len() && 0 <= j < projects.len() && #[trigger] works_in(
                pids[k],
                projects[j],
                cwds,
            ) implies pid <= pids[k] by {
            assert(projects[j].id == id);
            assert(hit(projects, pids, cwds, k, j));
            assert(claims(projects, pids, cwds, id, pids[k]));
        }
    }
}

/// Where some process listens on a port and works in the directory of a project, at any depth, and
/// no listening process works in the directory of a project with another identifier, the project
/// owns the port and may be stopped. A process of its own is the one to stop.
pub proof fn law_own_server_may_be_stopped(
    info: RunInfoModel,
    projects: Seq<ProjectModel>,
    pids: Seq<i32>,
    cwds: Map<i32, Seq<char>>,
    id: Seq<char>,
    k: int,
    j: int,
)
    requires
        describes(info, projects, pids, cwds, id),
        0 <= k < pids.len(),
        0 <= j < projects.len(),
        projects[j].id == id,
        cwds.contains_key(pids[k]),
        within(cwds[pids[k]], projects[j].path),
        forall|a: int, b: int|
            0 <= a < pids.len() && 0 <= b < projects.len() && cwds.contains_key(pids[a])
                && #[trigger] within(cwds[pids[a]], projects[b].path) ==> projects[b].id == id,
    ensures
        info.run_state == RunState::Owned,
        kill_blocked(info.run_state) is None,
        start_blocked(info.run_state) == Some(StartBlockedReason::AlreadyRunning),
        info.owner_project_id == Some(id),
        info.owner_pid is Some,
        pids.contains(info.owner_pid->0),
        info.owner_pid->0 <= pids[k],
{
    law_run_info_goes_by_directories(info, projects, pids, cwds, id);
    assert(works_in(pids[k], projects[j], cwds));
    assert(owns(projects, pids, cwds, id)) by {
        assert forall|a: int, b: int|
            0 <= a < pids.len() && 0 <= b < projects.len() && #[trigger] works_in(
                pids[a],
                projects[b],
                cwds,
            ) implies projects[b].id == id by {
            assert(within(cwds[pids[a]], projects[b].path));
        }
    }
}

/// Nothing is stopped for a project where a listening process works in the directory of a project
/// with another identifier, or where none is known to work in that of the project.
pub proof fn law_foreign_server_is_not_stopped(
    info: RunInfoModel,
    projects: Seq<ProjectModel>,
    pids: Seq<i32>,
    cwds: Map<i32, Seq<char>>,
    id: Seq<char>,
)
    requires
        describes(info, projects, pids, cwds, id),
        ({
            ||| exists|a: int, b: int|
                0 <= a < pids.len() && 0 <= b < projects.len() && cwds.contains_key(pids[a])
                    && #[trigger] within(cwds[pids[a]], projects[b].path) && projects[b].id != id
            ||| forall|a: int, b: int|
                0 <= a < pids.len() && 0 <= b < projects.len() && cwds.contains_key(pids[a])
                    && #[trigger] within(cwds[pids[a]], projects[b].path) ==> projects[b].id != id
        }),
    ensures
        info.run_state != RunState::Owned,
        kill_blocked(info.run_state) is Some,
        info.owner_pid is None,
{
    law_run_info_goes_by_directories(info, projects, pids, cwds, id);
    if owns(projects, pids, cwds, id) {
        let (k, j) = choose|k: int, j: int|
            0 <= k < pids.len() && 0 <= j < projects.len() && #[trigger] works_in(
                pids[k],
                projects[j],
                cwds,
            ) && projects[j].id == id;
        assert(within(cwds[pids[k]], projects[j].path));
        if exists|a: int, b: int|
            0 <= a < pids.len() && 0 <= b < projects.len() && cwds.contains_key(pids[a])
                && #[trigger] within(cwds[pids[a]], projects[b].path) && projects[b].id != id {
            let (a, b) = choose|a: int, b: int|
                0 <= a < pids.len() && 0 <= b < projects.len() && cwds.contains_key(pids[a])
                    && #[trigger] within(cwds[pids[a]], projects[b].path) && projects[b].id != id;
            assert(works_in(pids[a], projects[b], cwds));
        }
    }
}

/// Each way to stand to a port has its own reason not to stop and not to start.
pub proof fn law_reasons_follow_the_state()
    ensures
        kill_blocked(RunState::Stopped) == Some(KillBlockedReason::NotRunning),
        kill_blocked(RunState::Owned) is None,
        kill_blocked(RunState::OwnedByOther) == Some(KillBlockedReason::OwnedByOther),
        kill_blocked(RunState::Ambiguous) == Some(KillBlockedReason::Ambiguous),
        start_blocked(RunState::Stopped) is None,
        start_blocked(RunState::Owned) == Some(StartBlockedReason::AlreadyRunning),
        start_blocked(RunState::OwnedByOther) == Some(StartBlockedReason::OwnedByOther),
        start_blocked(RunState::Ambiguous) == Some(StartBlockedReason::Ambiguous),
{
}

/// The first projects that use a port, one after the other.
proof fn lemma_on_port_is_picked(projects: Seq<ProjectModel>, port: u16, n: int)
    requires
        0 <= n <= projects.len(),
    ensures
        on_port(projects, port, n) == picked(
            projects.take(n),
            |project: ProjectModel|
                if project.port == port {
                    Some(project)
                } else {
                    None
                },
        ),
    decreases n,
{
    let uses = |project: ProjectModel|
        if project.port == port {
            Some(project)
        } else {
            None
        };
    if n > 0 {
        lemma_on_port_is_picked(projects, port, n - 1);
        lemma_picked_push(projects, uses, n);
    } else {
        lemma_picked_none(projects, uses);
    }
}

/// The projects on a port are all those that have it, in the order of the list.
pub proof fn law_projects_on_a_port_are_those_with_it(projects: Seq<ProjectModel>, port: u16)
    ensures
        on_port(projects, port, projects.len() as int) == picked(
            projects,
            |project: ProjectModel|
                if project.port == port {
                    Some(project)
                } else {
                    None
                },
        ),
        forall|project: ProjectModel| #[trigger]
            on_port(projects, port, projects.len() as int).contains(project) <==> project.port
                == port && projects.contains(project),
{
    let uses = |project: ProjectModel|
        if project.port == port {
            Some(project)
        } else {
            None
        };
    let n = projects.len() as int;
    assert(projects.take(n) =~= projects);
    lemma_on_port_is_picked(projects, port, n);
    lemma_picked_values(projects, uses);
    let sharing = on_port(projects, port, n);
    assert forall|project: ProjectModel| #[trigger] sharing.contains(project) <==> project.port
        == port && projects.contains(project) by {
        if sharing.contains(project) {
            assert(gives(projects, uses, project));
            let i = choose|i: int|
                0 <= i < projects.len() && uses(#[trigger] projects[i]) == Some(project);
            assert(projects[i] == project);
        }
        if project.port == port && projects.contains(project) {
            let i = choose|i: int| 0 <= i < projects.len() && projects[i] == project;
            assert(uses(projects[i]) == Some(project));
            assert(gives(projects, uses, project));
        }
    }
}

/// The processes of the first listeners on a port, one after the other.
proof fn lemma_pids_on_is_picked(listeners: Seq<ListenerModel>, port: u16, n: int)
    requires
        0 <= n <= listeners.len(),
    ensures
        pids_on(listeners, port, n) == picked(
            listeners.take(n),
            |listener: ListenerModel|
                if listener.port == port {
                    Some(listener.pid)
                } else {
                    None
                },
        ),
    decreases n,
{
    let behind = |listener: ListenerModel|
        if listener.port == port {
            Some(listener.pid)
        } else {
            None
        };
    if n > 0 {
        lemma_pids_on_is_picked(listeners, port, n - 1);
        lemma_picked_push(listeners, behind, n);
    } else {
        lemma_picked_none(listeners, behind);
    }
}

/// The processes on a port are those of all listeners there.
pub proof fn law_every_process_on_a_port_counts(listeners: Seq<ListenerModel>, port: u16)
    ensures
        pids_on(listeners, port, listeners.len() as int) == picked(
            listeners,
            |listener: ListenerModel|
                if listener.port == port {
                    Some(listener.pid)
                } else {
                    None
                },
        ),
        forall|pid: i32| #[trigger]
            pids_on(listeners, port, listeners.len() as int).contains(pid) <==> exists|i: int|
                0 <= i < listeners.len() && (#[trigger] listeners[i]).port == port
                    && listeners[i].pid == pid,
{
    let behind = |listener: ListenerModel|
        if listener.port == port {
            Some(listener.pid)
        } else {
            None
        };
    let n = listeners.len() as int;
    assert(listeners.take(n) =~= listeners);
    lemma_pids_on_is_picked(listeners, port, n);
    lemma_picked_values(listeners, behind);
    let pids = pids_on(listeners, port, n);
    assert forall|pid: i32| #[trigger] pids.contains(pid) <==> exists|i: int|
        0 <= i < listeners.len() && (#[trigger] listeners[i]).port == port && listeners[i].pid
            == pid by {
        if pids.contains(pid) {
            assert(gives(listeners, behind, pid));
            let i = choose|i: int|
                0 <= i < listeners.len() && behind(#[trigger] listeners[i]) == Some(pid);
            assert(listeners[i].port == port);
        }
        if exists|i: int|
            0 <= i < listeners.len() && (#[trigger] listeners[i]).port == port && listeners[i].pid
                == pid {
            let i = choose|i: int|
                0 <= i < listeners.len() && (#[trigger] listeners[i]).port == port
                    && listeners[i].pid == pid;
            assert(behind(listeners[i]) == Some(pid));
            assert(gives(listeners, behind, pid));
        }
    }
}

/// Whether some of the processes works in the directory of a project on `port` with this
/// identifier, and none in that of a project there with another.
pub open spec fn owns_on_port(
    projects: Seq<ProjectModel>,
    port: u16,
    pids: Seq<i32>,
    cwds: Map<i32, Seq<char>>,
    id: Seq<char>,
) -> bool {
    &&& exists|k: int, j: int|
        0 <= k < pids.len() && 0 <= j < projects.len() && projects[j].port == port
            && #[trigger] works_in(pids[k], projects[j], cwds) && projects[j].id == id
    &&& forall|k: int, j: int|
        0 <= k < pids.len() && 0 <= j < projects.len() && projects[j].port == port
            && #[trigger] works_in(pids[k], projects[j], cwds) ==> projects[j].id == id
}

/// Who owns a port can be said of the projects on it and of all projects.
proof fn lemma_owns_on_port(
    projects: Seq<ProjectModel>,
    port: u16,
    pids: Seq<i32>,
    cwds: Map<i32, Seq<char>>,
    id: Seq<char>,
)
    ensures
        owns(on_port(projects, port, projects.len() as int), pids, cwds, id) == owns_on_port(
            projects,
            port,
            pids,
            cwds,
            id,
        ),
{
    let sharing = on_port(projects, port, projects.len() as int);
    law_projects_on_a_port_are_those_with_it(projects, port);
    if owns(sharing, pids, cwds, id) {
        let (k, j) = choose|k: int, j: int|
            0 <= k < pids.len() && 0 <= j < sharing.len() && #[trigger] works_in(
                pids[k],
                sharing[j],
                cwds,
            ) && sharing[j].id == id;
        assert(sharing.contains(sharing[j]));
        let b = choose|b: int| 0 <= b < projects.len() && projects[b] == sharing[j];
        assert(works_in(pids[k], projects[b], cwds));
        assert forall|k: int, j: int|
            0 <= k < pids.len() && 0 <= j < projects.len() && projects[j].port == port
                && #[trigger] works_in(pids[k], projects[j], cwds) implies projects[j].id
            == id by {
            assert(projects.contains(projects[j]));
            assert(sharing.contains(projects[j]));
            let b = choose|b: int| 0 <= b < sharing.len() && sharing[b] == projects[j];
            assert(works_in(pids[k], sharing[b], cwds));
        }
    }
    if owns_on_port(projects, port, pids, cwds, id) {
        let (k, j) = choose|k: int, j: int|
            0 <= k < pids.len() && 0 <= j < projects.len() && projects[j].port == port
                && #[trigger] works_in(pids[k], projects[j], cwds) && projects[j].id == id;
        assert(projects.contains(projects[j]));
        assert(sharing.contains(projects[j]));
        let b = choose|b: int| 0 <= b < sharing.len() && sharing[b] == projects[j];
        assert(works_in(pids[k], sharing[b], cwds));
        assert forall|k: int, j: int|
            0 <= k < pids.len() && 0 <= j < sharing.len() && #[trigger] works_in(
                pids[k],
                sharing[j],
                cwds,
            ) implies sharing[j].id == id by {
            assert(sharing.contains(sharing[j]));
            let b = choose|b: int| 0 <= b < projects.len() && projects[b] == sharing[j];
            assert(works_in(pids[k], projects[b], cwds));
        }
    }
}

/// A project is stopped exactly where a process that listens on its port works in its directory, or
/// that of a project with its identifier, at any depth, and none works in the directory of another
/// project on the port. It is then asked to end, and is the process of the project with the
/// smallest number.
pub proof fn law_own_server_is_stopped(
    plan: KillPlan,
    info: RunInfoModel,
    projects: Seq<ProjectModel>,
    id: Seq<char>,
    pids: Seq<i32>,
    cwds: Map<i32, Seq<char>>,
)
    requires
        port_info(info, projects, id, pids, cwds),
        is_kill_plan(plan, info, id),
    ensures
        ({
            let port = project_under(projects, id)->0.port;
            &&& plan is Stop <==> owns_on_port(projects, port, pids, cwds, id)
            &&& plan matches KillPlan::Stop(run) ==> {
                &&& run.project_id@ == id
                &&& run.phase == KillPhase::Asking
                &&& exists|k: int, j: int|
                    0 <= k < pids.len() && 0 <= j < projects.len() && projects[j].port == port
                        && #[trigger] works_in(pids[k], projects[j], cwds) && projects[j].id == id
                        && pids[k] == run.pid
                &&& forall|k: int, j: int|
                    0 <= k < pids.len() && 0 <= j < projects.len() && projects[j].port == port
                        && #[trigger] works_in(pids[k], projects[j], cwds) ==> run.pid <= pids[k]
            }
            &&& plan matches KillPlan::Blocked(result) ==> {
                &&& result.project_id@ == id
                &&& result.attempted_pid is None
                &&& !result.terminated
                &&& result.signal_used@ == "none"@
                &&& result.blocked_reason == Some(
                    if pids.len() == 0 {
                        KillBlockedReason::NotRunning
                    } else if exists|other: Seq<char>|
                        other != id && #[trigger] owns_on_port(projects, port, pids, cwds, other) {
                        KillBlockedReason::OwnedByOther
                    } else {
                        KillBlockedReason::Ambiguous
                    },
                )
            }
        }),
{
    let port = project_under(projects, id)->0.port;
    let sharing = on_port(projects, port, projects.len() as int);
    law_run_info_goes_by_directories(info, sharing, pids, cwds, id);
    law_projects_on_a_port_are_those_with_it(projects, port);
    assert forall|other: Seq<char>| #[trigger]
        owns_on_port(projects, port, pids, cwds, other) == owns(sharing, pids, cwds, other) by {
        lemma_owns_on_port(projects, port, pids, cwds, other);
    }
    if info.run_state is OwnedByOther {
        let other = choose|other: Seq<char>|
            other != id && #[trigger] owns(sharing, pids, cwds, other);
        lemma_owns_on_port(projects, port, pids, cwds, other);
        assert(owns_on_port(projects, port, pids, cwds, other));
    }
    lemma_owns_on_port(projects, port, pids, cwds, id);
    if let KillPlan::Stop(run) = plan {
        let (k, j) = choose|k: int, j: int|
            0 <= k < pids.len() && 0 <= j < sharing.len() && #[trigger] works_in(
                pids[k],
                sharing[j],
                cwds,
            ) && pids[k] == info.owner_pid->0 && sharing[j].id == id;
        assert(sharing.contains(sharing[j]));
        let b = choose|b: int| 0 <= b < projects.len() && projects[b] == sharing[j];
        assert(works_in(pids[k], projects[b], cwds));
        assert forall|k: int, j: int|
            0 <= k < pids.len() && 0 <= j < projects.len() && projects[j].port == port
                && #[trigger] works_in(pids[k], projects[j], cwds) implies run.pid <= pids[k] by {
            assert(projects.contains(projects[j]));
            assert(sharing.contains(projects[j]));
            let b = choose|b: int| 0 <= b < sharing.len() && sharing[b] == projects[j];
            assert(works_in(pids[k], sharing[b], cwds));
        }
    }
}

/// A project whose port is free, whose path is a directory and whose command is not blank is
/// started: by that command, in that directory, with its port. Where something listens on the port,
/// nothing is run and the reason is given.
pub proof fn law_project_is_started_on_a_free_port(
    plan: StartPlan,
    info: RunInfoModel,
    projects: Seq<ProjectModel>,
    id: Seq<char>,
    pids: Seq<i32>,
    cwds: Map<i32, Seq<char>>,
)
    requires
        port_info(info, projects, id, pids, cwds),
        is_start_plan(plan, info, id, project_under(projects, id)->0),
    ensures
        ({
            let project = project_under(projects, id)->0;
            match plan {
                StartPlan::Run(launch) => {
                    &&& pids.len() == 0
                    &&& launch.project_id@ == id
                    &&& launch.attempted_command@ == project.start_command
                    &&& launch.directory@ == project.path
                },
                StartPlan::Blocked(result) => {
                    &&& pids.len() > 0
                    &&& result.project_id@ == id
                    &&& result.attempted_command@ == project.start_command
                    &&& !result.launched
                    &&& result.spawned_pid is None
                    &&& result.blocked_reason == Some(
                        if owns_on_port(projects, project.port, pids, cwds, id) {
                            StartBlockedReason::AlreadyRunning
                        } else if exists|other: Seq<char>|
                            other != id && #[trigger] owns_on_port(
                                projects,
                                project.port,
                                pids,
                                cwds,
                                other,
                            ) {
                            StartBlockedReason::OwnedByOther
                        } else {
                            StartBlockedReason::Ambiguous
                        },
                    )
                },
            }
        }),
{
    let port = project_under(projects, id)->0.port;
    let sharing = on_port(projects, port, projects.len() as int);
    law_run_info_goes_by_directories(info, sharing, pids, cwds, id);
    assert forall|other: Seq<char>| #[trigger]
        owns_on_port(projects, port, pids, cwds, other) == owns(sharing, pids, cwds, other) by {
        lemma_owns_on_port(projects, port, pids, cwds, other);
    }
    lemma_owns_on_port(projects, port, pids, cwds, id);
    if info.run_state is OwnedByOther {
        let other = choose|other: Seq<char>|
            other != id && #[trigger] owns(sharing, pids, cwds, other);
        lemma_owns_on_port(projects, port, pids, cwds, other);
        assert(owns_on_port(projects, port, pids, cwds, other));
    }
}

/// Whether some listener on `port` works in the directory of a project there with this identifier,
/// and none in that of a project there with another.
pub open spec fn serves(
    projects: Seq<ProjectModel>,
    port: u16,
    listeners: Seq<ListenerModel>,
    cwds: Map<i32, Seq<char>>,
    id: Seq<char>,
) -> bool {
    &&& exists|x: int, j: int|
        0 <= x < listeners.len() && listeners[x].port == port && 0 <= j < projects.len()
            && projects[j].port == port && #[trigger] works_in(
            listeners[x].pid,
            projects[j],
            cwds,
        ) && projects[j].id == id
    &&& forall|x: int, j: int|
        0 <= x < listeners.len() && listeners[x].port == port && 0 <= j < projects.len()
            && projects[j].port == port && #[trigger] works_in(
            listeners[x].pid,
            projects[j],
            cwds,
        ) ==> projects[j].id == id
}

/// Who owns a port can be said of the processes on it and of all listeners.
proof fn lemma_serves(
    projects: Seq<ProjectModel>,
    port: u16,
    listeners: Seq<ListenerModel>,
    cwds: Map<i32, Seq<char>>,
    id: Seq<char>,
)
    ensures
        owns_on_port(
            projects,
            port,
            pids_on(listeners, port, listeners.len() as int),
            cwds,
            id,
        ) == serves(projects, port, listeners, cwds, id),
{
    let pids = pids_on(listeners, port, listeners.len() as int);
    law_every_process_on_a_port_counts(listeners, port);
    if owns_on_port(projects, port, pids, cwds, id) {
        let (k, j) = choose|k: int, j: int|
            0 <= k < pids.len() && 0 <= j < projects.len() && projects[j].port == port
                && #[trigger] works_in(pids[k], projects[j], cwds) && projects[j].id == id;
        assert(pids.contains(pids[k]));
        let x = choose|x: int|
            0 <= x < listeners.len() && (#[trigger] listeners[x]).port == port && listeners[x].pid
                == pids[k];
        assert(works_in(listeners[x].pid, projects[j], cwds));
        assert forall|x: int, j: int|
            0 <= x < listeners.len() && listeners[x].port == port && 0 <= j < projects.len()
                && projects[j].port == port && #[trigger] works_in(
                listeners[x].pid,
                projects[j],
                cwds,
            ) implies projects[j].id == id by {
            assert(pids.contains(listeners[x].pid));
            let k = choose|k: int| 0 <= k < pids.len() && pids[k] == listeners[x].pid;
            assert(works_in(pids[k], projects[j], cwds));
        }
    }
    if serves(projects, port, listeners, cwds, id) {
        let (x, j) = choose|x: int, j: int|
            0 <= x < listeners.len() && listeners[x].port == port && 0 <= j < projects.len()
                && projects[j].port == port && #[trigger] works_in(
                listeners[x].pid,
                projects[j],
                cwds,
            ) && projects[j].id == id;
        assert(pids.contains(listeners[x].pid));
        let k = choose|k: int| 0 <= k < pids.len() && pids[k] == listeners[x].pid;
        assert(works_in(pids[k], projects[j], cwds));
        assert forall|k: int, j: int|
            0 <= k < pids.len() && 0 <= j < projects.len() && projects[j].port == port
                && #[trigger] works_in(pids[k], projects[j], cwds) implies projects[j].id
            == id by {
            assert(pids.contains(pids[k]));
            let x = choose|x: int|
                0 <= x < listeners.len() && (#[trigger] listeners[x]).port == port
                    && listeners[x].pid == pids[k];
            assert(works_in(listeners[x].pid, projects[j], cwds));
        }
    }
}

/// A project is shown as running exactly where a process that listens on its port works in its
/// directory, at any depth, and none works in that of another project on the port. The process
/// named is the one of these with the smallest number.
pub proof fn law_running_goes_by_directories(
    status: StatusModel,
    details: ProjectDetails,
    projects: Seq<ProjectModel>,
    listeners: Seq<ListenerModel>,
    cwds: Map<i32, Seq<char>>,
    times: Map<Seq<char>, Seq<char>>,
    checked_at: Seq<char>,
    i: int,
)
    requires
        reports(status, details, projects, listeners, cwds, times, checked_at),
        0 <= i < projects.len(),
        projects[i].id == details.project.id@,
        forall|j: int|
            0 <= j < projects.len() && (#[trigger] projects[j]).id == projects[i].id
                ==> projects[j].port == projects[i].port,
    ensures
        ({
            let id = projects[i].id;
            let port = projects[i].port;
            &&& status.project_id == id
            &&& status.is_running <==> serves(projects, port, listeners, cwds, id)
            &&& status.run_state == RunState::Owned <==> serves(projects, port, listeners, cwds, id)
            &&& status.pid is Some <==> serves(projects, port, listeners, cwds, id)
            &&& status.port_active <==> exists|x: int|
                0 <= x < listeners.len() && (#[trigger] listeners[x]).port == port
            &&& status.run_state == RunState::Stopped <==> !status.port_active
            &&& forall|other: Seq<char>| #[trigger]
                serves(projects, port, listeners, cwds, other) <==> status.owner_project_id == Some(
                    other,
                )
            &&& status.run_state == RunState::OwnedByOther <==> exists|other: Seq<char>|
                other != id && #[trigger] serves(projects, port, listeners, cwds, other)
            &&& status.pid is Some ==> exists|x: int, j: int|
                0 <= x < listeners.len() && listeners[x].port == port && 0 <= j < projects.len()
                    && projects[j].port == port && #[trigger] works_in(
                    listeners[x].pid,
                    projects[j],
                    cwds,
                ) && projects[j].id == id && listeners[x].pid == status.pid->0
            &&& status.pid is Some ==> forall|x: int, j: int|
                0 <= x < listeners.len() && listeners[x].port == port && 0 <= j < projects.len()
                    && projects[j].port == port && #[trigger] works_in(
                    listeners[x].pid,
                    projects[j],
                    cwds,
                ) ==> status.pid->0 <= listeners[x].pid
            &&& status.checked_at == checked_at
            &&& status.last_running_at == if serves(projects, port, listeners, cwds, id) {
                Some(checked_at)
            } else if times.contains_key(id) {
                Some(times[id])
            } else {
                None
            }
            &&& details.path_exists ==> status.error is None && status.branch == details.branch@
            &&& !details.path_exists ==> status.error == Some(
                "Path is missing or no longer a directory"@,
            ) && status.branch == "not-a-git-repo"@
        }),
{
    let id = projects[i].id;
    let port = projects[i].port;
    crate::ordering::lemma_last_with_id(projects, id, projects.len() as int);
    assert(port_of(projects, id) == port);
    let pids = pids_on(listeners, port, listeners.len() as int);
    let sharing = on_port(projects, port, projects.len() as int);
    let info = status_run_info(status);
    law_run_info_goes_by_directories(info, sharing, pids, cwds, id);
    law_every_process_on_a_port_counts(listeners, port);
    law_projects_on_a_port_are_those_with_it(projects, port);
    assert forall|other: Seq<char>| #[trigger]
        serves(projects, port, listeners, cwds, other) == owns(sharing, pids, cwds, other) by {
        lemma_owns_on_port(projects, port, pids, cwds, other);
        lemma_serves(projects, port, listeners, cwds, other);
    }
    assert(serves(projects, port, listeners, cwds, id) == owns(sharing, pids, cwds, id));
    if pids.len() > 0 {
        assert(pids.contains(pids[0]));
    }
    if exists|x: int| 0 <= x < listeners.len() && (#[trigger] listeners[x]).port == port {
        let x = choose|x: int| 0 <= x < listeners.len() && (#[trigger] listeners[x]).port == port;
        assert(pids.contains(listeners[x].pid));
    }
    if info.run_state is OwnedByOther {
        let other = choose|other: Seq<char>|
            other != id && #[trigger] owns(sharing, pids, cwds, other);
        assert(serves(projects, port, listeners, cwds, other));
    }
    if info.owner_project_id is Some {
        assert(serves(projects, port, listeners, cwds, info.owner_project_id->0));
    }
    if status.pid is Some {
        let (k, j) = choose|k: int, j: int|
            0 <= k < pids.len() && 0 <= j < sharing.len() && #[trigger] works_in(
                pids[k],
                sharing[j],
                cwds,
            ) && pids[k] == info.owner_pid->0 && sharing[j].id == id;
        assert(sharing.contains(sharing[j]));
        let b = choose|b: int| 0 <= b < projects.len() && projects[b] == sharing[j];
        assert(pids.contains(pids[k]));
        let x = choose|x: int|
            0 <= x < listeners.len() && (#[trigger] listeners[x]).port == port && listeners[x].pid
                == pids[k];
        assert(works_in(listeners[x].pid, projects[b], cwds));
        assert forall|x: int, j: int|
            0 <= x < listeners.len() && listeners[x].port == port && 0 <= j < projects.len()
                && projects[j].port == port && #[trigger] works_in(
                listeners[x].pid,
                projects[j],
                cwds,
            ) implies status.pid->0 <= listeners[x].pid by {
            assert(projects.contains(projects[j]));
            assert(sharing.contains(projects[j]));
            let b = choose|b: int| 0 <= b < sharing.len() && sharing[b] == projects[j];
            assert(pids.contains(listeners[x].pid));
            let k = choose|k: int| 0 <= k < pids.len() && pids[k] == listeners[x].pid;
            assert(works_in(pids[k], sharing[b], cwds));
        }
    }
}

/// A status goes by the port of the last project with its identifier.
pub proof fn law_last_port_of_an_identifier_counts(
    projects: Seq<ProjectModel>,
    id: Seq<char>,
    i: int,
)
    requires
        0 <= i < projects.len(),
        projects[i].id == id,
        forall|j: int| i < j < projects.len() ==> (#[trigger] projects[j]).id != id,
    ensures
        port_of(projects, id) == projects[i].port,
{
    crate::ordering::lemma_last_with_id(projects, id, projects.len() as int);
}

/// What is said of a project from the processes found to belong to projects: the one project to
/// which any belong owns the port, by the one with the smallest number; where they belong to none
/// or to several, it is open who does; and where nothing listens, nobody does.
pub proof fn law_one_matched_project_owns_the_port(
    info: RunInfoModel,
    id: Seq<char>,
    port_active: bool,
    matched: Map<Seq<char>, Vec<i32>>,
    owner: Seq<char>,
)
    requires
        crate::ownership::classifies(info, id, port_active, matched),
    ensures
        !port_active ==> info.run_state == RunState::Stopped && info.owner_project_id is None
            && info.owner_pid is None,
        info.port_active == port_active,
        port_active && matched.dom() == set![owner] ==> {
            &&& info.owner_project_id == Some(owner)
            &&& owner == id ==> info.run_state == RunState::Owned
            &&& owner != id ==> info.run_state == RunState::OwnedByOther && info.owner_pid is None
            &&& owner == id && matched[id]@.len() > 0 ==> info.owner_pid is Some
            &&& owner == id && info.owner_pid is Some ==> matched[id]@.contains(
                info.owner_pid->0,
            )
            &&& owner == id ==> forall|k: int|
                0 <= k < matched[id]@.len() ==> info.owner_pid->0 <= #[trigger] matched[id]@[k]
        },
        port_active && (forall|key: Seq<char>| matched.dom() != set![key]) ==> info.run_state
            == RunState::Ambiguous && info.owner_project_id is None && info.owner_pid is None,
{
    assert forall|key: Seq<char>| #[trigger]
        crate::ownership::only_key(matched, key) <==> matched.dom() == set![key] by {
        if crate::ownership::only_key(matched, key) {
            assert(matched.dom() =~= set![key]);
        }
        if matched.dom() == set![key] {
            assert(matched.dom().contains(key));
            assert forall|other: Seq<char>| #[trigger] matched.contains_key(other) implies other
                == key by {
                assert(matched.dom().contains(other));
            }
        }
    }
    if port_active && matched.dom() == set![owner] {
        assert(crate::ownership::only_key(matched, owner));
        if owner == id {
            assert forall|k: int| 0 <= k < matched[id]@.len() implies info.owner_pid->0
                <= #[trigger] matched[id]@[k] by {
                assert(matched[id]@.contains(matched[id]@[k]));
            }
        }
    }
}

} // verus!
