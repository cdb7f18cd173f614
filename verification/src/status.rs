//! What the user is told of each project.

use std::collections::HashSet;

use vstd::prelude::*;

use crate::branch::no_branch;
use crate::commands::CommandOutput;
use crate::listeners::{cwd_texts, listener_models, ListenerModel, TcpListenerInfo};
use crate::numbers::{decimal, write_decimal};
use crate::ordering::{find_last, last_with_id, lemma_last_with_id};
use crate::ownership::{
    describes, has_id, lemma_on_port, on_port, projects_on_port, resolve_port_run_info_with_cwds,
    PortRunInfo, RunInfoModel, RunState,
};
use crate::projects::{project_models, Project, ProjectModel};
use crate::snapshot::{scan_doubtful, scan_warnings, ListenerSnapshot};
use crate::stamps::{is_timestamp, now_iso};
use crate::text::{begins_with, chars_of, optional, starts_with, strings};
use crate::text_map::TextMap;

verus! {

/// What the user is told of a project.
#[derive(Debug)]
pub struct ProjectStatus {
    pub project_id: String,
    pub branch: String,
    pub is_running: bool,
    pub pid: Option<i32>,
    pub port_active: bool,
    pub run_state: RunState,
    pub owner_project_id: Option<String>,
    pub last_running_at: Option<String>,
    pub checked_at: String,
    pub error: Option<String>,
}

/// What a `ProjectStatus` says.
pub struct StatusModel {
    pub project_id: Seq<char>,
    pub branch: Seq<char>,
    pub is_running: bool,
    pub pid: Option<i32>,
    pub port_active: bool,
    pub run_state: RunState,
    pub owner_project_id: Option<Seq<char>>,
    pub last_running_at: Option<Seq<char>>,
    pub checked_at: Seq<char>,
    pub error: Option<Seq<char>>,
}

impl View for ProjectStatus {
    type V = StatusModel;

    open spec fn view(&self) -> StatusModel {
        StatusModel {
            project_id: self.project_id@,
            branch: self.branch@,
            is_running: self.is_running,
            pid: self.pid,
            port_active: self.port_active,
            run_state: self.run_state,
            owner_project_id: optional(self.owner_project_id),
            last_running_at: optional(self.last_running_at),
            checked_at: self.checked_at@,
            error: optional(self.error),
        }
    }
}

/// What each status in a list says.
pub open spec fn status_models(v: Seq<ProjectStatus>) -> Seq<StatusModel> {
    Seq::new(v.len(), |i: int| v[i]@)
}

/// When each project was last seen running.
pub struct RuntimeState {
    pub last_running_by_project: TextMap<String>,
}

impl View for RuntimeState {
    type V = Map<Seq<char>, Seq<char>>;

    open spec fn view(&self) -> Map<Seq<char>, Seq<char>> {
        self.last_running_by_project@.map_values(|time: String| time@)
    }
}

impl RuntimeState {
    /// No project has been seen running.
    pub fn new() -> (r: Self)
        ensures
            r@ == Map::<Seq<char>, Seq<char>>::empty(),
    {
        let r = RuntimeState { last_running_by_project: TextMap::new() };
        proof {
            assert(r@ =~= Map::<Seq<char>, Seq<char>>::empty());
        }
        r
    }

    /// Notes that a project was seen running.
    pub fn note(&mut self, project_id: &str, time: &str)
        ensures
            final(self)@ == old(self)@.insert(project_id@, time@),
    {
        self.last_running_by_project.insert(project_id, time.to_owned());
        proof {
            assert(self@ =~= old(self)@.insert(project_id@, time@));
        }
    }

    /// Forgets a project that is no longer kept.
    pub fn forget(&mut self, project_id: &str)
        ensures
            final(self)@ == old(self)@.remove(project_id@),
    {
        self.last_running_by_project.remove(project_id);
        proof {
            assert(self@ =~= old(self)@.remove(project_id@));
        }
    }

    /// When a project was last seen running.
    pub fn last_running(&self, project_id: &str) -> (r: Option<String>)
        ensures
            optional(r) == last_seen(self@, project_id@),
    {
        match self.last_running_by_project.get(project_id) {
            Some(time) => Some(time.clone()),
            None => None,
        }
    }
}

/// When a project was last seen running.
pub open spec fn last_seen(times: Map<Seq<char>, Seq<char>>, id: Seq<char>) -> Option<Seq<char>> {
    if times.contains_key(id) {
        Some(times[id])
    } else {
        None
    }
}

/// A project with what was found in its directory.
#[derive(Debug)]
pub struct ProjectDetails {
    pub project: Project,
    /// Whether its path is a directory.
    pub path_exists: bool,
    /// The branch that is checked out there. It counts only where the path is a directory.
    pub branch: String,
}

/// The projects of some details.
pub open spec fn detailed_projects(details: Seq<ProjectDetails>) -> Seq<ProjectModel> {
    Seq::new(details.len(), |i: int| details[i].project@)
}

/// The processes behind the first `n` listeners that listen on a port.
pub open spec fn pids_on(listeners: Seq<ListenerModel>, port: u16, n: int) -> Seq<i32>
    decreases n,
{
    if n <= 0 {
        Seq::empty()
    } else if listeners[n - 1].port == port {
        pids_on(listeners, port, n - 1).push(listeners[n - 1].pid)
    } else {
        pids_on(listeners, port, n - 1)
    }
}

/// The port of the last project that has this identifier.
pub open spec fn port_of(projects: Seq<ProjectModel>, id: Seq<char>) -> u16 {
    projects[last_with_id(projects, id, projects.len() as int)->0].port
}

/// Whether `info` is what is to be said of the project with the identifier `id`.
pub open spec fn is_run_info(
    info: RunInfoModel,
    projects: Seq<ProjectModel>,
    listeners: Seq<ListenerModel>,
    cwds: Map<i32, Seq<char>>,
    id: Seq<char>,
) -> bool {
    let port = port_of(projects, id);
    describes(
        info,
        on_port(projects, port, projects.len() as int),
        pids_on(listeners, port, listeners.len() as int),
        cwds,
        id,
    )
}

/// How a status says that a project stands to its port.
pub open spec fn status_run_info(status: StatusModel) -> RunInfoModel {
    RunInfoModel {
        run_state: status.run_state,
        owner_project_id: status.owner_project_id,
        owner_pid: status.pid,
        port_active: status.port_active,
    }
}

/// Whether `status` is what the user is to be told of the project in `details`.
pub open spec fn reports(
    status: StatusModel,
    details: ProjectDetails,
    projects: Seq<ProjectModel>,
    listeners: Seq<ListenerModel>,
    cwds: Map<i32, Seq<char>>,
    times: Map<Seq<char>, Seq<char>>,
    checked_at: Seq<char>,
) -> bool {
    &&& status.project_id == details.project.id@
    &&& status.branch == (if details.path_exists {
        details.branch@
    } else {
        "not-a-git-repo"@
    })
    &&& status.checked_at == checked_at
    &&& is_run_info(status_run_info(status), projects, listeners, cwds, details.project.id@)
    &&& status.is_running == (status.run_state is Owned)
    &&& status.last_running_at == (if status.is_running {
        Some(checked_at)
    } else {
        last_seen(times, details.project.id@)
    })
    &&& status.error == (if details.path_exists {
        None
    } else {
        Some("Path is missing or no longer a directory"@)
    })
}

/// Whether some of the first `n` statuses says that this project is running.
pub open spec fn seen_running(statuses: Seq<StatusModel>, id: Seq<char>, n: int) -> bool {
    exists|i: int|
        0 <= i < n && (#[trigger] statuses[i]).project_id == id && statuses[i].is_running
}

/// Whether `after` is `before` with the time noted for each project that the first `n` statuses
/// say is running.
pub open spec fn notes_running(
    before: Map<Seq<char>, Seq<char>>,
    after: Map<Seq<char>, Seq<char>>,
    statuses: Seq<StatusModel>,
    n: int,
    checked_at: Seq<char>,
) -> bool {
    forall|id: Seq<char>| #[trigger]
        last_seen(after, id) == if seen_running(statuses, id, n) {
            Some(checked_at)
        } else {
            last_seen(before, id)
        }
}

/// The first warning from `i` on that a scan may be incomplete.
pub open spec fn incomplete_from(warnings: Seq<String>, i: int) -> Option<Seq<char>>
    decreases warnings.len() - i,
{
    if i < 0 || i >= warnings.len() {
        None
    } else if begins_with(warnings[i]@, "Port scan may be incomplete:"@) {
        Some(warnings[i]@)
    } else {
        incomplete_from(warnings, i + 1)
    }
}

/// The ports of the projects.
pub fn ports_of(projects: &[Project]) -> (r: HashSet<u16>)
    ensures
        forall|port: u16| #[trigger]
            r@.contains(port) <==> exists|i: int|
                0 <= i < projects@.len() && (#[trigger] projects@[i]).port == port,
{
    let mut ports: HashSet<u16> = HashSet::new();
    let mut i: usize = 0;
    while i < projects.len()
        invariant
            i <= projects@.len(),
            forall|port: u16| #[trigger]
                ports@.contains(port) <==> exists|j: int|
                    0 <= j < i && (#[trigger] projects@[j]).port == port,
        decreases projects.len() - i,
    {
        ports.insert(projects[i].port);
        i += 1;
    }
    ports
}

/// Refuses a snapshot that may lack listeners: a project must not be called stopped because its
/// server was overlooked.
pub fn check_snapshot(snapshot: &ListenerSnapshot) -> (r: Result<(), String>)
    ensures
        match r {
            Ok(_) => incomplete_from(snapshot.warnings@, 0) is None,
            Err(warning) => incomplete_from(snapshot.warnings@, 0) == Some(warning@),
        },
{
    let mut i: usize = 0;
    while i < snapshot.warnings.len()
        invariant
            i <= snapshot.warnings@.len(),
            incomplete_from(snapshot.warnings@, 0) == incomplete_from(
                snapshot.warnings@,
                i as int,
            ),
        decreases snapshot.warnings.len() - i,
    {
        let chars = chars_of(snapshot.warnings[i].as_str());
        if starts_with(chars.as_slice(), "Port scan may be incomplete:") {
            return Err(snapshot.warnings[i].clone());
        }
        i += 1;
    }
    Ok(())
}

/// The processes that listen on a port.
fn collect_pids_on(listeners: &[TcpListenerInfo], port: u16) -> (r: Vec<i32>)
    ensures
        r@ == pids_on(listener_models(listeners@), port, listeners@.len() as int),
{
    let ghost models = listener_models(listeners@);
    let mut pids: Vec<i32> = Vec::new();
    let mut i: usize = 0;
    while i < listeners.len()
        invariant
            i <= listeners@.len(),
            models == listener_models(listeners@),
            pids@ == pids_on(models, port, i as int),
        decreases listeners.len() - i,
    {
        proof {
            assert(models[i as int] == listeners@[i as int]@);
        }
        if listeners[i].port == port {
            pids.push(listeners[i].pid);
        }
        i += 1;
    }
    pids
}

/// How the project with an identifier stands to its port.
fn find_run_info(projects: &[Project], snapshot: &ListenerSnapshot, id: &str) -> (r: PortRunInfo)
    requires
        has_id(project_models(projects@), id@),
    ensures
        is_run_info(
            r@,
            project_models(projects@),
            listener_models(snapshot.listeners@),
            cwd_texts(snapshot.cwd_by_pid@),
            id@,
        ),
{
    let ghost models = project_models(projects@);
    proof {
        lemma_last_with_id(models, id@, models.len() as int);
    }
    let port = match find_last(projects, id) {
        Some(i) => projects[i].port,
        None => 0,
    };
    proof {
        let i = last_with_id(models, id@, models.len() as int)->0;
        assert(models[i].port == port);
        lemma_on_port(models, port, models.len() as int, i);
    }
    let sharing = projects_on_port(projects, port);
    let pids = collect_pids_on(snapshot.listeners.as_slice(), port);
    let infos = resolve_port_run_info_with_cwds(
        sharing.as_slice(),
        pids.as_slice(),
        &snapshot.cwd_by_pid,
    );
    proof {
        assert(infos@.contains_key(id@));
    }
    match infos.get(id) {
        Some(info) => info.clone(),
        None => PortRunInfo {
            run_state: RunState::Stopped,
            owner_project_id: None,
            owner_pid: None,
            port_active: false,
        },
    }
}

/// What the user is told of each project, from a snapshot of the listeners and what was found in
/// the directories at a given time. The time is noted for each project that is running; the second
/// part of the result says whether there is one.
pub fn refresh_project_statuses_at(
    details: &[ProjectDetails],
    snapshot: &ListenerSnapshot,
    runtime: &mut RuntimeState,
    checked_at: &str,
) -> (r: Result<(Vec<ProjectStatus>, bool), String>)
    ensures
        match r {
            Ok((statuses, changed)) => {
                &&& incomplete_from(snapshot.warnings@, 0) is None
                &&& statuses@.len() == details@.len()
                &&& forall|i: int|
                    0 <= i < details@.len() ==> reports(
                        (#[trigger] statuses@[i])@,
                        details@[i],
                        detailed_projects(details@),
                        listener_models(snapshot.listeners@),
                        cwd_texts(snapshot.cwd_by_pid@),
                        old(runtime)@,
                        checked_at@,
                    )
                &&& notes_running(
                    old(runtime)@,
                    final(runtime)@,
                    status_models(statuses@),
                    statuses@.len() as int,
                    checked_at@,
                )
                &&& changed <==> exists|i: int|
                    0 <= i < statuses@.len() && (#[trigger] statuses@[i]).is_running
            },
            Err(warning) => {
                &&& incomplete_from(snapshot.warnings@, 0) == Some(warning@)
                &&& final(runtime)@ == old(runtime)@
            },
        },
{
    if let Err(warning) = check_snapshot(snapshot) {
        return Err(warning);
    }
    let mut projects: Vec<Project> = Vec::new();
    let mut n: usize = 0;
    while n < details.len()
        invariant
            n <= details@.len(),
            projects@.len() == n,
            forall|j: int| 0 <= j < n ==> (#[trigger] projects@[j])@ == details@[j].project@,
        decreases details.len() - n,
    {
        projects.push(details[n].project.clone());
        n += 1;
    }
    let ghost models = detailed_projects(details@);
    let ghost listeners = listener_models(snapshot.listeners@);
    let ghost cwds = cwd_texts(snapshot.cwd_by_pid@);
    let ghost times = runtime@;
    proof {
        assert(project_models(projects@) =~= models);
    }
    let mut statuses: Vec<ProjectStatus> = Vec::new();
    let mut changed = false;
    let mut i: usize = 0;
    while i < details.len()
        invariant
            i <= details@.len(),
            models == detailed_projects(details@),
            models == project_models(projects@),
            listeners == listener_models(snapshot.listeners@),
            cwds == cwd_texts(snapshot.cwd_by_pid@),
            statuses@.len() == i,
            forall|j: int|
                0 <= j < i ==> reports(
                    (#[trigger] statuses@[j])@,
                    details@[j],
                    models,
                    listeners,
                    cwds,
                    times,
                    checked_at@,
                ),
            notes_running(
                times,
                runtime@,
                status_models(statuses@),
                i as int,
                checked_at@,
            ),
            changed <==> exists|j: int| 0 <= j < i && (#[trigger] statuses@[j]).is_running,
        decreases details.len() - i,
    {
        let ghost before = runtime@;
        let ghost told = status_models(statuses@);
        let project = &details[i].project;
        proof {
            assert(models[i as int] == project@);
        }
        let info = find_run_info(projects.as_slice(), snapshot, project.id.as_str());
        let is_running = match info.run_state {
            RunState::Owned => true,
            _ => false,
        };
        let pid = if is_running {
            info.owner_pid
        } else {
            None
        };
        if is_running {
            runtime.note(project.id.as_str(), checked_at);
            changed = true;
        }
        let last_running_at = runtime.last_running(project.id.as_str());
        let branch = if details[i].path_exists {
            details[i].branch.clone()
        } else {
            no_branch()
        };
        let error = if details[i].path_exists {
            None
        } else {
            Some("Path is missing or no longer a directory".to_owned())
        };
        let status = ProjectStatus {
            project_id: project.id.clone(),
            branch,
            is_running,
            pid,
            port_active: info.port_active,
            run_state: info.run_state,
            owner_project_id: info.owner_project_id,
            last_running_at,
            checked_at: checked_at.to_owned(),
            error,
        };
        proof {
            assert(status_run_info(status@) == info@);
            if !is_running {
                lemma_same_answer(
                    told,
                    details@,
                    models,
                    listeners,
                    cwds,
                    times,
                    checked_at@,
                    status@,
                    i as int,
                );
                assert(last_seen(before, project.id@) == last_seen(times, project.id@));
            }
            assert(reports(
                status@,
                details@[i as int],
                models,
                listeners,
                cwds,
                times,
                checked_at@,
            ));
        }
        let ghost pushed = statuses@;
        statuses.push(status);
        proof {
            let now = status_models(statuses@);
            assert forall|id: Seq<char>| #[trigger]
                last_seen(runtime@, id) == if seen_running(now, id, i + 1) {
                    Some(checked_at@)
                } else {
                    last_seen(times, id)
                } by {
                assert(last_seen(before, id) == if seen_running(told, id, i as int) {
                    Some(checked_at@)
                } else {
                    last_seen(times, id)
                });
                assert(now[i as int] == status@);
                assert(forall|j: int| 0 <= j < i ==> #[trigger] now[j] == told[j]);
                if seen_running(told, id, i as int) {
                    let j = choose|j: int|
                        0 <= j < i && (#[trigger] told[j]).project_id == id && told[j].is_running;
                    assert(now[j].project_id == id);
                }
                if seen_running(now, id, i + 1) && !(id == project.id@ && is_running) {
                    let j = choose|j: int|
                        0 <= j < i + 1 && (#[trigger] now[j]).project_id == id
                            && now[j].is_running;
                    assert(told[j].project_id == id);
                }
            }
            if is_running {
                assert(statuses@[i as int].is_running);
            } else if changed {
                let j = choose|j: int| 0 <= j < i && (#[trigger] pushed[j]).is_running;
                assert(statuses@[j].is_running);
            } else {
                assert(forall|j: int| 0 <= j < i ==> #[trigger] statuses@[j] == pushed[j]);
            }
        }
        i += 1;
    }
    Ok((statuses, changed))
}

/// Projects that share an identifier are told the same of their port.
proof fn lemma_same_answer(
    told: Seq<StatusModel>,
    details: Seq<ProjectDetails>,
    projects: Seq<ProjectModel>,
    listeners: Seq<ListenerModel>,
    cwds: Map<i32, Seq<char>>,
    times: Map<Seq<char>, Seq<char>>,
    checked_at: Seq<char>,
    status: StatusModel,
    n: int,
)
    requires
        0 <= n <= told.len(),
        n < details.len(),
        projects == detailed_projects(details),
        forall|j: int|
            0 <= j < n ==> reports(
                #[trigger] told[j],
                details[j],
                projects,
                listeners,
                cwds,
                times,
                checked_at,
            ),
        status.project_id == details[n].project.id@,
        is_run_info(status_run_info(status), projects, listeners, cwds, details[n].project.id@),
        !(status.run_state is Owned),
    ensures
        !seen_running(told, status.project_id, n),
{
    if seen_running(told, status.project_id, n) {
        let j = choose|j: int|
            0 <= j < n && (#[trigger] told[j]).project_id == status.project_id
                && told[j].is_running;
        assert(is_run_info(
            status_run_info(told[j]),
            projects,
            listeners,
            cwds,
            status.project_id,
        ));
    }
}

/// What the user is told of each project at present.
pub fn refresh_project_statuses(
    details: &[ProjectDetails],
    snapshot: &ListenerSnapshot,
    runtime: &mut RuntimeState,
) -> (r: Result<(Vec<ProjectStatus>, bool), String>)
    ensures
        match r {
            Ok((statuses, changed)) => {
                &&& incomplete_from(snapshot.warnings@, 0) is None
                &&& statuses@.len() == details@.len()
                &&& exists|checked_at: Seq<char>|
                    {
                        &&& is_timestamp(checked_at)
                        &&& forall|i: int|
                            0 <= i < details@.len() ==> reports(
                                (#[trigger] statuses@[i])@,
                                details@[i],
                                detailed_projects(details@),
                                listener_models(snapshot.listeners@),
                                cwd_texts(snapshot.cwd_by_pid@),
                                old(runtime)@,
                                checked_at,
                            )
                        &&& #[trigger] notes_running(
                            old(runtime)@,
                            final(runtime)@,
                            status_models(statuses@),
                            statuses@.len() as int,
                            checked_at,
                        )
                    }
                &&& changed <==> exists|i: int|
                    0 <= i < statuses@.len() && (#[trigger] statuses@[i]).is_running
            },
            Err(warning) => {
                &&& incomplete_from(snapshot.warnings@, 0) == Some(warning@)
                &&& final(runtime)@ == old(runtime)@
            },
        },
{
    let checked_at = now_iso();
    refresh_project_statuses_at(details, snapshot, runtime, checked_at.as_str())
}

/// How many of the first `n` statuses say that a project is running.
pub open spec fn running_count(statuses: Seq<ProjectStatus>, n: int) -> nat
    decreases n,
{
    if n <= 0 {
        0
    } else {
        running_count(statuses, n - 1) + (if statuses[n - 1].is_running {
            1nat
        } else {
            0nat
        })
    }
}

/// Counts the projects that are running.
pub fn active_project_count(statuses: &[ProjectStatus]) -> (r: usize)
    ensures
        r == running_count(statuses@, statuses@.len() as int),
{
    let mut count: usize = 0;
    let mut i: usize = 0;
    while i < statuses.len()
        invariant
            i <= statuses@.len(),
            count <= i,
            count == running_count(statuses@, i as int),
        decreases statuses.len() - i,
    {
        if statuses[i].is_running {
            count += 1;
        }
        i += 1;
    }
    count
}

/// What stands beside the icon where `count` projects are running.
pub open spec fn shown_count(count: nat) -> Seq<char> {
    if count > 0 {
        decimal(count)
    } else {
        Seq::empty()
    }
}

/// What stands beside the icon: the number of running projects, or nothing where there are none.
pub fn tray_title_for_active_count(count: usize) -> (r: String)
    ensures
        r@ == (if count == 0 {
            Seq::empty()
        } else {
            decimal(count as nat)
        }),
        r@ == shown_count(count as nat),
{
    if count == 0 {
        String::new()
    } else {
        write_decimal(count as u64)
    }
}

/// A process is named exactly for a running project, and a running project owns its port.
pub proof fn law_process_is_named_while_running(
    status: StatusModel,
    details: ProjectDetails,
    projects: Seq<ProjectModel>,
    listeners: Seq<ListenerModel>,
    cwds: Map<i32, Seq<char>>,
    times: Map<Seq<char>, Seq<char>>,
    checked_at: Seq<char>,
)
    requires
        reports(status, details, projects, listeners, cwds, times, checked_at),
    ensures
        status.pid is Some <==> status.is_running,
        status.is_running ==> status.port_active && status.owner_project_id == Some(
            status.project_id,
        ) && status.last_running_at == Some(checked_at),
{
    if status.is_running {
        let port = port_of(projects, status.project_id);
        let sharing = on_port(projects, port, projects.len() as int);
        let pids = pids_on(listeners, port, listeners.len() as int);
        assert(crate::ownership::claimed(sharing, pids, cwds, status.project_id));
        assert(crate::ownership::claimed(sharing, pids, cwds, status.owner_project_id->0));
    }
}

/// A project whose port nobody listens on is not running, and keeps the time at which it was last
/// seen running.
pub proof fn law_silent_port_is_not_running(
    status: StatusModel,
    details: ProjectDetails,
    projects: Seq<ProjectModel>,
    listeners: Seq<ListenerModel>,
    cwds: Map<i32, Seq<char>>,
    times: Map<Seq<char>, Seq<char>>,
    checked_at: Seq<char>,
)
    requires
        reports(status, details, projects, listeners, cwds, times, checked_at),
        forall|i: int|
            0 <= i < listeners.len() ==> (#[trigger] listeners[i]).port != port_of(
                projects,
                status.project_id,
            ),
    ensures
        status.run_state is Stopped,
        !status.is_running,
        !status.port_active,
        status.last_running_at == last_seen(times, status.project_id),
{
    lemma_no_pids(listeners, port_of(projects, status.project_id), listeners.len() as int);
}

/// Where nobody listens on a port, no process does.
proof fn lemma_no_pids(listeners: Seq<ListenerModel>, port: u16, n: int)
    requires
        0 <= n <= listeners.len(),
        forall|i: int| 0 <= i < n ==> (#[trigger] listeners[i]).port != port,
    ensures
        pids_on(listeners, port, n).len() == 0,
    decreases n,
{
    if n > 0 {
        lemma_no_pids(listeners, port, n - 1);
    }
}

/// At most one project on a port is running.
pub proof fn law_at_most_one_runs_on_a_port(
    a: StatusModel,
    b: StatusModel,
    details_a: ProjectDetails,
    details_b: ProjectDetails,
    projects: Seq<ProjectModel>,
    listeners: Seq<ListenerModel>,
    cwds: Map<i32, Seq<char>>,
    times: Map<Seq<char>, Seq<char>>,
    checked_at: Seq<char>,
)
    requires
        reports(a, details_a, projects, listeners, cwds, times, checked_at),
        reports(b, details_b, projects, listeners, cwds, times, checked_at),
        port_of(projects, a.project_id) == port_of(projects, b.project_id),
        a.is_running,
        b.is_running,
    ensures
        a.project_id == b.project_id,
{
    let port = port_of(projects, a.project_id);
    crate::ownership::law_at_most_one_owner(
        status_run_info(a),
        status_run_info(b),
        on_port(projects, port, projects.len() as int),
        pids_on(listeners, port, listeners.len() as int),
        cwds,
        a.project_id,
        b.project_id,
    );
}

/// A scan that may have missed listeners is never taken for the truth: whatever else is warned of,
/// its snapshot is refused with the reason for the doubt.
pub proof fn law_doubtful_scan_is_refused(
    output: CommandOutput,
    warnings: Seq<String>,
    others: Seq<Seq<char>>,
)
    requires
        scan_doubtful(output),
        strings(warnings) == scan_warnings(output) + others,
    ensures
        incomplete_from(warnings, 0) == Some("Port scan may be incomplete: "@ + output.reason()),
{
    reveal_strlit("Port scan may be incomplete: ");
    reveal_strlit("Port scan may be incomplete:");
    let first = "Port scan may be incomplete: "@ + output.reason();
    assert(strings(warnings)[0] == first);
    assert(strings(warnings).len() == warnings.len());
    assert(warnings[0]@ == first);
    assert(first.subrange(0, "Port scan may be incomplete:"@.len() as int)
        =~= "Port scan may be incomplete:"@);
}

/// A project whose path is no directory is shown with an error and without a branch, and no other
/// is shown with an error.
pub proof fn law_missing_path_is_shown(
    status: StatusModel,
    details: ProjectDetails,
    projects: Seq<ProjectModel>,
    listeners: Seq<ListenerModel>,
    cwds: Map<i32, Seq<char>>,
    times: Map<Seq<char>, Seq<char>>,
    checked_at: Seq<char>,
)
    requires
        reports(status, details, projects, listeners, cwds, times, checked_at),
    ensures
        status.error is Some <==> !details.path_exists,
        status.error is Some ==> status.branch == "not-a-git-repo"@,
{
}

/// The number beside the icon is that of the running projects; without any there is none.
pub proof fn law_shown_count_reads_back(count: nat)
    ensures
        shown_count(count).len() == 0 <==> count == 0,
        count > 0 ==> crate::numbers::all_digits(shown_count(count))
            && crate::numbers::digits_value(shown_count(count)) == count,
{
    crate::numbers::law_decimal_reads_back(count);
}

} // verus!
