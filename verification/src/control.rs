//! Stopping and starting the servers of projects, as decisions between outside actions.

use std::collections::HashMap;

use vstd::prelude::*;

use crate::listeners::cwd_texts;
use crate::numbers::{decimal, signed_decimal, write_decimal, write_signed};
use crate::ownership::{
    blocked_reason_for_run_state, describes, kill_blocked, lemma_on_port, on_port, projects_on_port,
    resolve_port_run_info, start_blocked, start_blocked_reason_for_run_state, KillBlockedReason,
    PortRunInfo, RunInfoModel, StartBlockedReason,
};
use crate::projects::{find_project, project_models, project_under, Project, ProjectModel};
use crate::text::{chars_of, concat, text_of, trim, trimmed};

verus! {

/// What came of stopping a project.
#[derive(Debug)]
pub struct KillResult {
    pub project_id: String,
    pub attempted_pid: Option<i32>,
    pub terminated: bool,
    pub signal_used: String,
    pub blocked_reason: Option<KillBlockedReason>,
}

/// What a `KillResult` says.
pub struct KillResultModel {
    pub project_id: Seq<char>,
    pub attempted_pid: Option<i32>,
    pub terminated: bool,
    pub signal_used: Seq<char>,
    pub blocked_reason: Option<KillBlockedReason>,
}

impl View for KillResult {
    type V = KillResultModel;

    open spec fn view(&self) -> KillResultModel {
        KillResultModel {
            project_id: self.project_id@,
            attempted_pid: self.attempted_pid,
            terminated: self.terminated,
            signal_used: self.signal_used@,
            blocked_reason: self.blocked_reason,
        }
    }
}

/// How far a run that stops a process has come.
#[derive(Debug, Clone, Copy, PartialEq, Eq, Structural)]
pub enum KillPhase {
    /// The process is to be asked to end.
    Asking,
    /// The process has been asked to end.
    Asked,
    /// The process is to be forced to end.
    Forcing,
    /// The process has been forced to end.
    Forced,
}

/// A run that stops the process of a project.
#[derive(Debug)]
pub struct KillRun {
    pub project_id: String,
    pub pid: i32,
    pub phase: KillPhase,
}

/// What is to be done next in a run.
#[derive(Debug)]
pub enum KillAction {
    /// Send a signal to a process.
    Signal { pid: i32, signal: String },
    /// Wait until a process has ended, for this long at most.
    AwaitExit { pid: i32, milliseconds: u64 },
}

/// Where a run stands after an action.
#[derive(Debug)]
pub enum KillProgress {
    /// There is more to do.
    Running(KillRun),
    /// The run is over.
    Finished(KillResult),
    /// The run was broken off, with this message.
    Failed(String),
}

/// What is to be done to stop a project.
#[derive(Debug)]
pub enum KillPlan {
    /// Nothing, for the reason in the result.
    Blocked(KillResult),
    /// A process is to be stopped.
    Stop(KillRun),
}

/// Whether `info` is what is to be said of the project with the identifier `id`, from the
/// processes that listen on its port and the directories that they work in.
pub open spec fn port_info(
    info: RunInfoModel,
    projects: Seq<ProjectModel>,
    id: Seq<char>,
    pids: Seq<i32>,
    cwds: Map<i32, Seq<char>>,
) -> bool {
    match project_under(projects, id) {
        Some(project) => describes(
            info,
            on_port(projects, project.port, projects.len() as int),
            pids,
            cwds,
            id,
        ),
        None => false,
    }
}

/// The message with which a request about a project is refused before its state is known.
pub open spec fn inspection_error(
    projects: Seq<ProjectModel>,
    id: Seq<char>,
    pids: Result<Vec<i32>, String>,
    cwds: Result<HashMap<i32, String>, String>,
) -> Option<Seq<char>> {
    if project_under(projects, id) is None {
        Some("Project not found"@)
    } else {
        match (pids, cwds) {
            (Err(error), _) => Some(error@),
            (Ok(_), Err(error)) => Some(error@),
            (Ok(_), Ok(_)) => None,
        }
    }
}

/// The answer to a request to stop a project that is not stopped.
pub open spec fn blocked_kill(id: Seq<char>, reason: KillBlockedReason) -> KillResultModel {
    KillResultModel {
        project_id: id,
        attempted_pid: None,
        terminated: false,
        signal_used: "none"@,
        blocked_reason: Some(reason),
    }
}

/// Whether a plan is the one that follows from what is said of a project.
pub open spec fn is_kill_plan(plan: KillPlan, info: RunInfoModel, id: Seq<char>) -> bool {
    match (kill_blocked(info.run_state), plan) {
        (Some(reason), KillPlan::Blocked(result)) => result@ == blocked_kill(id, reason),
        (None, KillPlan::Stop(run)) => run.project_id@ == id && info.owner_pid == Some(run.pid)
            && run.phase is Asking,
        _ => false,
    }
}

/// The port that has to be inspected before a project can be stopped or started.
pub fn port_to_inspect(projects: &[Project], project_id: &str) -> (r: Result<u16, String>)
    ensures
        match r {
            Ok(port) => {
                &&& project_under(project_models(projects@), project_id@) matches Some(project)
                &&& port == project.port
            },
            Err(message) => {
                &&& project_under(project_models(projects@), project_id@) is None
                &&& message@ == "Project not found"@
            },
        },
{
    match find_project(projects, project_id) {
        Some(i) => Ok(projects[i].port),
        None => Err("Project not found".to_owned()),
    }
}

/// What is to be said of a project, from what an inspection of its port brought.
fn inspect(
    projects: &[Project],
    project_id: &str,
    pids: &Result<Vec<i32>, String>,
    cwds: &Result<HashMap<i32, String>, String>,
) -> (r: Result<(usize, PortRunInfo), String>)
    ensures
        match r {
            Ok((index, info)) => {
                &&& inspection_error(project_models(projects@), project_id@, *pids, *cwds) is None
                &&& index < projects@.len()
                &&& project_under(project_models(projects@), project_id@) == Some(
                    projects@[index as int]@,
                )
                &&& port_info(
                    info@,
                    project_models(projects@),
                    project_id@,
                    pids->Ok_0@,
                    cwd_texts(cwds->Ok_0@),
                )
            },
            Err(message) => inspection_error(
                project_models(projects@),
                project_id@,
                *pids,
                *cwds,
            ) == Some(message@),
        },
{
    let ghost models = project_models(projects@);
    let index = match find_project(projects, project_id) {
        Some(index) => index,
        None => {
            return Err("Project not found".to_owned());
        },
    };
    let port = projects[index].port;
    proof {
        assert(models[index as int] == projects@[index as int]@);
        lemma_on_port(models, port, models.len() as int, index as int);
    }
    let sharing = projects_on_port(projects, port);
    let pids = match pids {
        Ok(pids) => pids,
        Err(error) => {
            return Err(error.clone());
        },
    };
    let infos = match resolve_port_run_info(sharing.as_slice(), pids.as_slice(), cwds) {
        Ok(infos) => infos,
        Err(error) => {
            return Err(error);
        },
    };
    proof {
        assert(infos@.contains_key(project_id@));
    }
    match infos.get(project_id) {
        Some(info) => Ok((index, info.clone())),
        None => Err("Project not found".to_owned()),
    }
}

/// What is to be done to stop a project, from the processes that listen on its port and the
/// directories that they work in. Only a process that belongs to the project, and to no other, is
/// stopped.
pub fn plan_kill(
    projects: &[Project],
    project_id: &str,
    pids: &Result<Vec<i32>, String>,
    cwds: &Result<HashMap<i32, String>, String>,
) -> (r: Result<KillPlan, String>)
    ensures
        match r {
            Ok(plan) => {
                &&& inspection_error(project_models(projects@), project_id@, *pids, *cwds) is None
                &&& exists|info: RunInfoModel| #[trigger]
                    port_info(
                        info,
                        project_models(projects@),
                        project_id@,
                        pids->Ok_0@,
                        cwd_texts(cwds->Ok_0@),
                    ) && is_kill_plan(plan, info, project_id@)
            },
            Err(message) => inspection_error(
                project_models(projects@),
                project_id@,
                *pids,
                *cwds,
            ) == Some(message@),
        },
{
    let (_, info) = match inspect(projects, project_id, pids, cwds) {
        Ok(found) => found,
        Err(message) => {
            return Err(message);
        },
    };
    let reason = match blocked_reason_for_run_state(info.run_state) {
        Some(reason) => Some(reason),
        None => match info.owner_pid {
            Some(_) => None,
            None => Some(KillBlockedReason::Ambiguous),
        },
    };
    let plan = match (reason, info.owner_pid) {
        (None, Some(pid)) => KillPlan::Stop(
            KillRun { project_id: project_id.to_owned(), pid, phase: KillPhase::Asking },
        ),
        (None, None) => KillPlan::Blocked(
            KillResult {
                project_id: project_id.to_owned(),
                attempted_pid: None,
                terminated: false,
                signal_used: "none".to_owned(),
                blocked_reason: Some(KillBlockedReason::Ambiguous),
            },
        ),
        (Some(reason), _) => KillPlan::Blocked(
            KillResult {
                project_id: project_id.to_owned(),
                attempted_pid: None,
                terminated: false,
                signal_used: "none".to_owned(),
                blocked_reason: Some(reason),
            },
        ),
    };
    proof {
        assert(is_kill_plan(plan, info@, project_id@));
    }
    Ok(plan)
}

/// Whether an action is the one that a run calls for.
pub open spec fn is_kill_action(run: KillRun, action: KillAction) -> bool {
    match (run.phase, action) {
        (KillPhase::Asking, KillAction::Signal { pid, signal }) => pid == run.pid && signal@
            == "-TERM"@,
        (KillPhase::Asked, KillAction::AwaitExit { pid, milliseconds }) => pid == run.pid
            && milliseconds == 2000,
        (KillPhase::Forcing, KillAction::Signal { pid, signal }) => pid == run.pid && signal@
            == "-KILL"@,
        (KillPhase::Forced, KillAction::AwaitExit { pid, milliseconds }) => pid == run.pid
            && milliseconds == 1000,
        _ => false,
    }
}

/// The name of the signal that a run used last.
pub open spec fn signal_name(phase: KillPhase) -> Seq<char> {
    match phase {
        KillPhase::Asking | KillPhase::Asked => "SIGTERM"@,
        KillPhase::Forcing | KillPhase::Forced => "SIGKILL"@,
    }
}

/// The phase that follows an action that brought `outcome`. None follows where the process ended,
/// or had the last chance to.
pub open spec fn next_phase(phase: KillPhase, outcome: bool) -> Option<KillPhase> {
    match phase {
        KillPhase::Asking => Some(KillPhase::Asked),
        KillPhase::Asked => if outcome {
            None
        } else {
            Some(KillPhase::Forcing)
        },
        KillPhase::Forcing => Some(KillPhase::Forced),
        KillPhase::Forced => None,
    }
}

/// Whether a run stands at `progress` once its action has brought `outcome`: for a signal, that it
/// was sent; for a wait, whether the process ended.
pub open spec fn is_kill_progress(
    run: KillRun,
    outcome: Result<bool, String>,
    progress: KillProgress,
) -> bool {
    match outcome {
        Err(error) => progress matches KillProgress::Failed(message) && message@ == error@,
        Ok(outcome) => match next_phase(run.phase, outcome) {
            Some(phase) => progress matches KillProgress::Running(next) && next.project_id@
                == run.project_id@ && next.pid == run.pid && next.phase == phase,
            None => progress matches KillProgress::Finished(result) && result@ == (
            KillResultModel {
                project_id: run.project_id@,
                attempted_pid: Some(run.pid),
                terminated: outcome,
                signal_used: signal_name(run.phase),
                blocked_reason: None,
            }),
        },
    }
}

impl KillRun {
    /// What is to be done next.
    pub fn action(&self) -> (r: KillAction)
        ensures
            is_kill_action(*self, r),
    {
        match self.phase {
            KillPhase::Asking => KillAction::Signal { pid: self.pid, signal: "-TERM".to_owned() },
            KillPhase::Asked => KillAction::AwaitExit { pid: self.pid, milliseconds: 2000 },
            KillPhase::Forcing => KillAction::Signal { pid: self.pid, signal: "-KILL".to_owned() },
            KillPhase::Forced => KillAction::AwaitExit { pid: self.pid, milliseconds: 1000 },
        }
    }

    /// Where the run stands once its action has brought `outcome`: for a signal, that it was
    /// sent; for a wait, whether the process ended.
    pub fn advance(&self, outcome: &Result<bool, String>) -> (r: KillProgress)
        ensures
            is_kill_progress(*self, *outcome, r),
    {
        let outcome = match outcome {
            Ok(outcome) => *outcome,
            Err(error) => {
                return KillProgress::Failed(error.clone());
            },
        };
        let next = match self.phase {
            KillPhase::Asking => Some(KillPhase::Asked),
            KillPhase::Asked => if outcome {
                None
            } else {
                Some(KillPhase::Forcing)
            },
            KillPhase::Forcing => Some(KillPhase::Forced),
            KillPhase::Forced => None,
        };
        match next {
            Some(phase) => KillProgress::Running(
                KillRun { project_id: self.project_id.clone(), pid: self.pid, phase },
            ),
            None => KillProgress::Finished(
                KillResult {
                    project_id: self.project_id.clone(),
                    attempted_pid: Some(self.pid),
                    terminated: outcome,
                    signal_used: match self.phase {
                        KillPhase::Asking | KillPhase::Asked => "SIGTERM".to_owned(),
                        KillPhase::Forcing | KillPhase::Forced => "SIGKILL".to_owned(),
                    },
                    blocked_reason: None,
                },
            ),
        }
    }
}

/// A process is forced to end only after it was asked to and did not: no other outcome leads to
/// forcing it.
pub proof fn law_force_only_after_asking(
    run: KillRun,
    outcome: Result<bool, String>,
    next: KillRun,
)
    requires
        is_kill_progress(run, outcome, KillProgress::Running(next)),
        next.phase is Forcing,
    ensures
        run.phase is Asked,
        outcome == Ok::<bool, String>(false),
        next.pid == run.pid,
{
}

/// How many actions a run has left at most.
pub open spec fn actions_left(phase: KillPhase) -> nat {
    match phase {
        KillPhase::Asking => 4,
        KillPhase::Asked => 3,
        KillPhase::Forcing => 2,
        KillPhase::Forced => 1,
    }
}

/// A run ends, and never turns to another process: each action brings it closer to its end.
pub proof fn law_kill_ends_with_the_same_process(
    run: KillRun,
    outcome: Result<bool, String>,
    progress: KillProgress,
)
    requires
        is_kill_progress(run, outcome, progress),
    ensures
        match progress {
            KillProgress::Running(next) => next.pid == run.pid && actions_left(next.phase)
                < actions_left(run.phase),
            KillProgress::Finished(result) => result.attempted_pid == Some(run.pid)
                && result.blocked_reason is None,
            KillProgress::Failed(_) => outcome is Err,
        },
{
}

/// The process that is signalled to stop a project listens on its port and works inside the
/// directory of a project with its identifier, and nothing that listens there works inside the
/// directory of a project with another.
pub proof fn law_kill_stays_within_the_project(
    plan: KillPlan,
    run: KillRun,
    action: KillAction,
    info: RunInfoModel,
    projects: Seq<ProjectModel>,
    id: Seq<char>,
    pids: Seq<i32>,
    cwds: Map<i32, Seq<char>>,
)
    requires
        port_info(info, projects, id, pids, cwds),
        is_kill_plan(plan, info, id),
        plan == KillPlan::Stop(run),
        is_kill_action(run, action),
    ensures
        action matches KillAction::Signal { pid, .. } && {
            let sharing = on_port(
                projects,
                project_under(projects, id)->0.port,
                projects.len() as int,
            );
            &&& pids.contains(pid)
            &&& cwds.contains_key(pid)
            &&& exists|j: int|
                0 <= j < sharing.len() && (#[trigger] sharing[j]).id == id
                    && crate::paths::within(cwds[pid], sharing[j].path)
            &&& forall|k: int, j: int|
                0 <= k < pids.len() && 0 <= j < sharing.len() && #[trigger] crate::ownership::hit(
                    sharing,
                    pids,
                    cwds,
                    k,
                    j,
                ) ==> sharing[j].id == id
            &&& forall|k: int, j: int|
                0 <= k < pids.len() && 0 <= j < sharing.len() && cwds.contains_key(pids[k])
                    && #[trigger] crate::paths::within(cwds[pids[k]], sharing[j].path)
                    ==> sharing[j].id == id
        },
{
    let sharing = on_port(projects, project_under(projects, id)->0.port, projects.len() as int);
    crate::ownership::law_only_own_processes_are_stopped(info, sharing, pids, cwds, id);
}

/// What came of sending a signal with the `kill` command.
#[derive(Debug)]
pub enum SignalAttempt {
    /// The command could not be run, for this reason.
    NotRun(String),
    /// The command succeeded.
    Accepted,
    /// The command failed; whether the process was then alive.
    Rejected { alive: Result<bool, String> },
}

/// The message that a signal did not reach its process, if it did not. A process that is no longer
/// alive needs no signal.
pub open spec fn signal_error(pid: i32, signal: Seq<char>, attempt: SignalAttempt) -> Option<
    Seq<char>,
> {
    match attempt {
        SignalAttempt::NotRun(error) => Some(
            "Failed to send signal "@ + signal + " to PID "@ + signed_decimal(pid as int) + ": "@
                + error@,
        ),
        SignalAttempt::Accepted => None,
        SignalAttempt::Rejected { alive } => match alive {
            Err(error) => Some(error@),
            Ok(alive) => if alive {
                Some(
                    "Signal "@ + signal + " to PID "@ + signed_decimal(pid as int) + " failed"@,
                )
            } else {
                None
            },
        },
    }
}

/// Whether a signal reached its process.
pub fn send_signal(pid: i32, signal: &str, attempt: &SignalAttempt) -> (r: Result<(), String>)
    ensures
        match r {
            Ok(_) => signal_error(pid, signal@, *attempt) is None,
            Err(message) => signal_error(pid, signal@, *attempt) == Some(message@),
        },
{
    match attempt {
        SignalAttempt::NotRun(error) => {
            let start = concat("Failed to send signal ", signal);
            let middle = concat(start.as_str(), " to PID ");
            let number = concat(middle.as_str(), write_signed(pid).as_str());
            let end = concat(number.as_str(), ": ");
            Err(concat(end.as_str(), error.as_str()))
        },
        SignalAttempt::Accepted => Ok(()),
        SignalAttempt::Rejected { alive } => match alive {
            Err(error) => Err(error.clone()),
            Ok(alive) => if *alive {
                let start = concat("Signal ", signal);
                let middle = concat(start.as_str(), " to PID ");
                let number = concat(middle.as_str(), write_signed(pid).as_str());
                Err(concat(number.as_str(), " failed"))
            } else {
                Ok(())
            },
        },
    }
}

/// Whether a process is alive, from whether the command that asks for it succeeded.
pub fn is_pid_alive(asked: &Result<bool, String>) -> (r: Result<bool, String>)
    ensures
        match (*asked, r) {
            (Ok(success), Ok(alive)) => alive == success,
            (Err(error), Err(message)) => message@ == "Failed to check PID status: "@ + error@,
            _ => false,
        },
{
    match asked {
        Ok(success) => Ok(*success),
        Err(error) => Err(concat("Failed to check PID status: ", error.as_str())),
    }
}

/// How waiting for something goes on.
#[derive(Debug)]
pub enum WaitStep {
    /// Waiting is over; whether it happened.
    Over(bool),
    /// Look again after this long.
    LookAgain { milliseconds: u64 },
    /// Looking failed, with this message.
    Failed(String),
}

/// Whether waiting goes on in this way after a look at `elapsed` milliseconds.
pub open spec fn is_wait_step(
    elapsed: int,
    timeout: int,
    happened: Result<bool, String>,
    step: WaitStep,
) -> bool {
    match step {
        WaitStep::Over(true) => happened == Ok::<bool, String>(true),
        WaitStep::Over(false) => happened == Ok::<bool, String>(false) && timeout <= elapsed,
        WaitStep::LookAgain { milliseconds } => happened == Ok::<bool, String>(false) && elapsed
            < timeout && milliseconds == 100,
        WaitStep::Failed(message) => happened is Err && message@ == happened->Err_0@,
    }
}

/// How waiting goes on after a look at `elapsed` milliseconds that found whether it `happened`. A
/// look that starts before `timeout` is not the last one.
pub fn wait_step(elapsed: u128, timeout: u128, happened: &Result<bool, String>) -> (r: WaitStep)
    ensures
        match *happened {
            Err(error) => r matches WaitStep::Failed(message) && message@ == error@,
            Ok(happened) => if happened {
                r == WaitStep::Over(true)
            } else if elapsed < timeout {
                r == (WaitStep::LookAgain { milliseconds: 100 })
            } else {
                r == WaitStep::Over(false)
            },
        },
        is_wait_step(elapsed as int, timeout as int, *happened, r),
{
    match happened {
        Err(error) => WaitStep::Failed(error.clone()),
        Ok(happened) => if *happened {
            WaitStep::Over(true)
        } else if elapsed < timeout {
            WaitStep::LookAgain { milliseconds: 100 }
        } else {
            WaitStep::Over(false)
        },
    }
}

/// What came of starting a project.
#[derive(Debug)]
pub struct StartResult {
    pub project_id: String,
    pub attempted_command: String,
    pub launched: bool,
    pub spawned_pid: Option<i32>,
    pub blocked_reason: Option<StartBlockedReason>,
}

/// What a `StartResult` says.
pub struct StartResultModel {
    pub project_id: Seq<char>,
    pub attempted_command: Seq<char>,
    pub launched: bool,
    pub spawned_pid: Option<i32>,
    pub blocked_reason: Option<StartBlockedReason>,
}

impl View for StartResult {
    type V = StartResultModel;

    open spec fn view(&self) -> StartResultModel {
        StartResultModel {
            project_id: self.project_id@,
            attempted_command: self.attempted_command@,
            launched: self.launched,
            spawned_pid: self.spawned_pid,
            blocked_reason: self.blocked_reason,
        }
    }
}

/// The command that starts a project.
#[derive(Debug)]
pub struct Launch {
    pub project_id: String,
    /// The command as the project has it.
    pub attempted_command: String,
    /// The command for the shell.
    pub command: String,
    /// The directory in which it runs.
    pub directory: String,
    /// The port, as the command finds it in its environment.
    pub port: String,
}

/// What is to be done to start a project.
#[derive(Debug)]
pub enum StartPlan {
    /// Nothing, for the reason in the result.
    Blocked(StartResult),
    /// A command is to be run.
    Run(Launch),
}

/// The message that a project that could be started is not, if it is not.
pub open spec fn launch_error(project: ProjectModel, path_exists: bool) -> Option<Seq<char>> {
    if !path_exists {
        Some("Project path is missing or no longer a directory"@)
    } else if trimmed(project.start_command).len() == 0 {
        Some("Start command cannot be empty"@)
    } else {
        None
    }
}

/// Whether a plan is the one that follows from what is said of a project.
pub open spec fn is_start_plan(
    plan: StartPlan,
    info: RunInfoModel,
    id: Seq<char>,
    project: ProjectModel,
) -> bool {
    match (start_blocked(info.run_state), plan) {
        (Some(reason), StartPlan::Blocked(result)) => result@ == (StartResultModel {
            project_id: id,
            attempted_command: project.start_command,
            launched: false,
            spawned_pid: None,
            blocked_reason: Some(reason),
        }),
        (None, StartPlan::Run(launch)) => {
            &&& launch.project_id@ == id
            &&& launch.attempted_command@ == project.start_command
            &&& launch.command@ == trimmed(project.start_command)
            &&& launch.directory@ == project.path
            &&& launch.port@ == decimal(project.port as nat)
        },
        _ => false,
    }
}

/// What is to be done to start a project, from the processes that listen on its port, the
/// directories that they work in and whether the path of the project is a directory. A project is
/// started only where nothing listens on its port.
pub fn plan_start(
    projects: &[Project],
    project_id: &str,
    pids: &Result<Vec<i32>, String>,
    cwds: &Result<HashMap<i32, String>, String>,
    path_exists: bool,
) -> (r: Result<StartPlan, String>)
    ensures
        match r {
            Ok(plan) => {
                let project = project_under(project_models(projects@), project_id@)->0;
                &&& inspection_error(project_models(projects@), project_id@, *pids, *cwds) is None
                &&& plan is Run ==> launch_error(project, path_exists) is None
                &&& exists|info: RunInfoModel| #[trigger]
                    port_info(
                        info,
                        project_models(projects@),
                        project_id@,
                        pids->Ok_0@,
                        cwd_texts(cwds->Ok_0@),
                    ) && is_start_plan(plan, info, project_id@, project)
            },
            Err(message) => match inspection_error(
                project_models(projects@),
                project_id@,
                *pids,
                *cwds,
            ) {
                Some(error) => message@ == error,
                None => {
                    let project = project_under(project_models(projects@), project_id@)->0;
                    &&& launch_error(project, path_exists) == Some(message@)
                    &&& exists|info: RunInfoModel| #[trigger]
                        port_info(
                            info,
                            project_models(projects@),
                            project_id@,
                            pids->Ok_0@,
                            cwd_texts(cwds->Ok_0@),
                        ) && start_blocked(info.run_state) is None
                },
            },
        },
{
    let (index, info) = match inspect(projects, project_id, pids, cwds) {
        Ok(found) => found,
        Err(message) => {
            return Err(message);
        },
    };
    let project = &projects[index];
    let ghost model = project_under(project_models(projects@), project_id@)->0;
    proof {
        assert(model == project@);
        assert(port_info(
            info@,
            project_models(projects@),
            project_id@,
            pids->Ok_0@,
            cwd_texts(cwds->Ok_0@),
        ));
    }
    match start_blocked_reason_for_run_state(info.run_state) {
        Some(reason) => {
            let plan = StartPlan::Blocked(
                StartResult {
                    project_id: project_id.to_owned(),
                    attempted_command: project.start_command.clone(),
                    launched: false,
                    spawned_pid: None,
                    blocked_reason: Some(reason),
                },
            );
            proof {
                assert(is_start_plan(plan, info@, project_id@, model));
            }
            return Ok(plan);
        },
        None => {},
    }
    if !path_exists {
        return Err("Project path is missing or no longer a directory".to_owned());
    }
    let chars = chars_of(project.start_command.as_str());
    let command = text_of(trim(chars.as_slice()));
    if command.as_str().is_empty() {
        return Err("Start command cannot be empty".to_owned());
    }
    let plan = StartPlan::Run(
        Launch {
            project_id: project_id.to_owned(),
            attempted_command: project.start_command.clone(),
            command,
            directory: project.path.clone(),
            port: write_decimal(project.port as u64),
        },
    );
    proof {
        assert(is_start_plan(plan, info@, project_id@, model));
    }
    Ok(plan)
}

/// What is reported once the command that starts a project has been run as a process with this
/// number.
pub open spec fn started(launch: Launch, pid: u32) -> StartResultModel {
    StartResultModel {
        project_id: launch.project_id@,
        attempted_command: launch.attempted_command@,
        launched: true,
        spawned_pid: if pid < 0x8000_0000 {
            Some(pid as i32)
        } else {
            None
        },
        blocked_reason: None,
    }
}

/// What came of running the command that starts a project: the number of its process, or why it
/// could not be run. A number that is too large is not reported.
pub fn finish_start(launch: &Launch, spawned: &Result<u32, String>) -> (r: Result<
    StartResult,
    String,
>)
    ensures
        match (*spawned, r) {
            (Ok(pid), Ok(result)) => result@ == (StartResultModel {
                project_id: launch.project_id@,
                attempted_command: launch.attempted_command@,
                launched: true,
                spawned_pid: if pid <= i32::MAX {
                    Some(pid as i32)
                } else {
                    None
                },
                blocked_reason: None,
            }),
            (Err(error), Err(message)) => message@ == "Failed to start project server: "@ + error@,
            _ => false,
        },
        *spawned is Ok ==> r->Ok_0@ == started(*launch, spawned->Ok_0),
{
    match spawned {
        Ok(pid) => Ok(
            StartResult {
                project_id: launch.project_id.clone(),
                attempted_command: launch.attempted_command.clone(),
                launched: true,
                spawned_pid: if *pid <= 0x7fff_ffff {
                    Some(*pid as i32)
                } else {
                    None
                },
                blocked_reason: None,
            },
        ),
        Err(error) => Err(concat("Failed to start project server: ", error.as_str())),
    }
}

/// A project is started only where nothing listens on its port.
pub proof fn law_start_needs_a_free_port(
    plan: StartPlan,
    info: RunInfoModel,
    projects: Seq<ProjectModel>,
    id: Seq<char>,
    pids: Seq<i32>,
    cwds: Map<i32, Seq<char>>,
)
    requires
        port_info(info, projects, id, pids, cwds),
        is_start_plan(plan, info, id, project_under(projects, id)->0),
    ensures
        plan is Run <==> pids.len() == 0,
{
}

/// What happened ends waiting with success whenever it is seen, and nothing else does. Waiting is
/// given up only once the time is over; until then there is another look a tenth of a second later.
pub proof fn law_waiting_lasts_its_time(
    elapsed: int,
    timeout: int,
    happened: Result<bool, String>,
    step: WaitStep,
)
    requires
        is_wait_step(elapsed, timeout, happened, step),
    ensures
        happened == Ok::<bool, String>(true) <==> step == WaitStep::Over(true),
        step == WaitStep::Over(false) ==> elapsed >= timeout,
        happened == Ok::<bool, String>(false) && elapsed >= timeout ==> step == WaitStep::Over(
            false,
        ),
        happened == Ok::<bool, String>(false) && elapsed < timeout ==> step
            == (WaitStep::LookAgain { milliseconds: 100 }),
        happened matches Err(error) ==> (step matches WaitStep::Failed(message) && message@
            == error@),
{
}

/// A started project is reported as launched, by its command, with the number of its process where
/// that is no larger than process numbers can be.
pub proof fn law_started_project_is_reported(launch: Launch, pid: u32)
    ensures
        ({
            let result = started(launch, pid);
            &&& result.launched
            &&& result.blocked_reason is None
            &&& result.project_id == launch.project_id@
            &&& result.attempted_command == launch.attempted_command@
            &&& result.spawned_pid is Some <==> pid <= i32::MAX
            &&& result.spawned_pid is Some ==> result.spawned_pid->0 == pid
        }),
{
}

} // verus!
