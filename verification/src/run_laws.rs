//! What always holds of scans, of the branch, of the search path and of stopping and starting.

use std::collections::HashMap;

use vstd::prelude::*;

use crate::branch::{branch_name, is_detached};
use crate::commands::{lossy_utf8, CommandOutput};
use crate::control::{
    inspection_error, is_kill_action, is_kill_progress, is_start_plan, launch_error, signal_error,
    KillAction, KillPhase, KillProgress, KillRun, SignalAttempt, StartPlan,
};
use crate::folders::{folder_error_from, folder_outcome, kept_folders, FolderChoice};
use crate::launch::{common_entries, completed, launch_entries, not_blank, path_entries};
use crate::listeners::ListenerModel;
use crate::numbers::{decimal, signed_decimal};
use crate::ownership::RunInfoModel;
use crate::paths::absolute;
use crate::project_laws::{directory_at, is_filled_in};
use crate::projects::{PathResolution, ProjectModel};
use crate::selection::{lemma_picked_none, lemma_picked_push, picked};
use crate::snapshot::{
    counts_for, cwd_scan_failed, cwd_warnings, listens, missing_cwds, pid_list, resolved,
    scan_doubtful, scan_failed, scan_warnings,
};
use crate::status::{
    incomplete_from, last_seen, notes_running, running_count, ProjectStatus, StatusModel,
};
use crate::text::{
    law_split_at_separator, law_split_without_separator, mentions, occurs_at, split_on, trimmed,
    CharSet,
};
use crate::text_laws::{all_in, bare, law_blank_is_white_space, law_strip_leaves_the_middle};
use crate::window::action_of;

verus! {

/// A run that looks for listeners or working directories fails only where it did not succeed and
/// printed nothing, and then unless it ended with code 1 and without a complaint.
pub proof fn law_when_a_scan_fails(output: CommandOutput)
    ensures
        output.success ==> !scan_failed(output),
        output.stdout@.len() > 0 ==> !scan_failed(output),
        output.code == Some(1i32) && output.complaint().len() == 0 ==> !scan_failed(output),
        !output.success && output.stdout@.len() == 0 && output.code != Some(1i32) ==> scan_failed(
            output,
        ),
        !output.success && output.stdout@.len() == 0 && output.complaint().len() > 0
            ==> scan_failed(output),
        cwd_scan_failed(output) == scan_failed(output),
{
}

/// A run that looks for listeners is in doubt where it complained, or where it printed something
/// but did not succeed. Then, and only then, a warning gives the reason.
pub proof fn law_when_a_scan_is_in_doubt(output: CommandOutput)
    ensures
        output.complaint().len() > 0 ==> scan_doubtful(output),
        !output.success && output.stdout@.len() > 0 ==> scan_doubtful(output),
        output.complaint().len() == 0 && output.success ==> !scan_doubtful(output),
        output.complaint().len() == 0 && output.stdout@.len() == 0 ==> !scan_doubtful(output),
        scan_doubtful(output) ==> scan_warnings(output) == seq![
            "Port scan may be incomplete: "@ + output.reason(),
        ],
        !scan_doubtful(output) ==> scan_warnings(output).len() == 0,
{
}

/// What a command complains about is what it printed as errors, without the white space around it.
/// The reason why it failed is its complaint, or its exit status where it has none.
pub proof fn law_complaint_is_what_was_printed(
    output: CommandOutput,
    lead: Seq<char>,
    text: Seq<char>,
    tail: Seq<char>,
)
    requires
        lossy_utf8(output.stderr@) == lead + text + tail,
        all_in(lead, CharSet::WhiteSpace),
        all_in(tail, CharSet::WhiteSpace),
        bare(text, CharSet::WhiteSpace),
    ensures
        output.complaint() == text,
        text.len() > 0 ==> output.reason() == text,
        text.len() == 0 ==> output.reason() == output.status@,
{
    law_strip_leaves_the_middle(lead, text, tail, CharSet::WhiteSpace);
}

/// A process is inspected exactly where it is behind some listener on a port of interest, or on any
/// port where none is singled out.
pub proof fn law_which_processes_are_inspected(
    listeners: Seq<ListenerModel>,
    ports: Set<u16>,
    pid: i32,
)
    ensures
        listens(listeners, Some(ports), pid) <==> exists|i: int|
            0 <= i < listeners.len() && ports.contains((#[trigger] listeners[i]).port)
                && listeners[i].pid == pid,
        listens(listeners, None, pid) <==> exists|i: int|
            0 <= i < listeners.len() && (#[trigger] listeners[i]).pid == pid,
{
    if exists|i: int|
        0 <= i < listeners.len() && ports.contains((#[trigger] listeners[i]).port)
            && listeners[i].pid == pid {
        let i = choose|i: int|
            0 <= i < listeners.len() && ports.contains((#[trigger] listeners[i]).port)
                && listeners[i].pid == pid;
        assert(counts_for(listeners[i], Some(ports)));
    }
    if exists|i: int| 0 <= i < listeners.len() && (#[trigger] listeners[i]).pid == pid {
        let i = choose|i: int| 0 <= i < listeners.len() && (#[trigger] listeners[i]).pid == pid;
        assert(counts_for(listeners[i], None));
    }
}

/// How many processes lack a working directory, one by one.
proof fn lemma_missing(pids: Seq<i32>, cwds: Map<i32, Seq<char>>, n: int)
    requires
        0 <= n <= pids.len(),
    ensures
        missing_cwds(pids, cwds, n) == pids.take(n).filter(
            |pid: i32| !cwds.contains_key(pid),
        ).len(),
    decreases n,
{
    reveal(Seq::filter);
    if n > 0 {
        lemma_missing(pids, cwds, n - 1);
        assert(pids.take(n).drop_last() =~= pids.take(n - 1));
    }
}

/// Each process without a known working directory is counted, and the warnings about the attempt to
/// find them say what went wrong with it and how many lack one.
pub proof fn law_missing_directories_are_counted(
    pids: Seq<i32>,
    cwds: Map<i32, Seq<char>>,
    error: Seq<char>,
)
    ensures
        ({
            let missing = missing_cwds(pids, cwds, pids.len() as int);
            let said = "Could not identify the working directory of "@;
            let more =
                " listening process(es). They may have exited or require additional permissions."@;
            let found = Ok::<Map<i32, Seq<char>>, Seq<char>>(cwds);
            let failed = Err::<Map<i32, Seq<char>>, Seq<char>>(error);
            &&& missing == pids.filter(|pid: i32| !cwds.contains_key(pid)).len()
            &&& missing == 0 ==> cwd_warnings(pids, found).len() == 0
            &&& missing > 0 ==> cwd_warnings(pids, found) == seq![said + decimal(missing) + more]
            &&& pids.len() == 0 ==> cwd_warnings(pids, failed).len() == 0
            &&& pids.len() > 0 ==> cwd_warnings(pids, failed) == seq![
                error,
                said + decimal(pids.len()) + more,
            ]
        }),
{
    let n = pids.len() as int;
    assert(pids.take(n) =~= pids);
    lemma_missing(pids, cwds, n);
    lemma_all_missing(pids, n);
    let missing = missing_cwds(pids, cwds, n);
    let said = "Could not identify the working directory of "@;
    let more = " listening process(es). They may have exited or require additional permissions."@;
    if missing > 0 {
        assert(cwd_warnings(pids, Ok(cwds)) =~= seq![said + decimal(missing) + more]);
    }
    if pids.len() > 0 {
        assert(cwd_warnings(pids, Err(error)) =~= seq![error, said + decimal(pids.len()) + more]);
    }
}

/// Without any directory all processes lack one.
proof fn lemma_all_missing(pids: Seq<i32>, n: int)
    requires
        0 <= n <= pids.len(),
    ensures
        missing_cwds(pids, Map::empty(), n) == n,
    decreases n,
{
    if n > 0 {
        lemma_all_missing(pids, n - 1);
    }
}

/// A number has no comma in it.
proof fn lemma_no_comma(n: int)
    ensures
        !mentions(signed_decimal(n), CharSet::Only(',')),
{
    let s = signed_decimal(n);
    let digits = decimal(
        if n < 0 {
            (-n) as nat
        } else {
            n as nat
        },
    );
    crate::numbers::law_decimal_reads_back(
        if n < 0 {
            (-n) as nat
        } else {
            n as nat
        },
    );
    assert forall|i: int| 0 <= i < s.len() implies !CharSet::Only(',').has(#[trigger] s[i]) by {
        if n < 0 {
            if i > 0 {
                assert(s[i] == digits[i - 1]);
                assert(CharSet::Digit.has(digits[i - 1]));
            }
        } else {
            assert(CharSet::Digit.has(digits[i]));
        }
    }
}

/// All processes asked for stand in the list that is handed over, in their order, with commas
/// between them.
pub proof fn law_process_list_names_all(pids: Seq<i32>, n: int)
    requires
        1 <= n <= pids.len(),
    ensures
        split_on(pid_list(pids, n), CharSet::Only(',')) == pids.take(n).map_values(
            |pid: i32| signed_decimal(pid as int),
        ),
    decreases n,
{
    let comma = CharSet::Only(',');
    let written = |pid: i32| signed_decimal(pid as int);
    reveal_strlit(",");
    assert(","@ =~= seq![',']);
    let last = signed_decimal(pids[n - 1] as int);
    lemma_no_comma(pids[n - 1] as int);
    law_split_without_separator(last, comma);
    if n > 1 {
        law_process_list_names_all(pids, n - 1);
        law_split_at_separator(pid_list(pids, n - 1), ',', last, comma);
        assert(pids.take(n).map_values(written) =~= pids.take(n - 1).map_values(written) + seq![
            last,
        ]);
    } else {
        assert(pids.take(1).map_values(written) =~= seq![last]);
    }
}

/// A process has the directory that its last resolved one turned out to be, and none where none
/// could be resolved.
pub proof fn law_last_resolved_directory_counts(
    found: Seq<(i32, Option<Seq<char>>)>,
    n: int,
    pid: i32,
)
    requires
        0 <= n <= found.len(),
    ensures
        resolved(found, n).contains_key(pid) <==> exists|k: int|
            0 <= k < n && (#[trigger] found[k]).0 == pid && found[k].1 is Some,
        forall|k: int|
            0 <= k < n && (#[trigger] found[k]).0 == pid && found[k].1 is Some && (forall|j: int|
                k < j < n && (#[trigger] found[j]).0 == pid ==> found[j].1 is None)
                ==> resolved(found, n)[pid] == found[k].1->0,
    decreases n,
{
    if n > 0 {
        law_last_resolved_directory_counts(found, n - 1, pid);
    }
}

/// What is said of the branch: the name that `git` printed, without white space around it; for a
/// commit its short name, where that is known; and that there is no repository where it failed or
/// printed nothing.
pub proof fn law_branch_is_what_git_printed(
    head: Result<CommandOutput, String>,
    commit: Result<CommandOutput, String>,
)
    ensures
        ({
            let said = branch_name(head, commit);
            &&& head is Err ==> said == "not-a-git-repo"@
            &&& head matches Ok(output) ==> {
                let name = trimmed(lossy_utf8(output.stdout@));
                &&& !output.success || name.len() == 0 ==> said == "not-a-git-repo"@
                &&& output.success && name.len() > 0 && name != "HEAD"@ ==> said == name
                &&& is_detached(head) <==> output.success && name == "HEAD"@
            }
            &&& is_detached(head) ==> match commit {
                Err(_) => said == "detached@unknown"@,
                Ok(output) => {
                    let sha = trimmed(lossy_utf8(output.stdout@));
                    &&& output.success && sha.len() > 0 ==> said == "detached@"@ + sha
                    &&& !output.success || sha.len() == 0 ==> said == "detached@unknown"@
                },
            }
        }),
{
    reveal_strlit("HEAD");
}

/// The pieces of a search path that are not blank, one after the other.
proof fn lemma_not_blank_is_picked(pieces: Seq<Seq<char>>, n: int)
    requires
        0 <= n <= pieces.len(),
    ensures
        not_blank(pieces, n) == picked(
            pieces.take(n),
            |piece: Seq<char>|
                if is_filled_in(piece) {
                    Some(piece)
                } else {
                    None
                },
        ),
    decreases n,
{
    let filled = |piece: Seq<char>|
        if is_filled_in(piece) {
            Some(piece)
        } else {
            None
        };
    if n > 0 {
        lemma_not_blank_is_picked(pieces, n - 1);
        lemma_picked_push(pieces, filled, n);
        law_blank_is_white_space(pieces[n - 1]);
    } else {
        lemma_picked_none(pieces, filled);
    }
}

/// The entries of a search path are all its pieces between colons that are not blank, unchanged and
/// in their order.
pub proof fn law_entries_are_between_colons(path: Seq<char>)
    ensures
        path_entries(Some(path)) == picked(
            split_on(path, CharSet::Only(':')),
            |piece: Seq<char>|
                if is_filled_in(piece) {
                    Some(piece)
                } else {
                    None
                },
        ),
        path_entries(None).len() == 0,
{
    let pieces = split_on(path, CharSet::Only(':'));
    assert(pieces.take(pieces.len() as int) =~= pieces);
    lemma_not_blank_is_picked(pieces, pieces.len() as int);
}

/// Adding entries, one after the other, that are not there yet.
proof fn lemma_completed_is_picked(entries: Seq<Seq<char>>, more: Seq<Seq<char>>, n: int)
    requires
        0 <= n <= more.len(),
        more.no_duplicates(),
    ensures
        completed(entries, more, n) == entries + picked(
            more.take(n),
            |entry: Seq<char>|
                if entries.contains(entry) {
                    None
                } else {
                    Some(entry)
                },
        ),
    decreases n,
{
    let lacking = |entry: Seq<char>|
        if entries.contains(entry) {
            None
        } else {
            Some(entry)
        };
    if n > 0 {
        lemma_completed_is_picked(entries, more, n - 1);
        lemma_picked_push(more, lacking, n);
        let before = picked(more.take(n - 1), lacking);
        let all = entries + before;
        let next = more[n - 1];
        crate::selection::lemma_picked_values(more.take(n - 1), lacking);
        if before.contains(next) {
            let shorter = more.take(n - 1);
            assert(crate::selection::gives(shorter, lacking, next));
            let k = choose|k: int|
                0 <= k < shorter.len() && lacking(#[trigger] shorter[k]) == Some(next);
            assert(more[k] == next);
            assert(false);
        }
        if entries.contains(next) {
            let k = choose|k: int| 0 <= k < entries.len() && entries[k] == next;
            assert(all[k] == next);
        }
        if all.contains(next) {
            let k = choose|k: int| 0 <= k < all.len() && all[k] == next;
            if k < entries.len() {
                assert(entries[k] == next);
            } else {
                assert(before[k - entries.len()] == next);
            }
        }
        assert(all.push(next) =~= entries + before.push(next));
    } else {
        lemma_picked_none(more, lacking);
        assert(entries + Seq::<Seq<char>>::empty() =~= entries);
    }
}

/// The search path for commands is the one that is there, followed by those of the usual entries
/// that it lacks, in their order.
pub proof fn law_search_path_is_completed(path: Option<Seq<char>>, home: Option<Seq<char>>)
    ensures
        launch_entries(path, home) == path_entries(path) + picked(
            common_entries(home),
            |entry: Seq<char>|
                if path_entries(path).contains(entry) {
                    None
                } else {
                    Some(entry)
                },
        ),
{
    let common = common_entries(home);
    law_usual_entries_are_distinct(home);
    assert(common.take(common.len() as int) =~= common);
    lemma_completed_is_picked(path_entries(path), common, common.len() as int);
}

/// The usual entries of the system have no dot in them, and no two are equally long.
proof fn lemma_system_entries()
    ensures
        forall|i: int, k: int|
            0 <= i < 8 && 0 <= k < common_entries(None)[i].len() ==> #[trigger] common_entries(
                None,
            )[i][k] != '.',
        forall|i: int, j: int|
            0 <= i < j < 8 ==> (#[trigger] common_entries(None)[i]).len() != (
            #[trigger] common_entries(None)[j]).len(),
        common_entries(None).len() == 8,
{
    reveal_strlit("/opt/homebrew/bin");
    reveal_strlit("/opt/homebrew/sbin");
    reveal_strlit("/usr/local/bin");
    reveal_strlit("/usr/local/sbin");
    reveal_strlit("/usr/bin");
    reveal_strlit("/bin");
    reveal_strlit("/usr/sbin");
    reveal_strlit("/sbin");
}

/// No usual entry is named twice.
pub proof fn law_usual_entries_are_distinct(home: Option<Seq<char>>)
    ensures
        common_entries(home).no_duplicates(),
{
    lemma_system_entries();
    let system = common_entries(None);
    let all = common_entries(home);
    assert forall|i: int, j: int| 0 <= i < j < system.len() implies #[trigger] system[i]
        != #[trigger] system[j] by {
        assert(system[i].len() != system[j].len());
    }
    if let Some(home) = home {
        reveal_strlit("/.local/bin");
        reveal_strlit("/.bun/bin");
        reveal_strlit("/.cargo/bin");
        let local = home + "/.local/bin"@;
        let bun = home + "/.bun/bin"@;
        let cargo = home + "/.cargo/bin"@;
        let n = home.len() as int;
        assert(all =~= system + seq![local, bun, cargo]);
        assert(local[n + 1] == '.' && bun[n + 1] == '.' && cargo[n + 1] == '.');
        assert(local[n + 2] == 'l' && bun[n + 2] == 'b' && cargo[n + 2] == 'c');
        assert forall|i: int| 0 <= i < 8 implies #[trigger] system[i] != local && system[i] != bun
            && system[i] != cargo by {
            if system[i] == local || system[i] == bun || system[i] == cargo {
                assert(system[i][n + 1] != '.');
            }
        }
        assert forall|i: int, j: int| 0 <= i < j < all.len() implies #[trigger] all[i]
            != #[trigger] all[j] by {
            if i < 8 {
                assert(all[i] == system[i]);
                if j < 8 {
                    assert(all[j] == system[j]);
                }
            }
        }
    }
}

/// The usual entries: those of the system, and below the home directory, where it is known, those
/// of three tools.
pub proof fn law_usual_entries(home: Seq<char>)
    ensures
        common_entries(None) == seq![
            "/opt/homebrew/bin"@,
            "/opt/homebrew/sbin"@,
            "/usr/local/bin"@,
            "/usr/local/sbin"@,
            "/usr/bin"@,
            "/bin"@,
            "/usr/sbin"@,
            "/sbin"@,
        ],
        common_entries(Some(home)) == common_entries(None) + seq![
            home + "/.local/bin"@,
            home + "/.bun/bin"@,
            home + "/.cargo/bin"@,
        ],
{
    assert(common_entries(Some(home)) =~= common_entries(None) + seq![
        home + "/.local/bin"@,
        home + "/.bun/bin"@,
        home + "/.cargo/bin"@,
    ]);
}

/// A run that stops a process asks it to end and waits up to two seconds; if it has not ended, it
/// forces it to and waits up to one second more.
pub proof fn law_actions_of_a_run(run: KillRun, action: KillAction)
    requires
        is_kill_action(run, action),
    ensures
        match action {
            KillAction::Signal { pid, signal } => {
                &&& pid == run.pid
                &&& run.phase == KillPhase::Asking ==> signal@ == "-TERM"@
                &&& run.phase == KillPhase::Forcing ==> signal@ == "-KILL"@
                &&& run.phase == KillPhase::Asking || run.phase == KillPhase::Forcing
            },
            KillAction::AwaitExit { pid, milliseconds } => {
                &&& pid == run.pid
                &&& run.phase == KillPhase::Asked ==> milliseconds == 2000
                &&& run.phase == KillPhase::Forced ==> milliseconds == 1000
                &&& run.phase == KillPhase::Asked || run.phase == KillPhase::Forced
            },
        },
{
}

/// How a run goes on: after each signal it waits; a process that ended ends it, with the signal
/// that was used; one that did not is forced to, and then the run is over in any case. What went
/// wrong breaks it off with its message.
pub proof fn law_course_of_a_run(
    run: KillRun,
    outcome: Result<bool, String>,
    progress: KillProgress,
)
    requires
        is_kill_progress(run, outcome, progress),
    ensures
        match outcome {
            Err(error) => progress matches KillProgress::Failed(message) && message@ == error@,
            Ok(happened) => match progress {
                KillProgress::Running(next) => {
                    &&& next.pid == run.pid
                    &&& next.project_id@ == run.project_id@
                    &&& run.phase == KillPhase::Asking ==> next.phase == KillPhase::Asked
                    &&& run.phase == KillPhase::Asked ==> !happened && next.phase
                        == KillPhase::Forcing
                    &&& run.phase == KillPhase::Forcing ==> next.phase == KillPhase::Forced
                    &&& run.phase != KillPhase::Forced
                },
                KillProgress::Finished(result) => {
                    &&& result.project_id@ == run.project_id@
                    &&& result.attempted_pid == Some(run.pid)
                    &&& result.blocked_reason is None
                    &&& result.terminated == happened
                    &&& run.phase == KillPhase::Asked ==> happened && result.signal_used@
                        == "SIGTERM"@
                    &&& run.phase == KillPhase::Forced ==> result.signal_used@ == "SIGKILL"@
                    &&& run.phase == KillPhase::Asked || run.phase == KillPhase::Forced
                },
                KillProgress::Failed(_) => false,
            },
        },
{
}

/// A signal counts as sent where the command succeeded, or where it failed and the process was no
/// longer alive. Otherwise the message names the signal and the process, or what kept it from being
/// known.
pub proof fn law_when_a_signal_fails(pid: i32, signal: Seq<char>, attempt: SignalAttempt)
    ensures
        match attempt {
            SignalAttempt::Accepted => signal_error(pid, signal, attempt) is None,
            SignalAttempt::NotRun(error) => signal_error(pid, signal, attempt) == Some(
                "Failed to send signal "@ + signal + " to PID "@ + signed_decimal(pid as int)
                    + ": "@ + error@,
            ),
            SignalAttempt::Rejected { alive } => match alive {
                Err(error) => signal_error(pid, signal, attempt) == Some(error@),
                Ok(alive) => {
                    &&& !alive ==> signal_error(pid, signal, attempt) is None
                    &&& alive ==> signal_error(pid, signal, attempt) == Some(
                        "Signal "@ + signal + " to PID "@ + signed_decimal(pid as int)
                            + " failed"@,
                    )
                },
            },
        },
{
}

/// A request about a project is answered where the project is kept and both inspections succeeded;
/// otherwise the first thing that is missing is told.
pub proof fn law_when_an_inspection_fails(
    projects: Seq<ProjectModel>,
    id: Seq<char>,
    pids: Result<Vec<i32>, String>,
    cwds: Result<HashMap<i32, String>, String>,
)
    ensures
        ({
            let kept = exists|i: int|
                0 <= i < projects.len() && (#[trigger] projects[i]).id == id;
            let error = inspection_error(projects, id, pids, cwds);
            &&& !kept ==> error == Some("Project not found"@)
            &&& kept && pids is Err ==> error == Some(pids->Err_0@)
            &&& kept && pids is Ok && cwds is Err ==> error == Some(cwds->Err_0@)
            &&& kept && pids is Ok && cwds is Ok ==> error is None
        }),
{
    crate::project_laws::law_project_is_found_by_identifier(projects, id);
}

/// A project on a free port is started unless its path is no directory or its command is blank. It
/// is started by its command without white space around it, and finds its port in its environment.
pub proof fn law_when_a_launch_fails(
    project: ProjectModel,
    path_exists: bool,
    plan: StartPlan,
    info: RunInfoModel,
    id: Seq<char>,
)
    ensures
        !path_exists ==> launch_error(project, path_exists) == Some(
            "Project path is missing or no longer a directory"@,
        ),
        path_exists && !is_filled_in(project.start_command) ==> launch_error(project, path_exists)
            == Some("Start command cannot be empty"@),
        path_exists && is_filled_in(project.start_command) ==> launch_error(
            project,
            path_exists,
        ) is None,
        is_start_plan(plan, info, id, project) ==> (plan matches StartPlan::Run(launch) ==> {
            &&& launch.command@ == trimmed(project.start_command)
            &&& launch.port@ == decimal(project.port as nat)
        }),
{
    law_blank_is_white_space(project.start_command);
}

/// The first warning that a scan may be incomplete, searched from a position on.
proof fn lemma_incomplete_from(warnings: Seq<String>, i: int)
    requires
        0 <= i <= warnings.len(),
    ensures
        match incomplete_from(warnings, i) {
            Some(warning) => exists|k: int|
                {
                    &&& i <= k < warnings.len()
                    &&& (#[trigger] warnings[k])@ == warning
                    &&& occurs_at(warning, 0, "Port scan may be incomplete:"@)
                    &&& forall|j: int|
                        i <= j < k ==> !occurs_at(
                            (#[trigger] warnings[j])@,
                            0,
                            "Port scan may be incomplete:"@,
                        )
                },
            None => forall|j: int|
                i <= j < warnings.len() ==> !occurs_at(
                    (#[trigger] warnings[j])@,
                    0,
                    "Port scan may be incomplete:"@,
                ),
        },
    decreases warnings.len() - i,
{
    if i < warnings.len() {
        if occurs_at(warnings[i]@, 0, "Port scan may be incomplete:"@) {
            assert(warnings[i]@ == incomplete_from(warnings, i)->0);
        } else {
            lemma_incomplete_from(warnings, i + 1);
            if let Some(warning) = incomplete_from(warnings, i + 1) {
                let k = choose|k: int|
                    {
                        &&& i + 1 <= k < warnings.len()
                        &&& (#[trigger] warnings[k])@ == warning
                        &&& occurs_at(warning, 0, "Port scan may be incomplete:"@)
                        &&& forall|j: int|
                            i + 1 <= j < k ==> !occurs_at(
                                (#[trigger] warnings[j])@,
                                0,
                                "Port scan may be incomplete:"@,
                            )
                    };
                assert(warnings[k]@ == warning);
            }
        }
    }
}

/// A snapshot is refused exactly where some warning, whichever it is, says that the scan may be
/// incomplete, and then with the first of these.
pub proof fn law_any_doubt_refuses_a_snapshot(warnings: Seq<String>)
    ensures
        incomplete_from(warnings, 0) is Some <==> exists|k: int|
            0 <= k < warnings.len() && occurs_at(
                (#[trigger] warnings[k])@,
                0,
                "Port scan may be incomplete:"@,
            ),
        forall|k: int|
            0 <= k < warnings.len() && occurs_at(
                (#[trigger] warnings[k])@,
                0,
                "Port scan may be incomplete:"@,
            ) && (forall|j: int|
                0 <= j < k ==> !occurs_at(
                    (#[trigger] warnings[j])@,
                    0,
                    "Port scan may be incomplete:"@,
                )) ==> incomplete_from(warnings, 0) == Some(warnings[k]@),
{
    lemma_incomplete_from(warnings, 0);
    if let Some(warning) = incomplete_from(warnings, 0) {
        let k = choose|k: int|
            {
                &&& 0 <= k < warnings.len()
                &&& (#[trigger] warnings[k])@ == warning
                &&& occurs_at(warning, 0, "Port scan may be incomplete:"@)
                &&& forall|j: int|
                    0 <= j < k ==> !occurs_at(
                        (#[trigger] warnings[j])@,
                        0,
                        "Port scan may be incomplete:"@,
                    )
            };
        assert(occurs_at(warnings[k]@, 0, "Port scan may be incomplete:"@));
    }
}

/// How many projects are running, one by one.
proof fn lemma_running(statuses: Seq<ProjectStatus>, n: int)
    requires
        0 <= n <= statuses.len(),
    ensures
        running_count(statuses, n) == statuses.take(n).filter(
            |status: ProjectStatus| status.is_running,
        ).len(),
    decreases n,
{
    reveal(Seq::filter);
    if n > 0 {
        lemma_running(statuses, n - 1);
        assert(statuses.take(n).drop_last() =~= statuses.take(n - 1));
    }
}

/// Every running project is counted, and no other.
pub proof fn law_running_projects_are_counted(statuses: Seq<ProjectStatus>)
    ensures
        running_count(statuses, statuses.len() as int) == statuses.filter(
            |status: ProjectStatus| status.is_running,
        ).len(),
{
    assert(statuses.take(statuses.len() as int) =~= statuses);
    lemma_running(statuses, statuses.len() as int);
}

/// The time is noted for exactly the projects that some status says are running; for all others
/// what was noted before stays.
pub proof fn law_time_is_noted_for_running_projects(
    before: Map<Seq<char>, Seq<char>>,
    after: Map<Seq<char>, Seq<char>>,
    statuses: Seq<StatusModel>,
    checked_at: Seq<char>,
    id: Seq<char>,
)
    requires
        notes_running(before, after, statuses, statuses.len() as int, checked_at),
    ensures
        (exists|i: int|
            0 <= i < statuses.len() && (#[trigger] statuses[i]).project_id == id
                && statuses[i].is_running) ==> after.contains_pair(id, checked_at),
        !(exists|i: int|
            0 <= i < statuses.len() && (#[trigger] statuses[i]).project_id == id
                && statuses[i].is_running) ==> after.contains_key(id) == before.contains_key(id) && (
        before.contains_key(id) ==> after[id] == before[id]),
{
    assert(last_seen(after, id) == last_seen(after, id));
}

/// The entries of the menu, by their identifiers. Any other does nothing.
pub proof fn law_menu_entries(id: Seq<char>)
    ensures
        action_of(id) is Show <==> id == "show"@,
        action_of(id) is Refresh <==> id == "refresh"@,
        action_of(id) is Quit <==> id == "quit"@,
        action_of(id) is Nothing <==> id != "show"@ && id != "refresh"@ && id != "quit"@,
{
    reveal_strlit("show");
    reveal_strlit("refresh");
    reveal_strlit("quit");
    assert("show"@[0] == 's' && "refresh"@[0] == 'r' && "quit"@[0] == 'q');
}

/// What becomes of a chosen folder: its path has to be absolute; a directory is kept under the path
/// that it resolves to; another stays as it is where it was kept before, and is refused otherwise.
pub proof fn law_what_becomes_of_a_folder(choice: FolderChoice, previous: Seq<Seq<char>>)
    ensures
        ({
            let outcome = folder_outcome(choice, previous);
            let directory = directory_at(choice.resolution);
            &&& !absolute(choice.folder@) ==> outcome == Err::<Seq<char>, Seq<char>>(
                "Choose an existing folder using its absolute path"@,
            )
            &&& absolute(choice.folder@) && directory is Some ==> outcome == Ok::<
                Seq<char>,
                Seq<char>,
            >(directory->0)
            &&& absolute(choice.folder@) && directory is None && previous.contains(choice.folder@)
                ==> outcome == Ok::<Seq<char>, Seq<char>>(choice.folder@)
            &&& absolute(choice.folder@) && directory is None && !previous.contains(choice.folder@)
                ==> match choice.resolution {
                PathResolution::Failed(error) => outcome == Err::<Seq<char>, Seq<char>>(
                    "Invalid path: "@ + error@,
                ),
                PathResolution::NotText => outcome == Err::<Seq<char>, Seq<char>>(
                    "Path contains invalid UTF-8"@,
                ),
                PathResolution::Resolved { .. } => outcome == Err::<Seq<char>, Seq<char>>(
                    "Discovery folder is not a directory: "@ + choice.folder@,
                ),
            }
        }),
{
}

/// Every folder that is not refused is kept, and nothing else is.
pub proof fn law_every_accepted_folder_is_kept(
    choices: Seq<FolderChoice>,
    previous: Seq<Seq<char>>,
    n: int,
    path: Seq<char>,
)
    requires
        0 <= n <= choices.len(),
    ensures
        kept_folders(choices, previous, n).contains(path) <==> exists|i: int|
            0 <= i < n && folder_outcome(#[trigger] choices[i], previous) == Ok::<
                Seq<char>,
                Seq<char>,
            >(path),
    decreases n,
{
    if n > 0 {
        law_every_accepted_folder_is_kept(choices, previous, n - 1, path);
        let before = kept_folders(choices, previous, n - 1);
        let all = kept_folders(choices, previous, n);
        if before.contains(path) {
            let k = choose|k: int| 0 <= k < before.len() && before[k] == path;
            assert(all[k] == path);
        }
        if all.contains(path) && !before.contains(path) {
            let k = choose|k: int| 0 <= k < all.len() && all[k] == path;
            if k < before.len() {
                assert(before[k] == path);
            }
            assert(folder_outcome(choices[n - 1], previous) == Ok::<Seq<char>, Seq<char>>(path));
        }
        if folder_outcome(choices[n - 1], previous) == Ok::<Seq<char>, Seq<char>>(path)
            && !before.contains(path) {
            assert(all[before.len() as int] == path);
        }
    }
}

/// Folders are kept in the order in which they were chosen: more choices only add folders at the
/// end.
pub proof fn law_more_choices_add_folders_at_the_end(
    choices: Seq<FolderChoice>,
    previous: Seq<Seq<char>>,
    n: int,
    m: int,
)
    requires
        0 <= n <= m <= choices.len(),
    ensures
        kept_folders(choices, previous, n).len() <= kept_folders(choices, previous, m).len(),
        kept_folders(choices, previous, m).take(
            kept_folders(choices, previous, n).len() as int,
        ) == kept_folders(choices, previous, n),
    decreases m - n,
{
    let less = kept_folders(choices, previous, n);
    if n == m {
        assert(less.take(less.len() as int) =~= less);
    } else {
        law_more_choices_add_folders_at_the_end(choices, previous, n, m - 1);
        let before = kept_folders(choices, previous, m - 1);
        let all = kept_folders(choices, previous, m);
        assert(all.take(less.len() as int) =~= before.take(less.len() as int));
    }
}

/// The folders are refused exactly where one of them is, with the message for the first of these.
pub proof fn law_first_refused_folder_is_told(
    choices: Seq<FolderChoice>,
    previous: Seq<Seq<char>>,
    i: int,
)
    requires
        0 <= i <= choices.len(),
    ensures
        folder_error_from(choices, previous, i) is None <==> forall|j: int|
            i <= j < choices.len() ==> folder_outcome(#[trigger] choices[j], previous) is Ok,
        forall|k: int|
            i <= k < choices.len() && folder_outcome(#[trigger] choices[k], previous) is Err && (
            forall|j: int|
                i <= j < k ==> folder_outcome(#[trigger] choices[j], previous) is Ok)
                ==> folder_error_from(choices, previous, i) == Some(
                folder_outcome(choices[k], previous)->Err_0,
            ),
    decreases choices.len() - i,
{
    if i < choices.len() {
        law_first_refused_folder_is_told(choices, previous, i + 1);
    }
}

} // verus!
