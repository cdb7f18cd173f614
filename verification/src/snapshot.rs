//! A snapshot of the listening processes, put together from what two `lsof` runs report.

use std::collections::{HashMap, HashSet};

use vstd::prelude::*;

use crate::commands::{lossy_utf8, output_text, CommandOutput};
use crate::listeners::{
    ascending, cwd_texts, insert_pid, listener_models, lists_pid, parse_pid_cwds, parse_pids,
    parse_tcp_listeners, reported_cwds, reported_listeners, sorts_listeners, ListenerModel,
    TcpListenerInfo,
};
use crate::numbers::{decimal, signed_decimal, write_decimal, write_signed};
use crate::text::{concat, strings};

verus! {

/// The listening processes at one moment.
pub struct ListenerSnapshot {
    /// The listeners, by port and process.
    pub listeners: Vec<TcpListenerInfo>,
    /// The working directory of each process for which one is known.
    pub cwd_by_pid: HashMap<i32, String>,
    /// What may be wrong with this snapshot.
    pub warnings: Vec<String>,
}

/// Whether a listener counts where only some ports are of interest.
pub open spec fn counts_for(listener: ListenerModel, ports: Option<Set<u16>>) -> bool {
    match ports {
        Some(ports) => ports.contains(listener.port),
        None => true,
    }
}

/// Whether a process is behind one of the listeners that count.
pub open spec fn listens(
    listeners: Seq<ListenerModel>,
    ports: Option<Set<u16>>,
    pid: i32,
) -> bool {
    exists|i: int|
        0 <= i < listeners.len() && counts_for(#[trigger] listeners[i], ports) && listeners[i].pid
            == pid
}

/// The ports in an optional set.
pub open spec fn ports_of_interest(ports: Option<&HashSet<u16>>) -> Option<Set<u16>> {
    match ports {
        Some(ports) => Some(ports@),
        None => None,
    }
}

/// Whether a run that looks for listeners failed. An exit code of 1 without a complaint is how
/// `lsof` says that there are none; what it printed is used in any case.
pub open spec fn scan_failed(output: CommandOutput) -> bool {
    !output.success && (output.code != Some(1i32) || output.complaint().len() > 0)
        && output.stdout@.len() == 0
}

/// Whether a run that looks for listeners may have missed some.
pub open spec fn scan_doubtful(output: CommandOutput) -> bool {
    output.complaint().len() > 0 || (!output.success && output.stdout@.len() > 0)
}

/// Whether a run that looks for working directories failed.
pub open spec fn cwd_scan_failed(output: CommandOutput) -> bool {
    !output.success && output.stdout@.len() == 0 && (output.complaint().len() > 0 || output.code
        != Some(1i32))
}

/// How many of the first `n` processes have no known working directory.
pub open spec fn missing_cwds(pids: Seq<i32>, cwds: Map<i32, Seq<char>>, n: int) -> nat
    decreases n,
{
    if n <= 0 {
        0
    } else {
        missing_cwds(pids, cwds, n - 1) + (if cwds.contains_key(pids[n - 1]) {
            0nat
        } else {
            1nat
        })
    }
}

/// The warnings that a run that looks for listeners gives rise to.
pub open spec fn scan_warnings(output: CommandOutput) -> Seq<Seq<char>> {
    if scan_doubtful(output) {
        seq!["Port scan may be incomplete: "@ + output.reason()]
    } else {
        Seq::empty()
    }
}

/// The working directories that are taken from an attempt to find them.
pub open spec fn found_cwds(cwds: Result<Map<i32, Seq<char>>, Seq<char>>) -> Map<i32, Seq<char>> {
    match cwds {
        Ok(cwds) => cwds,
        Err(_) => Map::empty(),
    }
}

/// The warnings that an attempt to find the working directories of `pids` gives rise to.
pub open spec fn cwd_warnings(
    pids: Seq<i32>,
    cwds: Result<Map<i32, Seq<char>>, Seq<char>>,
) -> Seq<Seq<char>> {
    let failure = match cwds {
        Ok(_) => Seq::<Seq<char>>::empty(),
        Err(error) => seq![error],
    };
    let missing = missing_cwds(pids, found_cwds(cwds), pids.len() as int);
    if pids.len() == 0 {
        Seq::empty()
    } else if missing > 0 {
        failure.push(missing_warning(missing))
    } else {
        failure
    }
}

/// The warning that some processes have no known working directory.
pub open spec fn missing_warning(missing: nat) -> Seq<char> {
    "Could not identify the working directory of "@ + decimal(missing)
        + " listening process(es). They may have exited or require additional permissions."@
}

/// An attempt to find working directories, by its contents.
pub open spec fn cwd_attempt(cwds: Result<HashMap<i32, String>, String>) -> Result<
    Map<i32, Seq<char>>,
    Seq<char>,
> {
    match cwds {
        Ok(cwds) => Ok(cwd_texts(cwds@)),
        Err(error) => Err(error@),
    }
}

/// The arguments with which `lsof` looks for listeners.
pub fn listener_scan_arguments() -> (r: Vec<String>)
    ensures
        strings(r@) == seq!["-nP"@, "-iTCP"@, "-sTCP:LISTEN"@, "-F0pcn"@],
{
    let r = vec![
        "-nP".to_owned(),
        "-iTCP".to_owned(),
        "-sTCP:LISTEN".to_owned(),
        "-F0pcn".to_owned(),
    ];
    proof {
        assert(strings(r@) =~= seq!["-nP"@, "-iTCP"@, "-sTCP:LISTEN"@, "-F0pcn"@]);
    }
    r
}

/// The arguments with which `lsof` lists the processes that listen on a port.
pub fn port_scan_arguments(port: u16) -> (r: Vec<String>)
    ensures
        strings(r@) == seq!["-nP"@, "-iTCP:"@ + decimal(port as nat), "-sTCP:LISTEN"@, "-t"@],
{
    let r = vec![
        "-nP".to_owned(),
        concat("-iTCP:", write_decimal(port as u64).as_str()),
        "-sTCP:LISTEN".to_owned(),
        "-t".to_owned(),
    ];
    proof {
        assert(strings(r@) =~= seq![
            "-nP"@,
            "-iTCP:"@ + decimal(port as nat),
            "-sTCP:LISTEN"@,
            "-t"@,
        ]);
    }
    r
}

/// The first `n` process numbers, with commas between them.
pub open spec fn pid_list(pids: Seq<i32>, n: int) -> Seq<char>
    decreases n,
{
    if n <= 0 {
        Seq::empty()
    } else if n == 1 {
        signed_decimal(pids[0] as int)
    } else {
        pid_list(pids, n - 1) + ","@ + signed_decimal(pids[n - 1] as int)
    }
}

/// The arguments with which `lsof` looks for working directories. Nothing is run for no
/// processes.
pub fn cwd_scan_arguments(pids: &[i32]) -> (r: Option<Vec<String>>)
    ensures
        match r {
            Some(arguments) => pids@.len() > 0 && strings(arguments@) == seq![
                "-a"@,
                "-p"@,
                pid_list(pids@, pids@.len() as int),
                "-d"@,
                "cwd"@,
                "-F0pn"@,
            ],
            None => pids@.len() == 0,
        },
{
    if pids.len() == 0 {
        return None;
    }
    let mut list = write_signed(pids[0]);
    let mut i: usize = 1;
    while i < pids.len()
        invariant
            1 <= i <= pids@.len(),
            list@ == pid_list(pids@, i as int),
        decreases pids.len() - i,
    {
        list = concat(concat(list.as_str(), ",").as_str(), write_signed(pids[i]).as_str());
        i += 1;
    }
    let r = vec![
        "-a".to_owned(),
        "-p".to_owned(),
        list,
        "-d".to_owned(),
        "cwd".to_owned(),
        "-F0pn".to_owned(),
    ];
    proof {
        assert(strings(r@) =~= seq![
            "-a"@,
            "-p"@,
            pid_list(pids@, pids@.len() as int),
            "-d"@,
            "cwd"@,
            "-F0pn"@,
        ]);
    }
    Some(r)
}

/// The processes behind the listeners that count, in ascending order, each once.
pub fn pids_to_inspect(listeners: &[TcpListenerInfo], ports: Option<&HashSet<u16>>) -> (r: Vec<i32>)
    ensures
        ascending(r@),
        forall|pid: i32| #[trigger]
            r@.contains(pid) <==> listens(
                listener_models(listeners@),
                ports_of_interest(ports),
                pid,
            ),
{
    let ghost models = listener_models(listeners@);
    let ghost wanted = ports_of_interest(ports);
    let mut sorted: Vec<i32> = Vec::new();
    let mut i: usize = 0;
    while i < listeners.len()
        invariant
            i <= listeners@.len(),
            models == listener_models(listeners@),
            wanted == ports_of_interest(ports),
            ascending(sorted@),
            forall|pid: i32| #[trigger]
                sorted@.contains(pid) <==> exists|j: int|
                    0 <= j < i && counts_for(#[trigger] models[j], wanted) && models[j].pid == pid,
        decreases listeners.len() - i,
    {
        let counts = match ports {
            Some(ports) => ports.contains(&listeners[i].port),
            None => true,
        };
        proof {
            assert(models[i as int] == listeners@[i as int]@);
            assert(counts == counts_for(models[i as int], wanted));
        }
        if counts {
            insert_pid(&mut sorted, listeners[i].pid);
        }
        i += 1;
    }
    sorted
}

/// Counts the processes without a known working directory.
fn count_missing_cwds(pids: &[i32], cwds: &HashMap<i32, String>) -> (r: usize)
    ensures
        r == missing_cwds(pids@, cwd_texts(cwds@), pids@.len() as int),
{
    let mut missing: usize = 0;
    let mut i: usize = 0;
    while i < pids.len()
        invariant
            i <= pids@.len(),
            missing <= i,
            missing == missing_cwds(pids@, cwd_texts(cwds@), i as int),
        decreases pids.len() - i,
    {
        proof {
            assert(cwd_texts(cwds@).contains_key(pids@[i as int]) == cwds@.contains_key(
                pids@[i as int],
            ));
        }
        if !cwds.contains_key(&pids[i]) {
            missing += 1;
        }
        i += 1;
    }
    missing
}

/// The snapshot that a run that looks for listeners, and an attempt to find the working
/// directories of the processes in `pids_to_inspect`, amount to. `ports` says which listeners'
/// processes were inspected; an error is the text of what kept a run from starting.
pub fn collect_listener_snapshot(
    scan: &Result<CommandOutput, String>,
    ports: Option<&HashSet<u16>>,
    cwds: Result<HashMap<i32, String>, String>,
) -> (r: Result<ListenerSnapshot, String>)
    ensures
        match (*scan, r) {
            (Err(error), Err(message)) => message@ == "Failed to discover listening ports: "@
                + error@,
            (Err(_), Ok(_)) => false,
            (Ok(output), Err(message)) => scan_failed(output) && message@
                == "Failed to discover listening ports: "@ + output.reason(),
            (Ok(output), Ok(snapshot)) => {
                &&& !scan_failed(output)
                &&& sorts_listeners(
                    listener_models(snapshot.listeners@),
                    reported_listeners(lossy_utf8(output.stdout@)),
                )
                &&& exists|pids: Seq<i32>|
                    {
                        &&& ascending(pids)
                        &&& forall|pid: i32| #[trigger]
                            pids.contains(pid) <==> listens(
                                listener_models(snapshot.listeners@),
                                ports_of_interest(ports),
                                pid,
                            )
                        &&& cwd_texts(snapshot.cwd_by_pid@) == (if pids.len() == 0 {
                            Map::empty()
                        } else {
                            found_cwds(cwd_attempt(cwds))
                        })
                        &&& strings(snapshot.warnings@) == scan_warnings(output)
                            + #[trigger] cwd_warnings(pids, cwd_attempt(cwds))
                    }
            },
        },
{
    let output = match scan {
        Ok(output) => output,
        Err(error) => {
            return Err(concat("Failed to discover listening ports: ", error.as_str()));
        },
    };
    let complaint = output.read_complaint();
    if !output.success && (output.code != Some(1i32) || !complaint.as_str().is_empty())
        && output.stdout.len() == 0 {
        return Err(concat("Failed to discover listening ports: ", output.read_reason().as_str()));
    }
    let listeners = parse_tcp_listeners(output_text(&output.stdout).as_str());
    let mut warnings: Vec<String> = Vec::new();
    if !complaint.as_str().is_empty() || (!output.success && output.stdout.len() > 0) {
        warnings.push(concat("Port scan may be incomplete: ", output.read_reason().as_str()));
    }
    proof {
        assert(strings(warnings@) =~= scan_warnings(*output));
    }
    let pids = pids_to_inspect(listeners.as_slice(), ports);
    let ghost attempt = cwd_attempt(cwds);
    let ghost before = strings(warnings@);
    let mut cwd_by_pid: HashMap<i32, String> = HashMap::new();
    if pids.len() > 0 {
        match cwds {
            Ok(cwds) => {
                cwd_by_pid = cwds;
            },
            Err(error) => {
                warnings.push(error);
            },
        }
        proof {
            assert(cwd_texts(cwd_by_pid@) =~= found_cwds(attempt));
        }
        let missing = count_missing_cwds(pids.as_slice(), &cwd_by_pid);
        if missing > 0 {
            warnings.push(
                concat(
                    concat(
                        "Could not identify the working directory of ",
                        write_decimal(missing as u64).as_str(),
                    ).as_str(),
                    " listening process(es). They may have exited or require additional permissions.",
                ),
            );
        }
    }
    let snapshot = ListenerSnapshot { listeners, cwd_by_pid, warnings };
    proof {
        assert(strings(snapshot.warnings@) =~= before + cwd_warnings(pids@, attempt));
        if pids@.len() == 0 {
            assert(cwd_texts(snapshot.cwd_by_pid@) =~= Map::empty());
        }
    }
    Ok(snapshot)
}

/// The working directories that a run that looks for them reports for `pids`. Nothing is run for
/// no processes. An error is the text of what kept the run from starting.
pub fn detect_pid_cwds(pids: &[i32], scan: &Result<CommandOutput, String>) -> (r: Result<
    HashMap<i32, String>,
    String,
>)
    ensures
        pids@.len() == 0 ==> cwd_attempt(r) == Ok::<Map<i32, Seq<char>>, Seq<char>>(Map::empty()),
        pids@.len() > 0 ==> cwd_attempt(r) == match *scan {
            Err(error) => Err("Failed to inspect process directories: "@ + error@),
            Ok(output) => if cwd_scan_failed(output) {
                Err("Failed to inspect process directories: "@ + output.reason())
            } else {
                Ok(reported_cwds(lossy_utf8(output.stdout@)))
            },
        },
{
    if pids.len() == 0 {
        let none: HashMap<i32, String> = HashMap::new();
        proof {
            assert(cwd_texts(none@) =~= Map::empty());
        }
        return Ok(none);
    }
    let output = match scan {
        Ok(output) => output,
        Err(error) => {
            return Err(concat("Failed to inspect process directories: ", error.as_str()));
        },
    };
    if !output.success && output.stdout.len() == 0 {
        let complaint = output.read_complaint();
        if !complaint.as_str().is_empty() || output.code != Some(1i32) {
            return Err(
                concat("Failed to inspect process directories: ", output.read_reason().as_str()),
            );
        }
    }
    Ok(parse_pid_cwds(output_text(&output.stdout).as_str()))
}

/// The directories that the first `n` of some reported directories turned out to be. One that
/// could not be resolved does not count.
pub open spec fn resolved(found: Seq<(i32, Option<Seq<char>>)>, n: int) -> Map<i32, Seq<char>>
    decreases n,
{
    if n <= 0 {
        Map::empty()
    } else {
        match found[n - 1].1 {
            Some(path) => resolved(found, n - 1).insert(found[n - 1].0, path),
            None => resolved(found, n - 1),
        }
    }
}

/// What some resolved directories say.
pub open spec fn resolutions(found: Seq<(i32, Option<String>)>) -> Seq<(i32, Option<Seq<char>>)> {
    Seq::new(
        found.len(),
        |i: int|
            (
                found[i].0,
                match found[i].1 {
                    Some(path) => Some(path@),
                    None => None,
                },
            ),
    )
}

/// Keeps the directories that could be resolved.
pub fn keep_resolved_cwds(found: &[(i32, Option<String>)]) -> (r: HashMap<i32, String>)
    ensures
        cwd_texts(r@) == resolved(resolutions(found@), found@.len() as int),
{
    let mut cwds: HashMap<i32, String> = HashMap::new();
    let mut i: usize = 0;
    proof {
        assert(cwd_texts(cwds@) =~= Map::empty());
    }
    while i < found.len()
        invariant
            i <= found@.len(),
            cwd_texts(cwds@) == resolved(resolutions(found@), i as int),
        decreases found.len() - i,
    {
        let ghost before = cwds@;
        if let Some(path) = &found[i].1 {
            cwds.insert(found[i].0, path.clone());
            proof {
                assert(cwd_texts(cwds@) =~= cwd_texts(before).insert(found@[i as int].0, path@));
            }
        }
        i += 1;
    }
    cwds
}

/// The processes that a run that lists those listening on a port reports. An error is the text of
/// what kept the run from starting.
pub fn detect_listening_pids(scan: &Result<CommandOutput, String>) -> (r: Result<Vec<i32>, String>)
    ensures
        match (*scan, r) {
            (Err(error), Err(message)) => message@ == "Failed to check port status: "@ + error@,
            (Ok(output), Ok(pids)) => {
                &&& ascending(pids@)
                &&& forall|pid: i32| #[trigger]
                    pids@.contains(pid) <==> output.stdout@.len() > 0 && lists_pid(
                        lossy_utf8(output.stdout@),
                        pid,
                    )
            },
            _ => false,
        },
{
    match scan {
        Err(error) => Err(concat("Failed to check port status: ", error.as_str())),
        Ok(output) => {
            if output.stdout.len() == 0 {
                return Ok(Vec::new());
            }
            Ok(parse_pids(output_text(&output.stdout).as_str()))
        },
    }
}

/// The first process that a run that lists those listening on a port reports.
pub fn detect_listening_pid(scan: &Result<CommandOutput, String>) -> (r: Result<
    Option<i32>,
    String,
>)
    ensures
        match (*scan, r) {
            (Err(error), Err(message)) => message@ == "Failed to check port status: "@ + error@,
            (Ok(output), Ok(Some(pid))) => {
                &&& output.stdout@.len() > 0
                &&& lists_pid(lossy_utf8(output.stdout@), pid)
                &&& forall|other: i32| #[trigger]
                    lists_pid(lossy_utf8(output.stdout@), other) ==> pid <= other
            },
            (Ok(output), Ok(None)) => forall|other: i32|
                output.stdout@.len() == 0 || !#[trigger] lists_pid(
                    lossy_utf8(output.stdout@),
                    other,
                ),
            _ => false,
        },
{
    let pids = match detect_listening_pids(scan) {
        Ok(pids) => pids,
        Err(error) => {
            return Err(error);
        },
    };
    if pids.len() == 0 {
        proof {
            assert forall|other: i32| scan->Ok_0.stdout@.len() == 0 || !#[trigger] lists_pid(
                lossy_utf8(scan->Ok_0.stdout@),
                other,
            ) by {
                assert(!pids@.contains(other));
            }
        }
        return Ok(None);
    }
    proof {
        assert(pids@.contains(pids@[0]));
        assert forall|other: i32| #[trigger]
            lists_pid(lossy_utf8(scan->Ok_0.stdout@), other) implies pids@[0] <= other by {
            assert(pids@.contains(other));
            let k = choose|k: int| 0 <= k < pids@.len() && pids@[k] == other;
            if k > 0 {
                assert(pids@[0] < pids@[k]);
            }
        }
    }
    Ok(Some(pids[0]))
}

} // verus!
