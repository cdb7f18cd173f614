//! Listening sockets as `lsof` reports them, and the directories of the processes behind them.

use std::collections::HashMap;

use vstd::prelude::*;
use vstd::slice::slice_subrange;

use crate::numbers::{
    port_number, read_port_number, read_signed_number, signed_decimal, signed_number, write_signed,
};
use crate::paths::absolute;
use crate::text::{
    after_prefix, chars_of, concat, copy_chars, find, first_occurrence, front_stripped,
    last_occurrence, lines, rfind, split, split_lines, split_on, strings, strip_front, strip_prefix,
    text_of, texts, trim, trimmed, CharSet,
};

verus! {

/// A process that listens on a TCP port.
#[derive(Debug, PartialEq, Eq)]
pub struct TcpListenerInfo {
    pub port: u16,
    pub pid: i32,
    pub process_name: String,
}

/// What a `TcpListenerInfo` says.
pub struct ListenerModel {
    pub port: u16,
    pub pid: i32,
    pub process_name: Seq<char>,
}

impl View for TcpListenerInfo {
    type V = ListenerModel;

    open spec fn view(&self) -> ListenerModel {
        ListenerModel { port: self.port, pid: self.pid, process_name: self.process_name@ }
    }
}

impl Clone for TcpListenerInfo {
    fn clone(&self) -> (r: Self)
        ensures
            r == *self,
    {
        TcpListenerInfo {
            port: self.port,
            pid: self.pid,
            process_name: self.process_name.clone(),
        }
    }
}

/// What each listener in a list says.
pub open spec fn listener_models(v: Seq<TcpListenerInfo>) -> Seq<ListenerModel> {
    Seq::new(v.len(), |i: int| v[i]@)
}

/// The order of listeners: by port, then by process.
pub open spec fn listener_before(a: ListenerModel, b: ListenerModel) -> bool {
    a.port < b.port || (a.port == b.port && a.pid < b.pid)
}

/// Whether listeners stand in their order, each process and port once.
pub open spec fn listeners_ordered(v: Seq<ListenerModel>) -> bool {
    forall|i: int, j: int| 0 <= i < j < v.len() ==> listener_before(#[trigger] v[i], #[trigger] v[j])
}

/// Whether some listener has this process and port.
pub open spec fn has_listener(v: Seq<ListenerModel>, pid: i32, port: u16) -> bool {
    exists|i: int| 0 <= i < v.len() && (#[trigger] v[i]).pid == pid && v[i].port == port
}

/// The fields of an `lsof` report. A zero character ends a field; line feeds before one belong
/// to the end of the set before it.
pub open spec fn report_fields(stdout: Seq<char>) -> Seq<Seq<char>> {
    let pieces = split_on(stdout, CharSet::Only('\0'));
    Seq::new(pieces.len(), |i: int| front_stripped(pieces[i], CharSet::Only('\n')))
}

/// The process that a process field names. Only positive numbers name one.
pub open spec fn process_id(value: Seq<char>) -> Option<i32> {
    match signed_number(value) {
        Some(pid) => if pid > 0 {
            Some(pid)
        } else {
            None
        },
        None => None,
    }
}

/// The port behind the last colon of a local endpoint. An endpoint with `->` is a connection and
/// has none; zero is no port.
pub open spec fn endpoint_port(endpoint: Seq<char>) -> Option<u16> {
    if first_occurrence(endpoint, "->"@) is Some {
        None
    } else {
        match last_occurrence(endpoint, ":"@) {
            Some(i) => match port_number(endpoint.skip(i + ":"@.len())) {
                Some(port) => if port > 0 {
                    Some(port)
                } else {
                    None
                },
                None => None,
            },
            None => None,
        }
    }
}

/// Where a reading of a report of listeners stands.
pub struct ListenerScan {
    /// The process whose fields are being read.
    pub pid: Option<i32>,
    /// Its name, where the report gave one.
    pub process_name: Seq<char>,
    /// The listeners found, in the order of the report.
    pub found: Seq<ListenerModel>,
}

/// The listener that is reported for a process and port: one without a name goes by its number.
pub open spec fn reported_listener(port: u16, pid: i32, process_name: Seq<char>) -> ListenerModel {
    ListenerModel {
        port,
        pid,
        process_name: if process_name.len() == 0 {
            "PID "@ + signed_decimal(pid as int)
        } else {
            process_name
        },
    }
}

/// How one more field moves the reading on.
pub open spec fn listener_step(scan: ListenerScan, field: Seq<char>) -> ListenerScan {
    match after_prefix(field, "p"@) {
        Some(value) => ListenerScan {
            pid: process_id(value),
            process_name: Seq::empty(),
            found: scan.found,
        },
        None => match after_prefix(field, "c"@) {
            Some(value) => ListenerScan { process_name: value, ..scan },
            None => match (after_prefix(field, "n"@), scan.pid) {
                (Some(endpoint), Some(pid)) => match endpoint_port(endpoint) {
                    Some(port) => if has_listener(scan.found, pid, port) {
                        scan
                    } else {
                        ListenerScan {
                            found: scan.found.push(
                                reported_listener(port, pid, scan.process_name),
                            ),
                            ..scan
                        }
                    },
                    None => scan,
                },
                _ => scan,
            },
        },
    }
}

/// The reading of a report of listeners after its first `n` fields.
pub open spec fn listener_scan(fields: Seq<Seq<char>>, n: int) -> ListenerScan
    decreases n,
{
    if n <= 0 {
        ListenerScan { pid: None, process_name: Seq::empty(), found: Seq::empty() }
    } else {
        listener_step(listener_scan(fields, n - 1), fields[n - 1])
    }
}

/// The listeners that a report names, in the order of the report.
pub open spec fn reported_listeners(stdout: Seq<char>) -> Seq<ListenerModel> {
    listener_scan(report_fields(stdout), report_fields(stdout).len() as int).found
}

/// Whether `sorted` holds the listeners of `found`, and no others, in their order.
pub open spec fn sorts_listeners(sorted: Seq<ListenerModel>, found: Seq<ListenerModel>) -> bool {
    &&& listeners_ordered(sorted)
    &&& sorted.len() == found.len()
    &&& forall|x: ListenerModel| #[trigger] sorted.contains(x) <==> found.contains(x)
}

/// Where a reading of a report of working directories stands.
pub struct CwdScan {
    /// The process whose fields are being read.
    pub pid: Option<i32>,
    /// The directory of each process so far.
    pub cwds: Map<i32, Seq<char>>,
}

/// How one more field moves the reading on.
pub open spec fn cwd_step(scan: CwdScan, field: Seq<char>) -> CwdScan {
    match after_prefix(field, "p"@) {
        Some(value) => CwdScan { pid: process_id(value), cwds: scan.cwds },
        None => match (after_prefix(field, "n"@), scan.pid) {
            (Some(path), Some(pid)) => if absolute(path) {
                CwdScan { cwds: scan.cwds.insert(pid, path), ..scan }
            } else {
                scan
            },
            _ => scan,
        },
    }
}

/// The reading of a report of working directories after its first `n` fields.
pub open spec fn cwd_scan(fields: Seq<Seq<char>>, n: int) -> CwdScan
    decreases n,
{
    if n <= 0 {
        CwdScan { pid: None, cwds: Map::empty() }
    } else {
        cwd_step(cwd_scan(fields, n - 1), fields[n - 1])
    }
}

/// The working directories that a report names: for each process the last absolute path.
pub open spec fn reported_cwds(stdout: Seq<char>) -> Map<i32, Seq<char>> {
    cwd_scan(report_fields(stdout), report_fields(stdout).len() as int).cwds
}

/// The contents of a map from processes to directories.
pub open spec fn cwd_texts(m: Map<i32, String>) -> Map<i32, Seq<char>> {
    m.map_values(|path: String| path@)
}

/// Whether numbers stand in ascending order, each once.
pub open spec fn ascending(v: Seq<i32>) -> bool {
    forall|i: int, j: int| 0 <= i < j < v.len() ==> #[trigger] v[i] < #[trigger] v[j]
}

/// Whether some line of a text is the number `pid`.
pub open spec fn lists_pid(stdout: Seq<char>, pid: i32) -> bool {
    exists|i: int|
        0 <= i < lines(stdout).len() && signed_number(trimmed(#[trigger] lines(stdout)[i])) == Some(
            pid,
        )
}

/// Cuts an `lsof` report into its fields.
fn cut_fields(stdout: &[char]) -> (r: Vec<Vec<char>>)
    ensures
        texts(r@) == report_fields(stdout@),
{
    let pieces = split(stdout, CharSet::Only('\0'));
    let ghost all = split_on(stdout@, CharSet::Only('\0'));
    let mut out: Vec<Vec<char>> = Vec::new();
    let mut i: usize = 0;
    proof {
        assert(texts(pieces@).len() == pieces@.len());
    }
    while i < pieces.len()
        invariant
            i <= pieces@.len(),
            texts(pieces@) == all,
            out@.len() == i,
            forall|j: int|
                0 <= j < i ==> (#[trigger] out@[j])@ == front_stripped(all[j], CharSet::Only('\n')),
        decreases pieces.len() - i,
    {
        proof {
            assert(texts(pieces@)[i as int] == pieces@[i as int]@);
        }
        out.push(copy_chars(strip_front(pieces[i].as_slice(), CharSet::Only('\n'))));
        i += 1;
    }
    proof {
        assert(all.len() == pieces@.len());
        assert(texts(out@) =~= report_fields(stdout@));
    }
    out
}

/// The fields of an `lsof` report. Zero characters between them keep names and paths with
/// spaces and line feeds whole.
pub fn lsof_fields(stdout: &str) -> (r: Vec<String>)
    ensures
        strings(r@) == report_fields(stdout@),
{
    let chars = chars_of(stdout);
    let fields = cut_fields(chars.as_slice());
    let ghost all = report_fields(stdout@);
    let mut out: Vec<String> = Vec::new();
    let mut i: usize = 0;
    proof {
        assert(texts(fields@).len() == fields@.len());
    }
    while i < fields.len()
        invariant
            i <= fields@.len(),
            texts(fields@) == all,
            out@.len() == i,
            forall|j: int| 0 <= j < i ==> (#[trigger] out@[j])@ == all[j],
        decreases fields.len() - i,
    {
        proof {
            assert(texts(fields@)[i as int] == fields@[i as int]@);
        }
        out.push(text_of(fields[i].as_slice()));
        i += 1;
    }
    proof {
        assert(all.len() == fields@.len());
        assert(strings(out@) =~= all);
    }
    out
}

/// Reads the process that a process field names.
fn read_process_id(value: &[char]) -> (r: Option<i32>)
    ensures
        r == process_id(value@),
{
    match read_signed_number(value) {
        Some(pid) => if pid > 0 {
            Some(pid)
        } else {
            None
        },
        None => None,
    }
}

/// Reads the port of a local endpoint.
fn read_endpoint_port(endpoint: &[char]) -> (r: Option<u16>)
    ensures
        r == endpoint_port(endpoint@),
{
    if find(endpoint, "->").is_some() {
        return None;
    }
    match rfind(endpoint, ":") {
        Some(i) => {
            let n = chars_of(":").len();
            let end: usize = endpoint.len();
            match read_port_number(slice_subrange(endpoint, i + n, end)) {
                Some(port) => if port > 0 {
                    Some(port)
                } else {
                    None
                },
                None => None,
            }
        },
        None => None,
    }
}

/// Puts a listener where it belongs in an ordered list, unless its process and port are there.
fn insert_listener(sorted: &mut Vec<TcpListenerInfo>, new: TcpListenerInfo, Ghost(found): Ghost<
    Seq<ListenerModel>,
>)
    requires
        sorts_listeners(listener_models(old(sorted)@), found),
    ensures
        sorts_listeners(
            listener_models(final(sorted)@),
            if has_listener(found, new.pid, new.port) {
                found
            } else {
                found.push(new@)
            },
        ),
{
    let ghost before = listener_models(sorted@);
    let mut at: usize = 0;
    while at < sorted.len() && (sorted[at].port < new.port || (sorted[at].port == new.port
        && sorted[at].pid < new.pid))
        invariant
            at <= sorted@.len(),
            sorted@ == old(sorted)@,
            before == listener_models(sorted@),
            forall|j: int| 0 <= j < at ==> listener_before(#[trigger] before[j], new@),
        decreases sorted.len() - at,
    {
        proof {
            assert(before[at as int] == sorted@[at as int]@);
        }
        at += 1;
    }
    if at < sorted.len() && sorted[at].port == new.port && sorted[at].pid == new.pid {
        proof {
            let same = before[at as int];
            assert(same == sorted@[at as int]@);
            assert(before.contains(same));
            assert(found.contains(same));
            let k = choose|k: int| 0 <= k < found.len() && found[k] == same;
            assert(found[k].pid == new.pid && found[k].port == new.port);
        }
        return;
    }
    proof {
        if has_listener(found, new.pid, new.port) {
            let k = choose|k: int|
                0 <= k < found.len() && (#[trigger] found[k]).pid == new.pid && found[k].port
                    == new.port;
            assert(found.contains(found[k]));
            assert(before.contains(found[k]));
            let m = choose|m: int| 0 <= m < before.len() && before[m] == found[k];
            if m >= at {
                if m > at {
                    assert(listener_before(before[at as int], before[m]));
                }
                assert(before[at as int] == sorted@[at as int]@);
            }
            assert(false);
        }
    }
    let ghost added = new@;
    sorted.insert(at, new);
    proof {
        let after = listener_models(sorted@);
        assert(after =~= before.insert(at as int, added));
        assert forall|i: int, j: int| 0 <= i < j < after.len() implies listener_before(
            #[trigger] after[i],
            #[trigger] after[j],
        ) by {
            if at < before.len() {
                let next = before[at as int];
                assert(next == old(sorted)@[at as int]@);
                assert(listener_before(added, next));
                if i == at && j > at + 1 {
                    assert(listener_before(next, before[j - 1]));
                }
            }
            if i < at && j > at {
                assert(listener_before(before[i], before[j - 1]));
            } else if i < at && j < at {
                assert(listener_before(before[i], before[j]));
            } else if i > at {
                assert(listener_before(before[i - 1], before[j - 1]));
            }
        }
        let grown = found.push(added);
        assert forall|x: ListenerModel| #[trigger] after.contains(x) <==> grown.contains(x) by {
            if after.contains(x) {
                let i = choose|i: int| 0 <= i < after.len() && after[i] == x;
                if i == at {
                    assert(grown[grown.len() - 1] == x);
                } else {
                    let old_i = if i < at {
                        i
                    } else {
                        i - 1
                    };
                    assert(before[old_i] == x);
                    assert(before.contains(x));
                    let k = choose|k: int| 0 <= k < found.len() && found[k] == x;
                    assert(grown[k] == x);
                }
            }
            if grown.contains(x) {
                let k = choose|k: int| 0 <= k < grown.len() && grown[k] == x;
                if k == found.len() {
                    assert(after[at as int] == x);
                } else {
                    assert(found[k] == x);
                    assert(found.contains(x));
                    assert(before.contains(x));
                    let m = choose|m: int| 0 <= m < before.len() && before[m] == x;
                    if m < at {
                        assert(after[m] == x);
                    } else {
                        assert(after[m + 1] == x);
                    }
                }
            }
        }
    }
}

/// The listeners that an `lsof` report names, by port and process, each process and port once.
pub fn parse_tcp_listeners(stdout: &str) -> (r: Vec<TcpListenerInfo>)
    ensures
        sorts_listeners(listener_models(r@), reported_listeners(stdout@)),
{
    let chars = chars_of(stdout);
    let fields = cut_fields(chars.as_slice());
    let ghost all = report_fields(stdout@);
    let mut sorted: Vec<TcpListenerInfo> = Vec::new();
    let mut pid: Option<i32> = None;
    let mut process_name = String::new();
    let mut i: usize = 0;
    proof {
        assert(texts(fields@).len() == fields@.len());
        assert(listener_models(sorted@) =~= Seq::empty());
    }
    while i < fields.len()
        invariant
            i <= fields@.len(),
            texts(fields@) == all,
            pid == listener_scan(all, i as int).pid,
            process_name@ == listener_scan(all, i as int).process_name,
            sorts_listeners(listener_models(sorted@), listener_scan(all, i as int).found),
        decreases fields.len() - i,
    {
        let ghost scan = listener_scan(all, i as int);
        let field = fields[i].as_slice();
        proof {
            assert(texts(fields@)[i as int] == field@);
        }
        i += 1;
        if let Some(value) = strip_prefix(field, "p") {
            pid = read_process_id(value);
            process_name = String::new();
        } else if let Some(value) = strip_prefix(field, "c") {
            process_name = text_of(value);
        } else if let Some(endpoint) = strip_prefix(field, "n") {
            if let Some(pid) = pid {
                if let Some(port) = read_endpoint_port(endpoint) {
                    let name = if process_name.as_str().is_empty() {
                        concat("PID ", write_signed(pid).as_str())
                    } else {
                        process_name.clone()
                    };
                    let new = TcpListenerInfo { port, pid, process_name: name };
                    proof {
                        assert(new@ == reported_listener(port, pid, scan.process_name));
                    }
                    insert_listener(&mut sorted, new, Ghost(scan.found));
                }
            }
        }
    }
    sorted
}

/// The working directories that an `lsof` report names. Relative paths do not count.
pub fn parse_pid_cwds(stdout: &str) -> (r: HashMap<i32, String>)
    ensures
        cwd_texts(r@) == reported_cwds(stdout@),
{
    let chars = chars_of(stdout);
    let fields = cut_fields(chars.as_slice());
    let ghost all = report_fields(stdout@);
    let mut cwds: HashMap<i32, String> = HashMap::new();
    let mut pid: Option<i32> = None;
    let mut i: usize = 0;
    proof {
        assert(texts(fields@).len() == fields@.len());
        assert(cwd_texts(cwds@) =~= Map::empty());
    }
    while i < fields.len()
        invariant
            i <= fields@.len(),
            texts(fields@) == all,
            pid == cwd_scan(all, i as int).pid,
            cwd_texts(cwds@) == cwd_scan(all, i as int).cwds,
        decreases fields.len() - i,
    {
        let field = fields[i].as_slice();
        proof {
            assert(texts(fields@)[i as int] == field@);
        }
        i += 1;
        if let Some(value) = strip_prefix(field, "p") {
            pid = read_process_id(value);
        } else if let Some(path) = strip_prefix(field, "n") {
            if let Some(pid) = pid {
                if path.len() > 0 && path[0] == '/' {
                    let ghost before = cwds@;
                    let text = text_of(path);
                    cwds.insert(pid, text);
                    proof {
                        assert(cwd_texts(cwds@) =~= cwd_texts(before).insert(pid, path@));
                    }
                }
            }
        }
    }
    cwds
}

/// Puts a number where it belongs in an ascending list, unless it is there.
pub(crate) fn insert_pid(sorted: &mut Vec<i32>, pid: i32)
    requires
        ascending(old(sorted)@),
    ensures
        ascending(final(sorted)@),
        forall|x: i32| #[trigger]
            final(sorted)@.contains(x) <==> old(sorted)@.contains(x) || x == pid,
{
    let ghost before = sorted@;
    let mut at: usize = 0;
    while at < sorted.len() && sorted[at] < pid
        invariant
            at <= sorted@.len(),
            sorted@ == before,
            forall|j: int| 0 <= j < at ==> #[trigger] before[j] < pid,
        decreases sorted.len() - at,
    {
        at += 1;
    }
    if at < sorted.len() && sorted[at] == pid {
        proof {
            assert(before[at as int] == pid);
        }
        return;
    }
    sorted.insert(at, pid);
    proof {
        let after = sorted@;
        assert(after =~= before.insert(at as int, pid));
        assert forall|x: i32| #[trigger] after.contains(x) <==> before.contains(x) || x == pid by {
            if after.contains(x) && x != pid {
                let i = choose|i: int| 0 <= i < after.len() && after[i] == x;
                if i < at {
                    assert(before[i] == x);
                } else {
                    assert(before[i - 1] == x);
                }
            }
            if before.contains(x) {
                let i = choose|i: int| 0 <= i < before.len() && before[i] == x;
                if i < at {
                    assert(after[i] == x);
                } else {
                    assert(after[i + 1] == x);
                }
            }
            if x == pid {
                assert(after[at as int] == x);
            }
        }
    }
}

/// The numbers that the lines of a text are, in ascending order, each once. Other lines do not
/// count.
pub fn parse_pids(stdout: &str) -> (r: Vec<i32>)
    ensures
        ascending(r@),
        forall|pid: i32| #[trigger] r@.contains(pid) <==> lists_pid(stdout@, pid),
{
    let chars = chars_of(stdout);
    let all = split_lines(chars.as_slice());
    let mut sorted: Vec<i32> = Vec::new();
    let mut i: usize = 0;
    proof {
        assert(texts(all@).len() == all@.len());
    }
    while i < all.len()
        invariant
            i <= all@.len(),
            texts(all@) == lines(stdout@),
            ascending(sorted@),
            forall|pid: i32| #[trigger]
                sorted@.contains(pid) <==> exists|j: int|
                    0 <= j < i && signed_number(trimmed(#[trigger] lines(stdout@)[j])) == Some(pid),
        decreases all.len() - i,
    {
        let line = trim(all[i].as_slice());
        proof {
            assert(lines(stdout@)[i as int] == all@[i as int]@);
        }
        if let Some(pid) = read_signed_number(line) {
            insert_pid(&mut sorted, pid);
            proof {
                assert(signed_number(trimmed(lines(stdout@)[i as int])) == Some(pid));
            }
        }
        i += 1;
    }
    sorted
}

} // verus!
