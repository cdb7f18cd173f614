//! What always holds of what is read from reports of listeners.

use vstd::prelude::*;

use crate::listeners::{
    cwd_scan, endpoint_port, has_listener, listener_before, listener_scan, lists_pid, process_id,
    report_fields, reported_cwds, reported_listener, reported_listeners, sorts_listeners,
    ListenerModel,
};
use crate::numbers::{
    decimal, law_decimal_reads_back, law_port_number_reads_back, port_number, signed_decimal,
    signed_number,
};
use crate::paths::absolute;
use crate::text::{
    after_prefix, first_occurrence, front_stripped, law_split_at_separator,
    law_split_without_separator, lemma_prefix_in, lines, mentions, occurrence_up_to, occurs_at,
    split_on, trimmed, CharSet,
};

verus! {

/// Fields from `i` on as a report writes them: a zero character ends each.
pub open spec fn written_fields(fields: Seq<Seq<char>>, i: int) -> Seq<char>
    decreases fields.len() - i,
{
    if i < 0 || i >= fields.len() {
        Seq::empty()
    } else {
        fields[i] + seq!['\0'] + written_fields(fields, i + 1)
    }
}

/// Whether a field can be told from what is around it: no zero character is in it, and no line
/// feed begins it.
pub open spec fn is_plain_field(field: Seq<char>) -> bool {
    !mentions(field, CharSet::Only('\0')) && (field.len() == 0 || field[0] != '\n')
}

/// Splitting written fields gives them back, and the empty piece behind the last.
proof fn lemma_split_fields(fields: Seq<Seq<char>>, i: int)
    requires
        0 <= i <= fields.len(),
        forall|j: int| 0 <= j < fields.len() ==> is_plain_field(#[trigger] fields[j]),
    ensures
        split_on(written_fields(fields, i), CharSet::Only('\0')) == fields.skip(i).push(
            Seq::empty(),
        ),
    decreases fields.len() - i,
{
    let sep = CharSet::Only('\0');
    if i < fields.len() {
        lemma_split_fields(fields, i + 1);
        assert(is_plain_field(fields[i]));
        law_split_without_separator(fields[i], sep);
        law_split_at_separator(fields[i], '\0', written_fields(fields, i + 1), sep);
        assert(fields.skip(i).push(Seq::empty()) =~= seq![fields[i]] + fields.skip(i + 1).push(
            Seq::empty(),
        ));
    } else {
        let nothing = Seq::<char>::empty();
        assert(!mentions(nothing, sep));
        law_split_without_separator(nothing, sep);
        assert(fields.skip(i).push(nothing) =~= seq![nothing]);
    }
}

/// Fields with spaces, line feeds and any other characters but zero are read from a report as they
/// were written, as long as none begins with a line feed.
pub proof fn law_fields_read_back(fields: Seq<Seq<char>>)
    requires
        forall|j: int| 0 <= j < fields.len() ==> is_plain_field(#[trigger] fields[j]),
    ensures
        report_fields(written_fields(fields, 0)) == fields.push(Seq::empty()),
{
    lemma_split_fields(fields, 0);
    assert(fields.skip(0) =~= fields);
    let all = fields.push(Seq::empty());
    let feed = CharSet::Only('\n');
    assert forall|j: int| 0 <= j < all.len() implies front_stripped(#[trigger] all[j], feed)
        == all[j] by {
        if j < fields.len() {
            assert(is_plain_field(fields[j]));
        }
        lemma_prefix_in(all[j], feed, 0);
        assert(all[j].skip(0) =~= all[j]);
    }
    assert(report_fields(written_fields(fields, 0)) =~= all);
}

/// The port of a listener is read back from an endpoint that names it behind a colon, whatever
/// the address before it, unless an arrow makes it a connection.
pub proof fn law_endpoint_reads_back(address: Seq<char>, port: u16)
    requires
        port > 0,
        first_occurrence(address + ":"@ + decimal(port as nat), "->"@) is None,
    ensures
        endpoint_port(address + ":"@ + decimal(port as nat)) == Some(port),
{
    reveal_strlit(":");
    let digits = decimal(port as nat);
    let s = address + ":"@ + digits;
    let at = address.len() as int;
    law_decimal_reads_back(port as nat);
    assert(occurs_at(s, at, ":"@)) by {
        assert(s.subrange(at, at + 1) =~= ":"@);
    }
    assert forall|i: int| at < i <= s.len() implies !occurs_at(s, i, ":"@) by {
        if occurs_at(s, i, ":"@) {
            assert(s.subrange(i, i + 1)[0] == ':');
            assert(s[i] == digits[i - at - 1]);
            assert(CharSet::Digit.has(digits[i - at - 1]));
        }
    }
    lemma_last_occurrence(s, ":"@, at, s.len() as int);
    assert(s.skip(at + 1) =~= digits);
    law_port_number_reads_back(port);
}

/// The last occurrence of a pattern is the one after which there is none.
proof fn lemma_last_occurrence(s: Seq<char>, pattern: Seq<char>, at: int, n: int)
    requires
        0 <= at <= n,
        occurs_at(s, at, pattern),
        forall|i: int| at < i <= n ==> !occurs_at(s, i, pattern),
    ensures
        occurrence_up_to(s, pattern, n) == Some(at),
    decreases n - at,
{
    if n > at {
        lemma_last_occurrence(s, pattern, at, n - 1);
    }
}

/// What is read of a report names only real processes and ports.
proof fn lemma_listener_scan(fields: Seq<Seq<char>>, n: int)
    ensures
        listener_scan(fields, n).pid is Some ==> listener_scan(fields, n).pid->0 > 0,
        forall|i: int|
            0 <= i < listener_scan(fields, n).found.len() ==> {
                let listener = #[trigger] listener_scan(fields, n).found[i];
                listener.port > 0 && listener.pid > 0 && listener.process_name.len() > 0
            },
    decreases n,
{
    if n > 0 {
        lemma_listener_scan(fields, n - 1);
        reveal_strlit("PID ");
    }
}

/// Every listener that a report names has a positive process number, a port that can be listened
/// on and a name to show.
pub proof fn law_listeners_are_real(stdout: Seq<char>, i: int)
    requires
        0 <= i < reported_listeners(stdout).len(),
    ensures
        reported_listeners(stdout)[i].port > 0,
        reported_listeners(stdout)[i].pid > 0,
        reported_listeners(stdout)[i].process_name.len() > 0,
{
    let fields = report_fields(stdout);
    lemma_listener_scan(fields, fields.len() as int);
}

/// What is read of a report names only absolute directories of real processes.
proof fn lemma_cwd_scan(fields: Seq<Seq<char>>, n: int)
    ensures
        cwd_scan(fields, n).pid is Some ==> cwd_scan(fields, n).pid->0 > 0,
        forall|pid: i32| #[trigger]
            cwd_scan(fields, n).cwds.contains_key(pid) ==> pid > 0 && absolute(
                cwd_scan(fields, n).cwds[pid],
            ),
    decreases n,
{
    if n > 0 {
        lemma_cwd_scan(fields, n - 1);
    }
}

/// Every working directory that a report names is absolute and belongs to a positive process
/// number.
pub proof fn law_working_directories_are_absolute(stdout: Seq<char>, pid: i32)
    requires
        reported_cwds(stdout).contains_key(pid),
    ensures
        pid > 0,
        absolute(reported_cwds(stdout)[pid]),
{
    let fields = report_fields(stdout);
    lemma_cwd_scan(fields, fields.len() as int);
}

/// Whether a field starts the fields of a process, whether or not it names one.
pub open spec fn is_process_field(field: Seq<char>) -> bool {
    after_prefix(field, "p"@) is Some
}

/// Whether a field starts the fields of this process.
pub open spec fn names_process(field: Seq<char>, pid: i32) -> bool {
    match after_prefix(field, "p"@) {
        Some(value) => process_id(value) == Some(pid),
        None => false,
    }
}

/// Whether what stands at `k` belongs to the process that the field at `i` names: no other field
/// between them starts those of a process.
pub open spec fn belongs_to(fields: Seq<Seq<char>>, i: int, k: int, pid: i32) -> bool {
    &&& 0 <= i < k <= fields.len()
    &&& names_process(fields[i], pid)
    &&& forall|j: int| i < j < k ==> !is_process_field(#[trigger] fields[j])
}

/// Whether a field names a local endpoint with this port.
pub open spec fn names_endpoint(field: Seq<char>, port: u16) -> bool {
    match after_prefix(field, "n"@) {
        Some(endpoint) => endpoint_port(endpoint) == Some(port),
        None => false,
    }
}

/// Whether the field at `k` names an endpoint with this port, for the process that the field at
/// `i` names.
pub open spec fn names_listener_at(
    fields: Seq<Seq<char>>,
    i: int,
    k: int,
    pid: i32,
    port: u16,
) -> bool {
    k < fields.len() && belongs_to(fields, i, k, pid) && names_endpoint(fields[k], port)
}

/// Whether one of the first `n` fields names an endpoint with this port for this process.
pub open spec fn names_listener(fields: Seq<Seq<char>>, n: int, pid: i32, port: u16) -> bool {
    exists|i: int, k: int| k < n && #[trigger] names_listener_at(fields, i, k, pid, port)
}

/// The last name that the fields between `i` and `k` give to a process, or nothing.
pub open spec fn name_between(fields: Seq<Seq<char>>, i: int, k: int) -> Seq<char>
    decreases k - i,
{
    if k <= i + 1 {
        Seq::empty()
    } else {
        match after_prefix(fields[k - 1], "c"@) {
            Some(name) => name,
            None => name_between(fields, i, k - 1),
        }
    }
}

/// Fields of different kinds begin with different characters.
proof fn lemma_kinds_differ(field: Seq<char>)
    ensures
        after_prefix(field, "n"@) is Some ==> after_prefix(field, "p"@) is None && after_prefix(
            field,
            "c"@,
        ) is None,
        after_prefix(field, "c"@) is Some ==> after_prefix(field, "p"@) is None,
{
    reveal_strlit("p");
    reveal_strlit("c");
    reveal_strlit("n");
    if field.len() > 0 {
        let start = field.subrange(0, 1);
        assert(start[0] == field[0]);
        assert("p"@[0] == 'p' && "c"@[0] == 'c' && "n"@[0] == 'n');
    }
}

/// Going one field further, only a field that starts those of a process changes the process.
proof fn lemma_belongs_further(fields: Seq<Seq<char>>, i: int, n: int, pid: i32)
    requires
        0 < n <= fields.len(),
    ensures
        belongs_to(fields, i, n, pid) <==> if is_process_field(fields[n - 1]) {
            i == n - 1 && names_process(fields[n - 1], pid)
        } else {
            belongs_to(fields, i, n - 1, pid)
        },
{
    if is_process_field(fields[n - 1]) && i < n - 1 && belongs_to(fields, i, n, pid) {
        assert(!is_process_field(fields[n - 1]));
    }
}

/// The process that a reading of listeners has come to, and its name.
proof fn lemma_listener_process(fields: Seq<Seq<char>>, n: int, pid: i32)
    requires
        0 <= n <= fields.len(),
    ensures
        listener_scan(fields, n).pid == Some(pid) <==> exists|i: int| #[trigger]
            belongs_to(fields, i, n, pid),
        forall|i: int| #[trigger]
            belongs_to(fields, i, n, pid) ==> listener_scan(fields, n).process_name
                == name_between(fields, i, n),
    decreases n,
{
    if n > 0 {
        lemma_listener_process(fields, n - 1, pid);
        lemma_kinds_differ(fields[n - 1]);
        assert forall|i: int| #[trigger]
            belongs_to(fields, i, n, pid) implies listener_scan(fields, n).process_name
            == name_between(fields, i, n) && listener_scan(fields, n).pid == Some(pid) by {
            lemma_belongs_further(fields, i, n, pid);
            if !is_process_field(fields[n - 1]) {
                assert(belongs_to(fields, i, n - 1, pid));
            }
        }
        if listener_scan(fields, n).pid == Some(pid) {
            if is_process_field(fields[n - 1]) {
                lemma_belongs_further(fields, n - 1, n, pid);
                assert(belongs_to(fields, n - 1, n, pid));
            } else {
                let i = choose|i: int| #[trigger] belongs_to(fields, i, n - 1, pid);
                lemma_belongs_further(fields, i, n, pid);
                assert(belongs_to(fields, i, n, pid));
            }
        }
    }
}

/// What a reading of listeners has found: the listeners that the fields name.
proof fn lemma_listener_found(fields: Seq<Seq<char>>, n: int, pid: i32, port: u16)
    requires
        0 <= n <= fields.len(),
    ensures
        has_listener(listener_scan(fields, n).found, pid, port) <==> names_listener(
            fields,
            n,
            pid,
            port,
        ),
    decreases n,
{
    if n > 0 {
        lemma_listener_found(fields, n - 1, pid, port);
        lemma_listener_process(fields, n - 1, pid);
        lemma_kinds_differ(fields[n - 1]);
        let before = listener_scan(fields, n - 1);
        let after = listener_scan(fields, n);
        let named = before.pid == Some(pid) && names_endpoint(fields[n - 1], port);
        if has_listener(before.found, pid, port) {
            let x = choose|x: int|
                0 <= x < before.found.len() && (#[trigger] before.found[x]).pid == pid
                    && before.found[x].port == port;
            assert(after.found[x] == before.found[x]);
        }
        if named {
            let i = choose|i: int| #[trigger] belongs_to(fields, i, n - 1, pid);
            assert(names_listener_at(fields, i, n - 1, pid, port));
            if !has_listener(before.found, pid, port) {
                assert(after.found.last().pid == pid && after.found.last().port == port);
                assert(after.found[before.found.len() as int].pid == pid);
            }
        }
        if has_listener(after.found, pid, port) && !has_listener(before.found, pid, port) {
            let x = choose|x: int|
                0 <= x < after.found.len() && (#[trigger] after.found[x]).pid == pid
                    && after.found[x].port == port;
            if x < before.found.len() {
                assert(after.found[x] == before.found[x]);
            }
            assert(named);
        }
        if names_listener(fields, n, pid, port) && !names_listener(fields, n - 1, pid, port) {
            let (i, k) = choose|i: int, k: int|
                k < n && #[trigger] names_listener_at(fields, i, k, pid, port);
            assert(k == n - 1);
            assert(belongs_to(fields, i, n - 1, pid));
            assert(named);
        }
        if names_listener(fields, n - 1, pid, port) {
            let (i, k) = choose|i: int, k: int|
                k < n - 1 && #[trigger] names_listener_at(fields, i, k, pid, port);
            assert(names_listener_at(fields, i, k, pid, port));
        }
    }
}

/// A process and a port are reported exactly where a field names an endpoint with this port, and
/// no connection, behind a field that names this process, with no field of another process
/// between them.
pub proof fn law_listeners_are_those_named(stdout: Seq<char>, pid: i32, port: u16)
    ensures
        has_listener(reported_listeners(stdout), pid, port) <==> exists|i: int, k: int| #[trigger]
            names_listener_at(report_fields(stdout), i, k, pid, port),
{
    let fields = report_fields(stdout);
    let n = fields.len() as int;
    lemma_listener_found(fields, n, pid, port);
    if exists|i: int, k: int| #[trigger] names_listener_at(fields, i, k, pid, port) {
        let (i, k) = choose|i: int, k: int| #[trigger]
            names_listener_at(fields, i, k, pid, port);
        assert(k < n && names_listener_at(fields, i, k, pid, port));
    }
}

/// Whether the field at `k` is the first to name a listener, and gives it this form.
pub open spec fn first_names(
    fields: Seq<Seq<char>>,
    i: int,
    k: int,
    listener: ListenerModel,
) -> bool {
    &&& names_listener_at(fields, i, k, listener.pid, listener.port)
    &&& !names_listener(fields, k, listener.pid, listener.port)
    &&& listener == reported_listener(listener.port, listener.pid, name_between(fields, i, k))
}

/// Every listener found has the name that its process had where it was first named.
proof fn lemma_listener_name(fields: Seq<Seq<char>>, n: int, x: int)
    requires
        0 <= n <= fields.len(),
        0 <= x < listener_scan(fields, n).found.len(),
    ensures
        exists|i: int, k: int| #[trigger]
            first_names(fields, i, k, listener_scan(fields, n).found[x]),
    decreases n,
{
    if n > 0 {
        let before = listener_scan(fields, n - 1);
        let after = listener_scan(fields, n);
        if x < before.found.len() {
            lemma_listener_name(fields, n - 1, x);
            assert(after.found[x] == before.found[x]);
        } else {
            let listener = after.found[x];
            lemma_listener_process(fields, n - 1, listener.pid);
            lemma_listener_found(fields, n - 1, listener.pid, listener.port);
            lemma_kinds_differ(fields[n - 1]);
            let i = choose|i: int| #[trigger] belongs_to(fields, i, n - 1, listener.pid);
            assert(names_listener_at(fields, i, n - 1, listener.pid, listener.port));
            assert(first_names(fields, i, n - 1, listener));
        }
    }
}

/// A listener goes by the last name that its process was given before the field that first names
/// it, or by its number where there was none.
pub proof fn law_listener_goes_by_its_process(stdout: Seq<char>, x: int)
    requires
        0 <= x < reported_listeners(stdout).len(),
    ensures
        exists|i: int, k: int| #[trigger]
            first_names(report_fields(stdout), i, k, reported_listeners(stdout)[x]),
{
    let fields = report_fields(stdout);
    lemma_listener_name(fields, fields.len() as int, x);
}

/// The directory of a process, where one is known.
pub open spec fn known_cwd(cwds: Map<i32, Seq<char>>, pid: i32) -> Option<Seq<char>> {
    if cwds.contains_key(pid) {
        Some(cwds[pid])
    } else {
        None
    }
}

/// Whether a field names this absolute directory.
pub open spec fn names_directory(field: Seq<char>, path: Seq<char>) -> bool {
    after_prefix(field, "n"@) == Some(path) && absolute(path)
}

/// Whether the field at `k` names this directory, for the process that the field at `i` names.
pub open spec fn names_cwd_at(
    fields: Seq<Seq<char>>,
    i: int,
    k: int,
    pid: i32,
    path: Seq<char>,
) -> bool {
    k < fields.len() && belongs_to(fields, i, k, pid) && names_directory(fields[k], path)
}

/// Whether, of the first `n` fields, the one at `k` is the last to name a directory for this
/// process, and names this one.
pub open spec fn last_names_cwd(
    fields: Seq<Seq<char>>,
    n: int,
    i: int,
    k: int,
    pid: i32,
    path: Seq<char>,
) -> bool {
    &&& k < n
    &&& names_cwd_at(fields, i, k, pid, path)
    &&& forall|a: int, b: int, other: Seq<char>|
        k < b < n ==> !#[trigger] names_cwd_at(fields, a, b, pid, other)
}

/// The process that a reading of working directories has come to.
proof fn lemma_cwd_process(fields: Seq<Seq<char>>, n: int, pid: i32)
    requires
        0 <= n <= fields.len(),
    ensures
        cwd_scan(fields, n).pid == Some(pid) <==> exists|i: int| #[trigger]
            belongs_to(fields, i, n, pid),
    decreases n,
{
    if n > 0 {
        lemma_cwd_process(fields, n - 1, pid);
        lemma_kinds_differ(fields[n - 1]);
        assert forall|i: int| #[trigger] belongs_to(fields, i, n, pid) implies cwd_scan(
            fields,
            n,
        ).pid == Some(pid) by {
            lemma_belongs_further(fields, i, n, pid);
            if !is_process_field(fields[n - 1]) {
                assert(belongs_to(fields, i, n - 1, pid));
            }
        }
        if cwd_scan(fields, n).pid == Some(pid) {
            if is_process_field(fields[n - 1]) {
                lemma_belongs_further(fields, n - 1, n, pid);
                assert(belongs_to(fields, n - 1, n, pid));
            } else {
                let i = choose|i: int| #[trigger] belongs_to(fields, i, n - 1, pid);
                lemma_belongs_further(fields, i, n, pid);
                assert(belongs_to(fields, i, n, pid));
            }
        }
    }
}

/// What a reading of working directories has found: the directory that is named last.
proof fn lemma_cwd_found(fields: Seq<Seq<char>>, n: int, pid: i32)
    requires
        0 <= n <= fields.len(),
    ensures
        match known_cwd(cwd_scan(fields, n).cwds, pid) {
            Some(path) => exists|i: int, k: int| #[trigger]
                last_names_cwd(fields, n, i, k, pid, path),
            None => forall|i: int, k: int, path: Seq<char>|
                k < n ==> !#[trigger] names_cwd_at(fields, i, k, pid, path),
        },
    decreases n,
{
    if n > 0 {
        lemma_cwd_found(fields, n - 1, pid);
        lemma_cwd_process(fields, n - 1, pid);
        lemma_kinds_differ(fields[n - 1]);
        let before = cwd_scan(fields, n - 1);
        let after = cwd_scan(fields, n);
        let value = after_prefix(fields[n - 1], "n"@);
        if before.pid == Some(pid) && value is Some && absolute(value->0) {
            let i = choose|i: int| #[trigger] belongs_to(fields, i, n - 1, pid);
            assert(names_cwd_at(fields, i, n - 1, pid, value->0));
            assert(last_names_cwd(fields, n, i, n - 1, pid, value->0));
            assert(known_cwd(after.cwds, pid) == Some(value->0));
        } else {
            assert forall|i: int, path: Seq<char>| !#[trigger]
                names_cwd_at(fields, i, n - 1, pid, path) by {
                if names_cwd_at(fields, i, n - 1, pid, path) {
                    assert(belongs_to(fields, i, n - 1, pid));
                }
            }
            assert(known_cwd(after.cwds, pid) == known_cwd(before.cwds, pid));
            if let Some(path) = known_cwd(before.cwds, pid) {
                let (i, k) = choose|i: int, k: int| #[trigger]
                    last_names_cwd(fields, n - 1, i, k, pid, path);
                assert(last_names_cwd(fields, n, i, k, pid, path));
            }
        }
    }
}

/// The directory reported for a process is the last absolute one that a field names behind a field
/// of this process, with no field of another process between them. Where no field names one, none
/// is reported.
pub proof fn law_working_directory_is_the_last_named(stdout: Seq<char>, pid: i32)
    ensures
        ({
            let fields = report_fields(stdout);
            let n = fields.len() as int;
            match known_cwd(reported_cwds(stdout), pid) {
                Some(path) => exists|i: int, k: int| #[trigger]
                    last_names_cwd(fields, n, i, k, pid, path),
                None => forall|i: int, k: int, path: Seq<char>| !#[trigger]
                    names_cwd_at(fields, i, k, pid, path),
            }
        }),
{
    let fields = report_fields(stdout);
    lemma_cwd_found(fields, fields.len() as int, pid);
}

/// A field is what stands before the next zero character, without the line feeds before it.
pub proof fn law_fields_end_at_zero(feeds: Seq<char>, field: Seq<char>, rest: Seq<char>)
    requires
        crate::text_laws::all_in(feeds, CharSet::Only('\n')),
        !field.contains('\0'),
        field.len() > 0 ==> field[0] != '\n',
    ensures
        report_fields(feeds + field + seq!['\0'] + rest) == seq![field] + report_fields(rest),
        report_fields(feeds + field) == seq![field],
{
    let zero = CharSet::Only('\0');
    let feed = CharSet::Only('\n');
    let piece = feeds + field;
    assert(!crate::text::mentions(piece, zero)) by {
        assert forall|j: int| 0 <= j < piece.len() implies !zero.has(#[trigger] piece[j]) by {
            if j < feeds.len() {
                assert(feed.has(feeds[j]));
                assert(piece[j] == feeds[j]);
            } else {
                assert(piece[j] == field[j - feeds.len()]);
                assert(field.contains(field[j - feeds.len()]));
            }
        }
    }
    crate::text::law_split_without_separator(piece, zero);
    crate::text::law_split_at_separator(piece, '\0', rest, zero);
    crate::text_laws::law_strip_front_leaves_the_rest(feeds, field, feed);
    assert(report_fields(piece) =~= seq![field]);
    assert(report_fields(piece + seq!['\0'] + rest) =~= seq![field] + report_fields(rest));
}

/// An endpoint has the port that stands behind its last colon, where that is one and not zero. A
/// connection, and text without a colon, has none.
pub proof fn law_endpoint_port_is_behind_the_last_colon(address: Seq<char>, text: Seq<char>)
    requires
        !text.contains(':'),
    ensures
        ({
            let endpoint = address + seq![':'] + text;
            let is_connection = exists|i: int| #[trigger] occurs_at(endpoint, i, "->"@);
            &&& is_connection ==> endpoint_port(endpoint) is None
            &&& !is_connection ==> endpoint_port(endpoint) == match port_number(text) {
                Some(port) => if port == 0 {
                    None
                } else {
                    Some(port)
                },
                None => None,
            }
        }),
        endpoint_port(text) is None,
{
    reveal_strlit(":");
    assert(":"@ =~= seq![':']);
    let endpoint = address + ":"@ + text;
    let at = address.len() as int;
    crate::text_laws::law_first_and_last_occurrence(endpoint, "->"@);
    crate::text_laws::law_first_and_last_occurrence(endpoint, ":"@);
    crate::text_laws::law_first_and_last_occurrence(text, ":"@);
    crate::text_laws::law_occurrence(address, ":"@, text);
    assert forall|j: int| j > at implies !#[trigger] occurs_at(endpoint, j, ":"@) by {
        if occurs_at(endpoint, j, ":"@) {
            assert(endpoint.subrange(j, j + 1)[0] == ':');
            assert(text[j - at - 1] == ':');
        }
    }
    assert forall|j: int| !#[trigger] occurs_at(text, j, ":"@) by {
        if occurs_at(text, j, ":"@) {
            assert(text.subrange(j, j + 1)[0] == ':');
            assert(text[j] == ':');
        }
    }
    assert(endpoint.skip(at + 1) =~= text);
}

/// A process field names the process of its number, where it is a positive one.
pub proof fn law_process_numbers_are_positive(value: Seq<char>, pid: i32)
    ensures
        process_id(value) == Some(pid) <==> signed_number(value) == Some(pid) && pid > 0,
{
}

/// A listener has the name of its process, or is named after its number where it has none.
pub proof fn law_nameless_process_goes_by_its_number(port: u16, pid: i32, name: Seq<char>)
    ensures
        reported_listener(port, pid, name).port == port,
        reported_listener(port, pid, name).pid == pid,
        name.len() > 0 ==> reported_listener(port, pid, name).process_name == name,
        reported_listener(port, pid, Seq::empty()).process_name == "PID "@ + signed_decimal(
            pid as int,
        ),
{
}

/// Listeners are handed over by port, then by process, none twice and none left out.
pub proof fn law_listeners_are_sorted(
    sorted: Seq<ListenerModel>,
    found: Seq<ListenerModel>,
)
    requires
        sorts_listeners(sorted, found),
    ensures
        forall|i: int, j: int|
            0 <= i < j < sorted.len() ==> (#[trigger] sorted[i]).port <= (#[trigger] sorted[j]).port,
        forall|i: int, j: int|
            0 <= i < j < sorted.len() && (#[trigger] sorted[i]).port == (#[trigger] sorted[j]).port
                ==> sorted[i].pid < sorted[j].pid,
        sorted.len() == found.len(),
        forall|pid: i32, port: u16| #[trigger]
            has_listener(sorted, pid, port) <==> has_listener(found, pid, port),
        forall|x: ListenerModel| found.contains(x) ==> #[trigger] sorted.contains(x),
{
    assert forall|i: int, j: int| 0 <= i < j < sorted.len() implies (#[trigger] sorted[i]).port <= (
    #[trigger] sorted[j]).port by {
        assert(listener_before(sorted[i], sorted[j]));
    }
    assert forall|i: int, j: int|
        0 <= i < j < sorted.len() && (#[trigger] sorted[i]).port == (
        #[trigger] sorted[j]).port implies sorted[i].pid < sorted[j].pid by {
        assert(listener_before(sorted[i], sorted[j]));
    }
    assert forall|pid: i32, port: u16| #[trigger]
        has_listener(sorted, pid, port) <==> has_listener(found, pid, port) by {
        if has_listener(sorted, pid, port) {
            let i = choose|i: int|
                0 <= i < sorted.len() && (#[trigger] sorted[i]).pid == pid && sorted[i].port == port;
            assert(sorted.contains(sorted[i]));
            let k = choose|k: int| 0 <= k < found.len() && found[k] == sorted[i];
            assert(found[k].pid == pid);
        }
        if has_listener(found, pid, port) {
            let i = choose|i: int|
                0 <= i < found.len() && (#[trigger] found[i]).pid == pid && found[i].port == port;
            assert(found.contains(found[i]));
            assert(sorted.contains(found[i]));
            let k = choose|k: int| 0 <= k < sorted.len() && sorted[k] == found[i];
            assert(sorted[k].pid == pid);
        }
    }
}

/// A line of nothing but a number, with white space around it where one likes, lists the process
/// of that number, and no other line lists one.
pub proof fn law_processes_are_listed_by_lines(
    stdout: Seq<char>,
    i: int,
    lead: Seq<char>,
    tail: Seq<char>,
    pid: i32,
)
    requires
        0 <= i < lines(stdout).len(),
        lines(stdout)[i] == lead + signed_decimal(pid as int) + tail,
        crate::text_laws::all_in(lead, CharSet::WhiteSpace),
        crate::text_laws::all_in(tail, CharSet::WhiteSpace),
    ensures
        lists_pid(stdout, pid),
        forall|other: i32| #[trigger]
            lists_pid(stdout, other) ==> exists|j: int|
                0 <= j < lines(stdout).len() && signed_number(trimmed(#[trigger] lines(stdout)[j]))
                    == Some(other),
{
    let written = signed_decimal(pid as int);
    crate::numbers::law_signed_number_reads_back(pid);
    law_decimal_reads_back(
        if pid < 0 {
            (-pid) as nat
        } else {
            pid as nat
        },
    );
    let digits = decimal(
        if pid < 0 {
            (-pid) as nat
        } else {
            pid as nat
        },
    );
    assert(CharSet::Digit.has(digits[0]));
    assert(CharSet::Digit.has(digits[digits.len() - 1]));
    assert(written.last() == digits.last());
    crate::text_laws::law_strip_leaves_the_middle(lead, written, tail, CharSet::WhiteSpace);
    assert(signed_number(trimmed(lines(stdout)[i])) == Some(pid));
}

/// A process listens on a port exactly where some listener has both, and numbers ascend exactly
/// where each is smaller than all behind it.
pub proof fn law_listeners_are_found_by_process_and_port(
    v: Seq<ListenerModel>,
    pid: i32,
    port: u16,
    pids: Seq<i32>,
)
    ensures
        has_listener(v, pid, port) <==> exists|i: int|
            0 <= i < v.len() && (#[trigger] v[i]).pid == pid && v[i].port == port,
        crate::listeners::ascending(pids) <==> forall|i: int, j: int|
            0 <= i < j < pids.len() ==> #[trigger] pids[i] < #[trigger] pids[j],
{
}

} // verus!
