//! Which ports are found in the configuration of a build tool, and on which lines.

use vstd::prelude::*;

use crate::ports::{
    brace_balance, esbuild_ports, esbuild_scan, noted, occurrences, opens_server_block,
    port_assignment, server_port_assignment, vite_ports, vite_scan, without_line_comment,
};
use crate::text::{lines, trimmed};

verus! {

/// The code on a line: what is left of it without a comment and white space around it.
pub open spec fn code_on(file_lines: Seq<Seq<char>>, i: int) -> Seq<char> {
    trimmed(without_line_comment(file_lines[i]))
}

/// How many more braces are opened than closed in `s`.
pub open spec fn braces_in(s: Seq<char>) -> int {
    s.to_multiset().count('{') - s.to_multiset().count('}')
}

/// How many more braces are opened than closed on the lines from `start` up to the one before
/// `end`.
pub open spec fn braces_between(file_lines: Seq<Seq<char>>, start: int, end: int) -> int
    decreases end - start,
{
    if end <= start {
        0
    } else {
        braces_between(file_lines, start, end - 1) + braces_in(code_on(file_lines, end - 1))
    }
}

/// Whether a `server` block that opens on line `start` is still open when line `k` begins: at
/// the end of each line from `start` on, more of its braces have been opened than closed.
pub open spec fn open_since(file_lines: Seq<Seq<char>>, start: int, k: int) -> bool {
    &&& 0 <= start < k
    &&& opens_server_block(code_on(file_lines, start))
    &&& forall|m: int| start < m <= k ==> #[trigger] braces_between(file_lines, start, m) > 0
}

/// Whether line `k` begins inside a `server` block.
pub open spec fn inside_server_block(file_lines: Seq<Seq<char>>, k: int) -> bool {
    exists|start: int| #[trigger] open_since(file_lines, start, k)
}

/// Whether line `k` of a Vite configuration gives `port`: it assigns it to `server.port`, or to
/// `port` on a line that opens a `server` block or lies in one.
pub open spec fn vite_line_gives(file_lines: Seq<Seq<char>>, k: int, port: u16) -> bool {
    let code = code_on(file_lines, k);
    ||| server_port_assignment(code) == Some(port)
    ||| {
        &&& port_assignment(code) == Some(port)
        &&& opens_server_block(code) || inside_server_block(file_lines, k)
    }
}

/// Whether line `k` of an esbuild configuration gives `port`.
pub open spec fn esbuild_line_gives(file_lines: Seq<Seq<char>>, k: int, port: u16) -> bool {
    port_assignment(without_line_comment(file_lines[k])) == Some(port)
}

/// The occurrences of a character are counted one by one.
pub proof fn law_occurrences_are_counted(s: Seq<char>, c: char)
    ensures
        occurrences(s, c) == s.to_multiset().count(c),
    decreases s.len(),
{
    broadcast use vstd::seq_lib::group_to_multiset_ensures;

    if s.len() > 0 {
        law_occurrences_are_counted(s.drop_last(), c);
        assert(s.drop_last().push(s.last()) =~= s);
        assert(s.to_multiset() =~= s.drop_last().to_multiset().insert(s.last()));
    } else {
        assert(s.to_multiset().len() == 0);
    }
}

/// The nesting that a line adds is what it opens less what it closes.
proof fn lemma_balance(s: Seq<char>)
    ensures
        brace_balance(s) == braces_in(s),
        s.len() == 0 ==> braces_in(s) == 0,
{
    law_occurrences_are_counted(s, '{');
    law_occurrences_are_counted(s, '}');
}

/// Nothing is assigned and nothing opened where there is no code.
proof fn lemma_no_code(s: Seq<char>)
    requires
        s.len() == 0,
    ensures
        server_port_assignment(s) is None,
        port_assignment(s) is None,
        !opens_server_block(s),
{
    reveal_strlit("server.port");
    reveal_with_fuel(crate::text::occurrence_from, 2);
    crate::text::lemma_suffix_in_bounds(
        crate::text::front_stripped(s, crate::text::CharSet::WhiteSpace),
        crate::text::CharSet::WhiteSpace,
    );
    assert(trimmed(s).len() == 0);
}

/// While a block is open since some line, the reading is at least as deep as its braces.
proof fn lemma_open_since_is_deep(file_lines: Seq<Seq<char>>, start: int, k: int)
    requires
        open_since(file_lines, start, k),
    ensures
        vite_scan(file_lines, k).depth >= braces_between(file_lines, start, k) > 0,
    decreases k,
{
    let code = code_on(file_lines, k - 1);
    lemma_balance(code);
    assert(braces_between(file_lines, start, k) > 0);
    if code.len() == 0 {
        lemma_no_code(code);
    }
    if start < k - 1 {
        assert(open_since(file_lines, start, k - 1));
        lemma_open_since_is_deep(file_lines, start, k - 1);
    } else {
        assert(braces_between(file_lines, start, start) == 0);
        lemma_depth(file_lines, k - 1);
    }
}

/// The depth of a reading is never negative.
proof fn lemma_depth(file_lines: Seq<Seq<char>>, n: int)
    ensures
        vite_scan(file_lines, n).depth >= 0,
    decreases n,
{
    if n > 0 {
        lemma_depth(file_lines, n - 1);
    }
}

/// Where the reading is inside a block, one is open since the line that opened it.
proof fn lemma_deep_is_open_since(file_lines: Seq<Seq<char>>, n: int) -> (start: int)
    requires
        vite_scan(file_lines, n).depth > 0,
    ensures
        open_since(file_lines, start, n),
        vite_scan(file_lines, n).depth == braces_between(file_lines, start, n),
    decreases n,
{
    let code = code_on(file_lines, n - 1);
    lemma_balance(code);
    if vite_scan(file_lines, n - 1).depth > 0 {
        let start = lemma_deep_is_open_since(file_lines, n - 1);
        assert forall|m: int| start < m <= n implies #[trigger] braces_between(
            file_lines,
            start,
            m,
        ) > 0 by {
            if m < n {
                assert(braces_between(file_lines, start, m) > 0);
            }
        }
        start
    } else {
        lemma_depth(file_lines, n - 1);
        assert(braces_between(file_lines, n - 1, n - 1) == 0);
        assert forall|m: int| n - 1 < m <= n implies #[trigger] braces_between(
            file_lines,
            n - 1,
            m,
        ) > 0 by {
            assert(m == n);
        }
        n - 1
    }
}

/// The reading is inside a block exactly where the braces of a `server` block are still open.
proof fn lemma_inside(file_lines: Seq<Seq<char>>, n: int)
    ensures
        vite_scan(file_lines, n).depth > 0 <==> inside_server_block(file_lines, n),
{
    if vite_scan(file_lines, n).depth > 0 {
        let start = lemma_deep_is_open_since(file_lines, n);
        assert(open_since(file_lines, start, n));
    }
    if inside_server_block(file_lines, n) {
        let start = choose|start: int| #[trigger] open_since(file_lines, start, n);
        lemma_open_since_is_deep(file_lines, start, n);
    }
}

/// Whether some entry of `found` is for `port`.
pub open spec fn lists_port(found: Seq<(u16, int)>, port: u16) -> bool {
    exists|i: int| 0 <= i < found.len() && (#[trigger] found[i]).0 == port
}

/// Whether `found` holds exactly the ports that the first `n` lines give, each with the first
/// line that gives it, in the order of the lines.
pub open spec fn is_found(
    found: Seq<(u16, int)>,
    gives: spec_fn(int, u16) -> bool,
    n: int,
) -> bool {
    &&& forall|i: int|
        0 <= i < found.len() ==> {
            &&& 1 <= (#[trigger] found[i]).1 <= n
            &&& first_gives(gives, found[i].1 - 1, found[i].0)
        }
    &&& forall|k: int, p: u16|
        0 <= k < n && #[trigger] gives(k, p) ==> lists_port(found, p)
    &&& forall|i: int, j: int|
        0 <= i < j < found.len() ==> (#[trigger] found[i]).1 <= (#[trigger] found[j]).1
    &&& forall|i: int, j: int|
        0 <= i < j < found.len() ==> (#[trigger] found[i]).0 != (#[trigger] found[j]).0
}

/// Whether line `k` is the first that gives `port`.
pub open spec fn first_gives(gives: spec_fn(int, u16) -> bool, k: int, port: u16) -> bool {
    &&& gives(k, port)
    &&& forall|j: int| 0 <= j < k ==> !#[trigger] gives(j, port)
}

/// What is found of an esbuild configuration.
proof fn lemma_esbuild_found(file_lines: Seq<Seq<char>>, n: int)
    requires
        n >= 0,
    ensures
        is_found(
            esbuild_scan(file_lines, n),
            |k: int, p: u16| esbuild_line_gives(file_lines, k, p),
            n,
        ),
    decreases n,
{
    let gives = |k: int, p: u16| esbuild_line_gives(file_lines, k, p);
    if n > 0 {
        lemma_esbuild_found(file_lines, n - 1);
        let before = esbuild_scan(file_lines, n - 1);
        let port = port_assignment(without_line_comment(file_lines[n - 1]));
        lemma_noted_is_found(before, gives, port, n);
    }
}

/// Noting a port that line `n - 1` gives keeps every earlier finding.
proof fn lemma_noted_is_found(
    before: Seq<(u16, int)>,
    gives: spec_fn(int, u16) -> bool,
    port: Option<u16>,
    n: int,
)
    requires
        n > 0,
        is_found(before, gives, n - 1),
        forall|p: u16| #[trigger] gives(n - 1, p) <==> port == Some(p),
    ensures
        is_found(noted(before, port, n), gives, n),
{
    let found = noted(before, port, n);
    assert forall|k: int, p: u16| 0 <= k < n && #[trigger] gives(k, p) implies lists_port(
        found,
        p,
    ) by {
        if k < n - 1 {
            assert(lists_port(before, p));
            let i = choose|i: int| 0 <= i < before.len() && (#[trigger] before[i]).0 == p;
            assert(found[i] == before[i]);
        } else if !lists_port(before, p) {
            assert(found[before.len() as int].0 == p);
        }
    }
    assert forall|i: int| 0 <= i < found.len() implies {
        &&& 1 <= (#[trigger] found[i]).1 <= n
        &&& first_gives(gives, found[i].1 - 1, found[i].0)
    } by {
        if i < before.len() {
            assert(found[i] == before[i]);
        } else {
            let p = port->0;
            assert(gives(n - 1, p));
            assert forall|j: int| 0 <= j < n - 1 implies !#[trigger] gives(j, p) by {
                if gives(j, p) {
                    assert(lists_port(before, p));
                }
            }
        }
    }
}

/// An esbuild configuration gives each port that some line assigns, once, with the first line
/// that assigns it.
pub proof fn law_esbuild_ports_are_those_assigned(contents: Seq<char>)
    ensures
        is_found(
            esbuild_ports(contents),
            |k: int, p: u16| esbuild_line_gives(lines(contents), k, p),
            lines(contents).len() as int,
        ),
{
    lemma_esbuild_found(lines(contents), lines(contents).len() as int);
}

/// Noting at most two ports that line `n - 1` gives keeps every earlier finding.
proof fn lemma_both_noted(
    before: Seq<(u16, int)>,
    gives: spec_fn(int, u16) -> bool,
    first: Option<u16>,
    second: Option<u16>,
    n: int,
)
    requires
        n > 0,
        is_found(before, gives, n - 1),
        forall|p: u16| #[trigger] gives(n - 1, p) <==> first == Some(p) || second == Some(p),
    ensures
        is_found(noted(noted(before, first, n), second, n), gives, n),
{
    let middle = noted(before, first, n);
    let found = noted(middle, second, n);
    assert forall|k: int, p: u16| 0 <= k < n && #[trigger] gives(k, p) implies lists_port(
        found,
        p,
    ) by {
        if k < n - 1 {
            assert(lists_port(before, p));
            let i = choose|i: int| 0 <= i < before.len() && (#[trigger] before[i]).0 == p;
            assert(found[i] == before[i]);
        } else if first == Some(p) {
            if lists_port(before, p) {
                let i = choose|i: int| 0 <= i < before.len() && (#[trigger] before[i]).0 == p;
                assert(found[i] == before[i]);
            } else {
                assert(found[before.len() as int].0 == p);
            }
        } else if !lists_port(middle, p) {
            assert(found[middle.len() as int].0 == p);
        }
    }
    assert forall|i: int| 0 <= i < found.len() implies {
        &&& 1 <= (#[trigger] found[i]).1 <= n
        &&& first_gives(gives, found[i].1 - 1, found[i].0)
    } by {
        if i < before.len() {
            assert(found[i] == before[i]);
        } else {
            let p = found[i].0;
            assert(gives(n - 1, p));
            assert forall|j: int| 0 <= j < n - 1 implies !#[trigger] gives(j, p) by {
                if gives(j, p) {
                    assert(lists_port(before, p));
                    let b = choose|b: int| 0 <= b < before.len() && (#[trigger] before[b]).0 == p;
                    assert(middle[b] == before[b]);
                    assert(lists_port(middle, p));
                }
            }
        }
    }
}

/// What is found of a Vite configuration.
proof fn lemma_vite_found(file_lines: Seq<Seq<char>>, n: int)
    requires
        n >= 0,
    ensures
        is_found(
            vite_scan(file_lines, n).found,
            |k: int, p: u16| vite_line_gives(file_lines, k, p),
            n,
        ),
        server_port_comes_first(vite_scan(file_lines, n).found, file_lines),
    decreases n,
{
    let gives = |k: int, p: u16| vite_line_gives(file_lines, k, p);
    if n > 0 {
        lemma_vite_found(file_lines, n - 1);
        lemma_inside(file_lines, n - 1);
        let before = vite_scan(file_lines, n - 1).found;
        let code = code_on(file_lines, n - 1);
        let first = server_port_assignment(code);
        let second = if opens_server_block(code) || inside_server_block(file_lines, n - 1) {
            port_assignment(code)
        } else {
            None
        };
        if code.len() == 0 {
            lemma_no_code(code);
        }
        assert(vite_scan(file_lines, n).found == noted(noted(before, first, n), second, n));
        lemma_both_noted(before, gives, first, second, n);
    }
}

/// Whether, of two ports found on one line, the first is the one assigned to `server.port`.
pub open spec fn server_port_comes_first(
    found: Seq<(u16, int)>,
    file_lines: Seq<Seq<char>>,
) -> bool {
    forall|i: int, j: int|
        0 <= i < j < found.len() && (#[trigger] found[i]).1 == (#[trigger] found[j]).1
            ==> server_port_assignment(code_on(file_lines, found[i].1 - 1)) == Some(found[i].0)
}

/// A Vite configuration gives each port that some line gives, once, with the first line that
/// gives it. A line lies in a `server` block as long as, from the line that opens the block up to
/// the one before it, the lines have opened more braces than they have closed.
pub proof fn law_vite_ports_are_those_given(contents: Seq<char>)
    ensures
        is_found(
            vite_ports(contents),
            |k: int, p: u16| vite_line_gives(lines(contents), k, p),
            lines(contents).len() as int,
        ),
        server_port_comes_first(vite_ports(contents), lines(contents)),
{
    lemma_vite_found(lines(contents), lines(contents).len() as int);
}

/// A port assigned on line `k` is found where a `server` block that opens on line `start` has,
/// at the end of each line from there up to the one before `k`, more braces opened than closed.
pub proof fn law_port_in_open_server_block_is_found(
    contents: Seq<char>,
    start: int,
    k: int,
    port: u16,
)
    requires
        0 <= start < k < lines(contents).len(),
        opens_server_block(code_on(lines(contents), start)),
        forall|m: int|
            start < m <= k ==> #[trigger] braces_between(lines(contents), start, m) > 0,
        port_assignment(code_on(lines(contents), k)) == Some(port),
    ensures
        lists_port(vite_ports(contents), port),
{
    let gives = |k: int, p: u16| vite_line_gives(lines(contents), k, p);
    law_vite_ports_are_those_given(contents);
    assert(open_since(lines(contents), start, k));
    assert(gives(k, port));
}

/// A line that closes as many braces as it opens, inside a `server` block, leaves the block open.
pub proof fn law_balanced_line_keeps_the_block(file_lines: Seq<Seq<char>>, k: int)
    requires
        inside_server_block(file_lines, k),
        braces_in(code_on(file_lines, k)) == 0,
    ensures
        inside_server_block(file_lines, k + 1),
        vite_scan(file_lines, k + 1).depth == vite_scan(file_lines, k).depth > 0,
{
    lemma_inside(file_lines, k);
    lemma_balance(code_on(file_lines, k));
    lemma_inside(file_lines, k + 1);
    let start = choose|start: int| #[trigger] open_since(file_lines, start, k);
    assert(k > 0);
}

} // verus!
