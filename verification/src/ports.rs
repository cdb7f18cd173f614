//! Port numbers in configuration text: environment files, package scripts, compose files and
//! the configuration of build tools.

use vstd::prelude::*;
use vstd::slice::slice_subrange;

use crate::numbers::{digits_within, port_number, read_port_number};
use crate::text::{
    after_prefix, any_in, before_char, chars_of, count_prefix_in, find, first_occurrence,
    front_stripped, last_occurrence, lines, mentions, occurs_at, prefix_in, rfind, spells, split,
    split_lines, split_on, split_words, stands_at, strip, strip_front, strip_prefix, stripped,
    take_before, text_of, texts, trim, trim_front, trimmed, trimmed_front, words, CharSet,
};

verus! {

/// The port that a written value gives: the digits at its start, once white space, opening
/// brackets and quotes around it are gone. Zero is no port.
pub open spec fn port_value(s: Seq<char>) -> Option<u16> {
    let value = stripped(front_stripped(trimmed(s), CharSet::Opening), CharSet::Quote);
    let digits = value.take(prefix_in(value, CharSet::Digit) as int);
    match digits_within(digits, u16::MAX as nat) {
        Some(n) => if n > 0 {
            Some(n as u16)
        } else {
            None
        },
        None => None,
    }
}

/// The port after the last occurrence of `separator`.
pub open spec fn port_after_last(s: Seq<char>, separator: Seq<char>) -> Option<u16> {
    match last_occurrence(s, separator) {
        Some(i) => port_value(s.skip(i + separator.len())),
        None => None,
    }
}

/// The port that an expression gives: its own value, or the fallback behind its last `||`, or
/// else the one behind its last `??`.
pub open spec fn port_expression(s: Seq<char>) -> Option<u16> {
    if port_value(s) is Some {
        port_value(s)
    } else if port_after_last(s, "||"@) is Some {
        port_after_last(s, "||"@)
    } else {
        port_after_last(s, "??"@)
    }
}

/// Whether text goes on with a colon or an equals sign.
pub open spec fn assigns(s: Seq<char>) -> bool {
    s.len() > 0 && (s[0] == ':' || s[0] == '=')
}

/// Whether `word` stands in `s` at `i` and is not part of a longer identifier.
pub open spec fn whole_word_at(s: Seq<char>, i: int, word: Seq<char>) -> bool {
    &&& occurs_at(s, i, word)
    &&& i == 0 || !CharSet::Identifier.has(s[i - 1])
    &&& i + word.len() == s.len() || !CharSet::Identifier.has(s[i + word.len() as int])
}

/// What follows the word at `i`, without white space at its start.
pub open spec fn after_word(s: Seq<char>, i: int, word: Seq<char>) -> Seq<char> {
    trimmed_front(s.skip(i + word.len()))
}

/// The port assigned to the word `port` at position `i`.
pub open spec fn assignment_at(s: Seq<char>, i: int) -> Option<u16> {
    if whole_word_at(s, i, "port"@) && assigns(after_word(s, i, "port"@)) {
        port_expression(trimmed_front(after_word(s, i, "port"@).skip(1)))
    } else {
        None
    }
}

/// The first port assigned to the word `port` from position `i` on.
pub open spec fn assignment_from(s: Seq<char>, i: int) -> Option<u16>
    decreases s.len() - i,
{
    if i < 0 || i >= s.len() {
        None
    } else if assignment_at(s, i) is Some {
        assignment_at(s, i)
    } else {
        assignment_from(s, i + 1)
    }
}

/// The first port assigned to the word `port` on a line.
pub open spec fn port_assignment(line: Seq<char>) -> Option<u16> {
    assignment_from(trimmed(line), 0)
}

/// The port assigned to the first `server.port` on a line.
pub open spec fn server_port_assignment(line: Seq<char>) -> Option<u16> {
    match first_occurrence(line, "server.port"@) {
        Some(i) => {
            let after = after_word(line, i, "server.port"@);
            if assigns(after) {
                port_expression(trimmed_front(after.skip(1)))
            } else {
                None
            }
        },
        None => None,
    }
}

/// Whether a `server` block opens on a line.
pub open spec fn opens_server_block(line: Seq<char>) -> bool {
    exists|i: int| #[trigger] opens_server_block_at(line, i)
}

/// Whether a `server` block opens with the word at position `i`.
pub open spec fn opens_server_block_at(line: Seq<char>, i: int) -> bool {
    &&& 0 <= i < line.len()
    &&& whole_word_at(line, i, "server"@)
    &&& assigns(after_word(line, i, "server"@))
    &&& mentions(after_word(line, i, "server"@), CharSet::Only('{'))
}

/// How many times `c` stands in `s`.
pub open spec fn occurrences(s: Seq<char>, c: char) -> nat
    decreases s.len(),
{
    if s.len() == 0 {
        0
    } else if s.last() == c {
        occurrences(s.drop_last(), c) + 1
    } else {
        occurrences(s.drop_last(), c)
    }
}

/// By how much a line deepens the nesting of braces.
pub open spec fn brace_balance(line: Seq<char>) -> int {
    occurrences(line, '{') - occurrences(line, '}')
}

/// A line without the comment that `//` starts.
pub open spec fn without_line_comment(line: Seq<char>) -> Seq<char> {
    match first_occurrence(line, "//"@) {
        Some(i) => line.take(i),
        None => line,
    }
}

/// The port that a line of an environment file sets.
pub open spec fn env_line_port(line: Seq<char>) -> Option<u16> {
    let body = trimmed(line);
    if body.len() == 0 || body[0] == '#' {
        None
    } else {
        let setting = trimmed_front(
            match after_prefix(body, "export "@) {
                Some(rest) => rest,
                None => body,
            },
        );
        match after_prefix(setting, "PORT"@) {
            Some(rest) => {
                let rest = trimmed_front(rest);
                if rest.len() > 0 && rest[0] == '=' {
                    port_value(rest.skip(1))
                } else {
                    None
                }
            },
            None => None,
        }
    }
}

/// A sequence with the later of equal items left out.
pub open spec fn first_seen(s: Seq<u16>) -> Seq<u16>
    decreases s.len(),
{
    if s.len() == 0 {
        s
    } else {
        with_unique(first_seen(s.drop_last()), s.last())
    }
}

/// `ports` with `port` at its end, unless it holds it already.
pub open spec fn with_unique(ports: Seq<u16>, port: u16) -> Seq<u16> {
    if ports.contains(port) {
        ports
    } else {
        ports.push(port)
    }
}

/// At most one port, as a sequence.
pub open spec fn as_seq(port: Option<u16>) -> Seq<u16> {
    match port {
        Some(p) => seq![p],
        None => Seq::empty(),
    }
}

/// The port behind `prefix` where a token begins with it.
pub open spec fn port_behind(token: Seq<char>, prefix: Seq<char>) -> Option<u16> {
    match after_prefix(token, prefix) {
        Some(value) => port_value(value),
        None => None,
    }
}

/// The ports that the script token at `i` gives, in the order in which they are looked for.
pub open spec fn script_token_ports(tokens: Seq<Seq<char>>, i: int) -> Seq<u16> {
    let token = stripped(tokens[i], CharSet::Punctuation);
    let flag = if (token == "--port"@ || token == "-p"@) && i + 1 < tokens.len() {
        port_value(stripped(tokens[i + 1], CharSet::Punctuation))
    } else {
        None
    };
    as_seq(port_behind(token, "PORT="@)) + as_seq(port_behind(token, "--port="@)) + as_seq(flag)
}

/// The ports that the first `n` script tokens give.
pub open spec fn script_mentions(tokens: Seq<Seq<char>>, n: int) -> Seq<u16>
    decreases n,
{
    if n <= 0 {
        Seq::empty()
    } else {
        script_mentions(tokens, n - 1) + script_token_ports(tokens, n - 1)
    }
}

/// The ports that a package script names, each once.
pub open spec fn script_ports(script: Seq<char>) -> Seq<u16> {
    first_seen(script_mentions(words(script), words(script).len() as int))
}

/// The host's port in a port mapping: the part before the last colon, where it follows another
/// one or begins the mapping. A protocol behind a slash does not count.
pub open spec fn mapping_host_port(token: Seq<char>) -> Option<u16> {
    let parts = split_on(before_char(token, '/'), CharSet::Only(':'));
    if !mentions(token, CharSet::Only(':')) || parts.len() < 2 {
        None
    } else {
        port_value(parts[parts.len() - 2])
    }
}

/// A word of a compose file, without punctuation around it and without dashes before it.
pub open spec fn compose_token(word: Seq<char>) -> Seq<char> {
    trimmed(front_stripped(stripped(word, CharSet::Punctuation), CharSet::Only('-')))
}

/// The ports that the first `n` words of a compose file's line map.
pub open spec fn compose_mentions(line_words: Seq<Seq<char>>, n: int) -> Seq<u16>
    decreases n,
{
    if n <= 0 {
        Seq::empty()
    } else {
        compose_mentions(line_words, n - 1) + as_seq(
            mapping_host_port(compose_token(line_words[n - 1])),
        )
    }
}

/// The host ports that a line of a compose file maps, each once. A `#` starts a comment.
pub open spec fn compose_line_ports(line: Seq<char>) -> Seq<u16> {
    let line_words = words(trimmed(before_char(line, '#')));
    first_seen(compose_mentions(line_words, line_words.len() as int))
}

/// Whether `found` has an entry for `port`.
pub open spec fn has_port(found: Seq<(u16, int)>, port: u16) -> bool {
    exists|i: int| 0 <= i < found.len() && (#[trigger] found[i]).0 == port
}

/// `found` with `port` at `line` at its end, if there is one that it does not hold already.
pub open spec fn noted(found: Seq<(u16, int)>, port: Option<u16>, line: int) -> Seq<(u16, int)> {
    match port {
        Some(p) => if has_port(found, p) {
            found
        } else {
            found.push((p, line))
        },
        None => found,
    }
}

/// The ports that the first `n` lines of an esbuild configuration assign, with their lines.
pub open spec fn esbuild_scan(file_lines: Seq<Seq<char>>, n: int) -> Seq<(u16, int)>
    decreases n,
{
    if n <= 0 {
        Seq::empty()
    } else {
        noted(
            esbuild_scan(file_lines, n - 1),
            port_assignment(without_line_comment(file_lines[n - 1])),
            n,
        )
    }
}

/// The ports that an esbuild configuration assigns, with the line of each.
pub open spec fn esbuild_ports(contents: Seq<char>) -> Seq<(u16, int)> {
    esbuild_scan(lines(contents), lines(contents).len() as int)
}

/// Where a reading of a Vite configuration stands.
pub struct ViteScan {
    /// The ports found, with the line of each.
    pub found: Seq<(u16, int)>,
    /// How many braces of a `server` block are open; zero outside such a block.
    pub depth: int,
}

/// A nesting depth, where a block that closes more braces than it opened is over.
pub open spec fn remaining_depth(depth: int) -> int {
    if depth <= 0 {
        0
    } else {
        depth
    }
}

/// How one more line, of number `number`, moves the reading on.
pub open spec fn vite_step(scan: ViteScan, raw: Seq<char>, number: int) -> ViteScan {
    let line = trimmed(without_line_comment(raw));
    if line.len() == 0 {
        scan
    } else {
        let found = noted(scan.found, server_port_assignment(line), number);
        if scan.depth > 0 {
            ViteScan {
                found: noted(found, port_assignment(line), number),
                depth: remaining_depth(scan.depth + brace_balance(line)),
            }
        } else if opens_server_block(line) {
            ViteScan {
                found: noted(found, port_assignment(line), number),
                depth: remaining_depth(brace_balance(line)),
            }
        } else {
            ViteScan { found, depth: 0 }
        }
    }
}

/// The reading of a Vite configuration after its first `n` lines.
pub open spec fn vite_scan(file_lines: Seq<Seq<char>>, n: int) -> ViteScan
    decreases n,
{
    if n <= 0 {
        ViteScan { found: Seq::empty(), depth: 0 }
    } else {
        vite_step(vite_scan(file_lines, n - 1), file_lines[n - 1], n)
    }
}

/// The ports that a Vite configuration assigns, with the line of each.
pub open spec fn vite_ports(contents: Seq<char>) -> Seq<(u16, int)> {
    vite_scan(lines(contents), lines(contents).len() as int).found
}

/// Ports with their lines, the lines as numbers.
pub open spec fn placed(v: Seq<(u16, usize)>) -> Seq<(u16, int)> {
    Seq::new(v.len(), |i: int| (v[i].0, v[i].1 as int))
}

/// Reads the port that a written value gives.
pub fn read_port_value(value: &[char]) -> (r: Option<u16>)
    ensures
        r == port_value(value@),
{
    let value = strip(strip_front(trim(value), CharSet::Opening), CharSet::Quote);
    let n = count_prefix_in(value, CharSet::Digit);
    let digits = slice_subrange(value, 0, n);
    proof {
        crate::text::lemma_prefix_in_bounds(value@, CharSet::Digit);
        if n > 0 {
            assert(CharSet::Digit.has(value@[0]));
            assert(digits@[0] == value@[0]);
        }
        assert(port_number(digits@) == match digits_within(digits@, u16::MAX as nat) {
            Some(n) => Some(n as u16),
            None => None,
        });
    }
    match read_port_number(digits) {
        Some(port) => if port > 0 {
            Some(port)
        } else {
            None
        },
        None => None,
    }
}

/// The port that a written value gives.
pub fn parse_port_value(value: &str) -> (r: Option<u16>)
    ensures
        r == port_value(value@),
{
    read_port_value(chars_of(value).as_slice())
}

/// Reads the port after the last occurrence of `separator`.
fn read_port_after_last(value: &[char], separator: &str) -> (r: Option<u16>)
    ensures
        r == port_after_last(value@, separator@),
{
    match rfind(value, separator) {
        Some(i) => {
            let n = chars_of(separator).len();
            let end: usize = value.len();
            read_port_value(slice_subrange(value, i + n, end))
        },
        None => None,
    }
}

/// Reads the port that an expression gives.
pub fn read_port_expression(value: &[char]) -> (r: Option<u16>)
    ensures
        r == port_expression(value@),
{
    match read_port_value(value) {
        Some(port) => Some(port),
        None => match read_port_after_last(value, "||") {
            Some(port) => Some(port),
            None => read_port_after_last(value, "??"),
        },
    }
}

/// The port that an expression gives: a value, or one with a fallback behind `||` or `??`.
pub fn parse_port_expression(value: &str) -> (r: Option<u16>)
    ensures
        r == port_expression(value@),
{
    read_port_expression(chars_of(value).as_slice())
}

/// Whether a character can be part of an identifier.
pub fn is_identifier_char(character: char) -> (r: bool)
    ensures
        r == CharSet::Identifier.has(character),
{
    CharSet::Identifier.contains(character)
}

/// Tests whether text goes on with a colon or an equals sign.
fn is_assignment(s: &[char]) -> (r: bool)
    ensures
        r == assigns(s@),
{
    s.len() > 0 && (s[0] == ':' || s[0] == '=')
}

/// Tests whether `word` stands at `i` and is not part of a longer identifier.
fn is_whole_word(s: &[char], i: usize, word: &[char]) -> (r: bool)
    ensures
        r == whole_word_at(s@, i as int, word@),
{
    if !stands_at(s, i, word) {
        return false;
    }
    if i > 0 && is_identifier_char(s[i - 1]) {
        return false;
    }
    let end: usize = i + word.len();
    end == s.len() || !is_identifier_char(s[end])
}

/// Reads the first port assigned to the word `port` on a line.
pub fn read_port_assignment(line: &[char]) -> (r: Option<u16>)
    ensures
        r == port_assignment(line@),
{
    let s = trim(line);
    let word = chars_of("port");
    let mut i: usize = 0;
    while i < s.len()
        invariant
            i <= s@.len(),
            s@ == trimmed(line@),
            word@ == "port"@,
            assignment_from(s@, 0) == assignment_from(s@, i as int),
        decreases s.len() - i,
    {
        if is_whole_word(s, i, word.as_slice()) {
            let after = trim_front(slice_subrange(s, i + word.len(), s.len()));
            if is_assignment(after) {
                let port = read_port_expression(trim_front(slice_subrange(after, 1, after.len())));
                if port.is_some() {
                    return port;
                }
            }
        }
        i += 1;
    }
    None
}

/// The first port assigned to the word `port` on a line.
pub fn extract_port_assignment_from_line(line: &str) -> (r: Option<u16>)
    ensures
        r == port_assignment(line@),
{
    read_port_assignment(chars_of(line).as_slice())
}

/// Reads the port assigned to the first `server.port` on a line.
pub fn read_server_port_assignment(line: &[char]) -> (r: Option<u16>)
    ensures
        r == server_port_assignment(line@),
{
    match find(line, "server.port") {
        Some(i) => {
            let n = chars_of("server.port").len();
            let end: usize = line.len();
            let after = trim_front(slice_subrange(line, i + n, end));
            if is_assignment(after) {
                read_port_expression(trim_front(slice_subrange(after, 1, after.len())))
            } else {
                None
            }
        },
        None => None,
    }
}

/// The port assigned to the first `server.port` on a line.
pub fn extract_port_from_server_dot_assignment(line: &str) -> (r: Option<u16>)
    ensures
        r == server_port_assignment(line@),
{
    read_server_port_assignment(chars_of(line).as_slice())
}

/// Tests whether a `server` block opens on a line.
pub fn starts_server_block(line: &[char]) -> (r: bool)
    ensures
        r == opens_server_block(line@),
{
    let word = chars_of("server");
    let mut i: usize = 0;
    while i < line.len()
        invariant
            i <= line@.len(),
            word@ == "server"@,
            forall|j: int| 0 <= j < i ==> !#[trigger] opens_server_block_at(line@, j),
        decreases line.len() - i,
    {
        if is_whole_word(line, i, word.as_slice()) {
            let after = trim_front(slice_subrange(line, i + word.len(), line.len()));
            if is_assignment(after) && any_in(after, CharSet::Only('{')) {
                proof {
                    assert(opens_server_block_at(line@, i as int));
                }
                return true;
            }
        }
        i += 1;
    }
    false
}

/// Whether a `server` block opens on a line.
pub fn is_vite_server_block_start(line: &str) -> (r: bool)
    ensures
        r == opens_server_block(line@),
{
    starts_server_block(chars_of(line).as_slice())
}

/// Counts how many times `c` stands in `s`.
fn count_occurrences(s: &[char], c: char) -> (r: usize)
    ensures
        r == occurrences(s@, c),
        r <= s@.len(),
{
    let mut n: usize = 0;
    let mut i: usize = 0;
    while i < s.len()
        invariant
            n <= i <= s@.len(),
            n == occurrences(s@.take(i as int), c),
        decreases s.len() - i,
    {
        proof {
            assert(s@.take(i + 1).drop_last() =~= s@.take(i as int));
        }
        if s[i] == c {
            n += 1;
        }
        i += 1;
    }
    proof {
        assert(s@.take(i as int) =~= s@);
    }
    n
}

/// By how much a line deepens the nesting of braces.
pub fn count_brace_balance(line: &[char]) -> (r: i128)
    ensures
        r == brace_balance(line@),
        -line@.len() <= r <= line@.len(),
{
    count_occurrences(line, '{') as i128 - count_occurrences(line, '}') as i128
}

/// By how much a line deepens the nesting of braces.
pub fn brace_depth_delta(line: &str) -> (r: i128)
    ensures
        r == brace_balance(line@),
{
    count_brace_balance(chars_of(line).as_slice())
}

/// Cuts off the comment that `//` starts.
fn strip_line_comment(line: &[char]) -> (r: &[char])
    ensures
        r@ == without_line_comment(line@),
        r@.len() <= line@.len(),
{
    match find(line, "//") {
        Some(i) => slice_subrange(line, 0, i),
        None => line,
    }
}

/// A line without the comment that `//` starts.
pub fn strip_js_line_comment(line: &str) -> (r: &str)
    ensures
        r@ == without_line_comment(line@),
{
    let chars = chars_of(line);
    match find(chars.as_slice(), "//") {
        Some(i) => line.substring_char(0, i),
        None => line,
    }
}

/// The port that a line of an environment file sets.
pub fn extract_port_from_env_line(line: &str) -> (r: Option<u16>)
    ensures
        r == env_line_port(line@),
{
    let chars = chars_of(line);
    let body = trim(chars.as_slice());
    if body.len() == 0 || body[0] == '#' {
        return None;
    }
    let setting = trim_front(
        match strip_prefix(body, "export ") {
            Some(rest) => rest,
            None => body,
        },
    );
    match strip_prefix(setting, "PORT") {
        Some(rest) => {
            let rest = trim_front(rest);
            if rest.len() > 0 && rest[0] == '=' {
                read_port_value(slice_subrange(rest, 1, rest.len()))
            } else {
                None
            }
        },
        None => None,
    }
}

/// A script token without punctuation around it.
pub fn normalize_script_token(token: &str) -> (r: String)
    ensures
        r@ == stripped(token@, CharSet::Punctuation),
{
    let chars = chars_of(token);
    text_of(strip(chars.as_slice(), CharSet::Punctuation))
}

/// Appends a port, unless the list holds it already.
pub fn push_unique_port(ports: &mut Vec<u16>, port: u16)
    ensures
        final(ports)@ == with_unique(old(ports)@, port),
{
    let mut i: usize = 0;
    while i < ports.len()
        invariant
            i <= ports@.len(),
            ports@ == old(ports)@,
            forall|j: int| 0 <= j < i ==> #[trigger] ports@[j] != port,
        decreases ports.len() - i,
    {
        if ports[i] == port {
            return;
        }
        i += 1;
    }
    ports.push(port);
}

/// Appends a port, if there is one and the list does not hold it already.
fn push_found_port(ports: &mut Vec<u16>, port: Option<u16>, Ghost(mentioned): Ghost<Seq<u16>>)
    requires
        old(ports)@ == first_seen(mentioned),
    ensures
        final(ports)@ == first_seen(mentioned + as_seq(port)),
{
    match port {
        Some(p) => {
            push_unique_port(ports, p);
            proof {
                assert((mentioned + as_seq(port)).drop_last() =~= mentioned);
            }
        },
        None => {
            proof {
                assert(mentioned + as_seq(port) =~= mentioned);
            }
        },
    }
}

/// Reads the port behind `prefix` where a token begins with it.
fn read_port_behind(token: &[char], prefix: &str) -> (r: Option<u16>)
    ensures
        r == port_behind(token@, prefix@),
{
    match strip_prefix(token, prefix) {
        Some(value) => read_port_value(value),
        None => None,
    }
}

/// The ports that a package script names, each once, in the order of the script.
pub fn detect_ports_in_script(script: &str) -> (r: Vec<u16>)
    ensures
        r@ == script_ports(script@),
{
    let chars = chars_of(script);
    let tokens = split_words(chars.as_slice());
    let ghost all = words(script@);
    let mut ports: Vec<u16> = Vec::new();
    let mut i: usize = 0;
    while i < tokens.len()
        invariant
            i <= tokens@.len(),
            texts(tokens@) == all,
            ports@ == first_seen(script_mentions(all, i as int)),
        decreases tokens.len() - i,
    {
        let token = strip(tokens[i].as_slice(), CharSet::Punctuation);
        let ghost before = script_mentions(all, i as int);
        let ghost first = before + as_seq(port_behind(token@, "PORT="@));
        let ghost second = first + as_seq(port_behind(token@, "--port="@));
        proof {
            assert(texts(tokens@)[i as int] == tokens@[i as int]@);
        }
        push_found_port(&mut ports, read_port_behind(token, "PORT="), Ghost(before));
        push_found_port(&mut ports, read_port_behind(token, "--port="), Ghost(first));
        let flag = if (spells(token, "--port") || spells(token, "-p")) && i + 1 < tokens.len() {
            proof {
                assert(texts(tokens@)[i + 1] == tokens@[i + 1]@);
            }
            read_port_value(strip(tokens[i + 1].as_slice(), CharSet::Punctuation))
        } else {
            None
        };
        push_found_port(&mut ports, flag, Ghost(second));
        proof {
            assert(second + as_seq(flag) =~= before + script_token_ports(all, i as int));
        }
        i += 1;
    }
    ports
}

/// Reads the host's port in a port mapping.
fn read_mapping_host_port(token: &[char]) -> (r: Option<u16>)
    ensures
        r == mapping_host_port(token@),
{
    if !any_in(token, CharSet::Only(':')) {
        return None;
    }
    let parts = split(take_before(token, '/'), CharSet::Only(':'));
    proof {
        assert(texts(parts@).len() == parts@.len());
    }
    if parts.len() < 2 {
        return None;
    }
    proof {
        assert(texts(parts@)[parts@.len() - 2] == parts@[parts@.len() - 2]@);
    }
    read_port_value(parts[parts.len() - 2].as_slice())
}

/// The host's port in a port mapping such as `127.0.0.1:3000:3000` or `8080:80/tcp`.
pub fn extract_host_port_from_mapping(token: &str) -> (r: Option<u16>)
    ensures
        r == mapping_host_port(token@),
{
    read_mapping_host_port(chars_of(token).as_slice())
}

/// The host ports that a line of a compose file maps.
pub fn read_compose_line(line: &[char]) -> (r: Vec<u16>)
    ensures
        r@ == compose_line_ports(line@),
{
    let content = trim(take_before(line, '#'));
    let tokens = split_words(content);
    let ghost all = words(content@);
    let mut ports: Vec<u16> = Vec::new();
    let mut i: usize = 0;
    while i < tokens.len()
        invariant
            i <= tokens@.len(),
            texts(tokens@) == all,
            ports@ == first_seen(compose_mentions(all, i as int)),
        decreases tokens.len() - i,
    {
        proof {
            assert(texts(tokens@)[i as int] == tokens@[i as int]@);
        }
        let token = trim(
            strip_front(
                strip(tokens[i].as_slice(), CharSet::Punctuation),
                CharSet::Only('-'),
            ),
        );
        push_found_port(
            &mut ports,
            read_mapping_host_port(token),
            Ghost(compose_mentions(all, i as int)),
        );
        i += 1;
    }
    ports
}

/// The host ports that a line of a compose file maps, each once.
pub fn detect_ports_in_compose_line(line: &str) -> (r: Vec<u16>)
    ensures
        r@ == compose_line_ports(line@),
{
    read_compose_line(chars_of(line).as_slice())
}

/// Appends a port with its line, if there is one that the list does not hold already.
fn note_port(found: &mut Vec<(u16, usize)>, port: Option<u16>, line: usize)
    ensures
        placed(final(found)@) == noted(placed(old(found)@), port, line as int),
{
    match port {
        Some(p) => {
            let mut i: usize = 0;
            while i < found.len()
                invariant
                    i <= found@.len(),
                    port == Some(p),
                    found@ == old(found)@,
                    forall|j: int| 0 <= j < i ==> (#[trigger] found@[j]).0 != p,
                decreases found.len() - i,
            {
                if found[i].0 == p {
                    proof {
                        assert(placed(old(found)@)[i as int].0 == p);
                    }
                    return;
                }
                i += 1;
            }
            proof {
                assert forall|j: int| 0 <= j < placed(old(found)@).len() implies (
                #[trigger] placed(old(found)@)[j]).0 != p by {
                    assert(found@[j].0 != p);
                }
            }
            found.push((p, line));
            proof {
                assert(placed(found@) =~= placed(old(found)@).push((p, line as int)));
            }
        },
        None => {},
    }
}

/// The ports that an esbuild configuration assigns, with the line of each.
pub fn detect_ports_in_esbuild_config(contents: &str) -> (r: Vec<(u16, usize)>)
    ensures
        placed(r@) == esbuild_ports(contents@),
{
    let chars = chars_of(contents);
    let file_lines = split_lines(chars.as_slice());
    let ghost all = lines(contents@);
    let mut found: Vec<(u16, usize)> = Vec::new();
    let mut i: usize = 0;
    proof {
        assert(placed(found@) =~= Seq::empty());
    }
    while i < file_lines.len()
        invariant
            i <= file_lines@.len(),
            texts(file_lines@) == all,
            placed(found@) == esbuild_scan(all, i as int),
        decreases file_lines.len() - i,
    {
        proof {
            assert(texts(file_lines@)[i as int] == file_lines@[i as int]@);
        }
        let line = strip_line_comment(file_lines[i].as_slice());
        let port = read_port_assignment(line);
        i += 1;
        note_port(&mut found, port, i);
    }
    found
}

/// How many characters a sequence of lines holds.
spec fn total_length(all: Seq<Seq<char>>) -> nat
    decreases all.len(),
{
    if all.len() == 0 {
        0
    } else {
        total_length(all.drop_last()) + all.last().len()
    }
}

proof fn lemma_total_length_front(first: Seq<char>, rest: Seq<Seq<char>>)
    ensures
        total_length(seq![first] + rest) == first.len() + total_length(rest),
    decreases rest.len(),
{
    let all = seq![first] + rest;
    if rest.len() == 0 {
        assert(all.drop_last() =~= Seq::empty());
        assert(total_length(all.drop_last()) == 0);
    } else {
        assert(all.drop_last() =~= seq![first] + rest.drop_last());
        lemma_total_length_front(first, rest.drop_last());
    }
}

/// The lines of a text hold no more characters than the text.
proof fn lemma_lines_fit(s: Seq<char>)
    ensures
        total_length(lines(s)) <= s.len(),
    decreases s.len(),
{
    if s.len() > 0 {
        let n = crate::text::prefix_outside(s, CharSet::Only('\n'));
        crate::text::lemma_prefix_outside_bounds(s, CharSet::Only('\n'));
        if n < s.len() {
            lemma_lines_fit(s.skip(n + 1int));
            lemma_total_length_front(
                crate::text::without_carriage_return(s.take(n as int)),
                lines(s.skip(n + 1int)),
            );
        } else {
            lemma_total_length_front(s, Seq::empty());
            assert(seq![s] + Seq::<Seq<char>>::empty() =~= seq![s]);
        }
    }
}

proof fn lemma_total_length_take(all: Seq<Seq<char>>, n: int)
    requires
        0 <= n < all.len(),
    ensures
        total_length(all.take(n + 1)) == total_length(all.take(n)) + all[n].len(),
        total_length(all.take(n + 1)) <= total_length(all),
    decreases all.len(),
{
    assert(all.take(n + 1).drop_last() =~= all.take(n));
    if n + 1 == all.len() {
        assert(all.take(n + 1) =~= all);
    } else {
        lemma_total_length_take(all.drop_last(), n);
        assert(all.drop_last().take(n + 1) =~= all.take(n + 1));
    }
}

/// The ports that a Vite configuration assigns, with the line of each: inside a `server` block,
/// or to `server.port` anywhere.
pub fn detect_ports_in_vite_config(contents: &str) -> (r: Vec<(u16, usize)>)
    ensures
        placed(r@) == vite_ports(contents@),
{
    let chars = chars_of(contents);
    let file_lines = split_lines(chars.as_slice());
    let ghost all = lines(contents@);
    let mut found: Vec<(u16, usize)> = Vec::new();
    let mut depth: i128 = 0;
    let mut i: usize = 0;
    proof {
        assert(placed(found@) =~= Seq::empty());
        assert(all.take(0) =~= Seq::empty());
        lemma_lines_fit(contents@);
        assert(chars@.len() == chars.len());
    }
    while i < file_lines.len()
        invariant
            i <= file_lines@.len(),
            texts(file_lines@) == all,
            total_length(all) <= usize::MAX,
            0 <= depth <= total_length(all.take(i as int)) <= usize::MAX,
            placed(found@) == vite_scan(all, i as int).found,
            depth == vite_scan(all, i as int).depth,
        decreases file_lines.len() - i,
    {
        proof {
            assert(texts(file_lines@)[i as int] == file_lines@[i as int]@);
            lemma_total_length_take(all, i as int);
        }
        let line = trim(strip_line_comment(file_lines[i].as_slice()));
        proof {
            lemma_trimmed_length(without_line_comment(all[i as int]));
        }
        i += 1;
        if line.len() > 0 {
            note_port(&mut found, read_server_port_assignment(line), i);
            if depth > 0 || starts_server_block(line) {
                note_port(&mut found, read_port_assignment(line), i);
                depth = depth + count_brace_balance(line);
                if depth < 0 {
                    depth = 0;
                }
            }
        }
    }
    found
}

proof fn lemma_trimmed_length(s: Seq<char>)
    ensures
        trimmed(s).len() <= s.len(),
{
    crate::text::lemma_prefix_in_bounds(s, CharSet::WhiteSpace);
    crate::text::lemma_suffix_in_bounds(trimmed_front(s), CharSet::WhiteSpace);
}

} // verus!
