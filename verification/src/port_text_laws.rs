//! How ports are written: which text gives which port.

use vstd::prelude::*;

use crate::numbers::digits_value;
use crate::ports::{
    after_word, assignment_at, assignment_from, assigns, compose_line_ports, compose_mentions,
    compose_token, env_line_port, first_seen, mapping_host_port, opens_server_block,
    opens_server_block_at, port_assignment, port_behind, port_expression, port_value,
    script_mentions, script_ports, script_token_ports, server_port_assignment, whole_word_at,
    without_line_comment,
};
use crate::selection::{lemma_picked_none, lemma_picked_push, lemma_strung_push, picked};
use crate::text::{
    after_prefix, begins_with, front_stripped, law_split_at_separator, law_split_without_separator,
    lemma_nothing_to_strip, lemma_prefix_in, lemma_prefix_in_bounds, lemma_suffix_in_bounds,
    mentions, occurs_at, prefix_in, split_on, stripped, suffix_in, trimmed, trimmed_front, words,
    CharSet,
};
use crate::text_laws::{
    all_in, bare, law_before_char, law_first_and_last_occurrence, law_occurrence,
    law_occurrence_is_spelled, law_strip_front_leaves_the_rest, law_strip_leaves_the_middle,
    law_strip_takes_only_the_class,
};

verus! {

/// Stripping leaves a start that neither begins nor ends with a character of the class, and some
/// of what follows it.
proof fn lemma_start_stays(start: Seq<char>, rest: Seq<char>, set: CharSet) -> (k: int)
    requires
        start.len() > 0,
        !set.has(start[0]),
        !set.has(start.last()),
    ensures
        0 <= k <= rest.len(),
        stripped(start + rest, set) == start + rest.take(k),
{
    let s = start + rest;
    lemma_suffix_in_bounds(s, set);
    let cut = suffix_in(s, set) as int;
    if cut > rest.len() {
        assert(s[start.len() - 1] == start.last());
        assert(set.has(s[start.len() - 1]));
    }
    let k = rest.len() - cut;
    let middle = start + rest.take(k);
    let tail = rest.skip(k);
    let none = Seq::<char>::empty();
    assert(s =~= none + middle + tail);
    assert forall|i: int| 0 <= i < tail.len() implies set.has(#[trigger] tail[i]) by {
        assert(tail[i] == s[start.len() + k + i]);
    }
    assert(middle[0] == start[0]);
    if cut < s.len() {
        assert(s[s.len() - cut - 1] == middle[middle.len() - 1]);
    }
    law_strip_leaves_the_middle(none, middle, tail, set);
    k
}

/// A value gives the digits at its start: white space, and behind it opening brackets and quotes,
/// may stand before them, and what follows them does not count. They give a port where they denote
/// one.
pub proof fn law_value_gives_its_leading_digits(
    lead: Seq<char>,
    opening: Seq<char>,
    digits: Seq<char>,
    rest: Seq<char>,
)
    requires
        all_in(lead, CharSet::WhiteSpace),
        all_in(opening, CharSet::Opening),
        all_in(digits, CharSet::Digit),
        digits.len() > 0,
        rest.len() > 0 ==> !CharSet::Digit.has(rest[0]),
    ensures
        port_value(lead + opening + digits + rest) == if 0 < digits_value(digits) < 65536 {
            Some(digits_value(digits) as u16)
        } else {
            None
        },
{
    let ws = CharSet::WhiteSpace;
    let s = lead + opening + digits + rest;
    let start = opening + digits;
    assert(CharSet::Digit.has(digits[0]));
    assert(CharSet::Digit.has(digits[digits.len() - 1]));
    assert(start.last() == digits[digits.len() - 1]);
    if opening.len() > 0 {
        assert(CharSet::Opening.has(opening[0]));
        assert(start[0] == opening[0]);
    } else {
        assert(start[0] == digits[0]);
    }
    let body = start + rest;
    let k = lemma_start_stays(start, rest, ws);
    let inner = trimmed(body);
    assert(s =~= lead + body);
    lemma_lead_is_trimmed(lead, body);
    assert(trimmed(s) == inner);
    let after = digits + rest.take(k);
    assert(inner =~= opening + after);
    assert(after[0] == digits[0]);
    law_strip_front_leaves_the_rest(opening, after, CharSet::Opening);
    let m = lemma_start_stays(digits, rest.take(k), CharSet::Quote);
    let value = stripped(after, CharSet::Quote);
    let end = rest.take(k).take(m);
    assert(value == digits + end);
    assert forall|j: int| 0 <= j < digits.len() implies CharSet::Digit.has(#[trigger] value[j]) by {
        assert(value[j] == digits[j]);
    }
    if end.len() > 0 {
        assert(value[digits.len() as int] == rest[0]);
    }
    lemma_prefix_in(value, CharSet::Digit, digits.len() as int);
    assert(value.take(digits.len() as int) =~= digits);
}

/// White space before a text does not matter to what is left once it is trimmed.
proof fn lemma_lead_is_trimmed(lead: Seq<char>, body: Seq<char>)
    requires
        all_in(lead, CharSet::WhiteSpace),
    ensures
        trimmed(lead + body) == trimmed(body),
{
    let ws = CharSet::WhiteSpace;
    let (a, b) = law_strip_takes_only_the_class(body, ws);
    let front = lead + a;
    assert forall|i: int| 0 <= i < front.len() implies ws.has(#[trigger] front[i]) by {
        if i < lead.len() {
            assert(front[i] == lead[i]);
        } else {
            assert(front[i] == a[i - lead.len()]);
        }
    }
    assert(lead + body =~= front + trimmed(body) + b);
    law_strip_leaves_the_middle(front, trimmed(body), b, ws);
}

/// White space behind a text does not matter to what is left once it is trimmed.
proof fn lemma_tail_is_trimmed(body: Seq<char>, tail: Seq<char>)
    requires
        all_in(tail, CharSet::WhiteSpace),
    ensures
        trimmed(body + tail) == trimmed(body),
{
    let ws = CharSet::WhiteSpace;
    let (a, b) = law_strip_takes_only_the_class(body, ws);
    let back = b + tail;
    assert forall|i: int| 0 <= i < back.len() implies ws.has(#[trigger] back[i]) by {
        if i < b.len() {
            assert(back[i] == b[i]);
        } else {
            assert(back[i] == tail[i - b.len()]);
        }
    }
    assert(body + tail =~= a + trimmed(body) + back);
    law_strip_leaves_the_middle(a, trimmed(body), back, ws);
}

/// A value that goes on with something other than a digit, once white space and behind it opening
/// brackets and quotes are passed over, gives no port.
pub proof fn law_value_without_leading_digits_gives_none(
    lead: Seq<char>,
    opening: Seq<char>,
    rest: Seq<char>,
)
    requires
        all_in(lead, CharSet::WhiteSpace),
        all_in(opening, CharSet::Opening),
        rest.len() > 0 ==> !CharSet::Digit.has(rest[0]) && !CharSet::Opening.has(rest[0]),
        rest.len() > 0 && opening.len() == 0 ==> !CharSet::WhiteSpace.has(rest[0]),
    ensures
        port_value(lead + opening + rest) is None,
{
    let ws = CharSet::WhiteSpace;
    let s = lead + opening + rest;
    let body = opening + rest;
    assert(s =~= lead + body);
    lemma_lead_is_trimmed(lead, body);
    let (a, b) = law_strip_takes_only_the_class(body, ws);
    let inner = trimmed(body);
    if body.len() > 0 {
        if opening.len() > 0 {
            assert(CharSet::Opening.has(opening[0]));
            assert(body[0] == opening[0]);
        } else {
            assert(body[0] == rest[0]);
        }
        assert(!ws.has(body[0]));
        if a.len() > 0 {
            assert(body[0] == a[0]);
            assert(ws.has(a[0]));
        }
        assert(inner =~= body.take(inner.len() as int));
        if inner.len() < opening.len() {
            assert(body =~= inner + b);
            assert(body[inner.len() as int] == opening[inner.len() as int]);
            assert(b[0] == opening[inner.len() as int]);
            assert(CharSet::Opening.has(opening[inner.len() as int]));
            assert(ws.has(b[0]));
        }
        let after = rest.take(inner.len() - opening.len());
        assert(inner =~= opening + after);
        law_strip_front_leaves_the_rest(opening, after, CharSet::Opening);
        lemma_no_digits(after);
    } else {
        let none = Seq::<char>::empty();
        assert(inner =~= none);
        lemma_prefix_in(none, CharSet::Opening, 0);
        assert(front_stripped(none, CharSet::Opening) =~= none);
        lemma_no_digits(none);
    }
}

/// Without a digit or a quote at its start, a text gives no digits.
proof fn lemma_no_digits(s: Seq<char>)
    requires
        s.len() > 0 ==> !CharSet::Digit.has(s[0]) && !CharSet::Quote.has(s[0]),
    ensures
        prefix_in(stripped(s, CharSet::Quote), CharSet::Digit) == 0,
{
    lemma_prefix_in(s, CharSet::Quote, 0);
    assert(s.skip(0) =~= s);
    lemma_suffix_in_bounds(s, CharSet::Quote);
    let value = stripped(s, CharSet::Quote);
    if value.len() > 0 {
        assert(value[0] == s[0]);
    }
    lemma_prefix_in(value, CharSet::Digit, 0);
}

/// Whether `mark` stands in `a + mark + b` for the last time behind `a`.
pub open spec fn is_last_mark(a: Seq<char>, mark: Seq<char>, b: Seq<char>) -> bool {
    forall|j: int| j > a.len() ==> !#[trigger] occurs_at(a + mark + b, j, mark)
}

/// An expression gives its own value where that is a port. Otherwise it gives the value behind its
/// last `||`, and where there is none the one behind its last `??`.
pub proof fn law_expression_falls_back(s: Seq<char>, a: Seq<char>, b: Seq<char>)
    ensures
        port_value(s) is Some ==> port_expression(s) == port_value(s),
        port_value(s) is None && (forall|j: int| !#[trigger] occurs_at(s, j, "||"@)) && (forall|
            j: int,
        |
            !#[trigger] occurs_at(s, j, "??"@)) ==> port_expression(s) is None,
        s == a + "||"@ + b && is_last_mark(a, "||"@, b) && port_value(s) is None && port_value(
            b,
        ) is Some ==> port_expression(s) == port_value(b),
        s == a + "??"@ + b && is_last_mark(a, "??"@, b) && port_value(s) is None && (forall|
            j: int,
        |
            !#[trigger] occurs_at(s, j, "||"@)) ==> port_expression(s) == port_value(b),
        s == a + "??"@ + b && is_last_mark(a, "??"@, b) && port_value(s) is None && (forall|
            c: Seq<char>,
            d: Seq<char>,
        |
            s == #[trigger] (c + "||"@ + d) ==> port_value(d) is None) ==> port_expression(s)
            == port_value(b),
{
    reveal_strlit("||");
    reveal_strlit("??");
    law_first_and_last_occurrence(s, "||"@);
    law_first_and_last_occurrence(s, "??"@);
    law_occurrence(a, "||"@, b);
    law_occurrence(a, "??"@, b);
    lemma_behind(s, a, "||"@, b);
    lemma_behind(s, a, "??"@, b);
    if let Some(i) = crate::text::last_occurrence(s, "||"@) {
        let c = s.take(i);
        let d = s.skip(i + "||"@.len());
        assert(s =~= c + "||"@ + d);
    }
}

/// What stands behind the last mark.
proof fn lemma_behind(s: Seq<char>, a: Seq<char>, mark: Seq<char>, b: Seq<char>)
    requires
        mark.len() > 0,
    ensures
        s == a + mark + b && is_last_mark(a, mark, b) ==> {
            &&& crate::text::last_occurrence(s, mark) == Some(a.len() as int)
            &&& s.skip(a.len() + mark.len() as int) == b
        },
{
    if s == a + mark + b && is_last_mark(a, mark, b) {
        law_first_and_last_occurrence(s, mark);
        law_occurrence(a, mark, b);
        let i = crate::text::last_occurrence(s, mark);
        assert(i is Some);
        assert(s.skip(a.len() + mark.len() as int) =~= b);
    }
}

/// Whether text may stand directly before a word of its own.
pub open spec fn ends_outside_a_word(s: Seq<char>) -> bool {
    s.len() == 0 || !CharSet::Identifier.has(s.last())
}

/// A word that is followed by white space, a colon or an equals sign, and preceded by nothing that
/// belongs to it, stands on its own, and what follows it is an assignment.
proof fn lemma_assigned_word(
    before: Seq<char>,
    word: Seq<char>,
    space: Seq<char>,
    sign: char,
    rest: Seq<char>,
)
    requires
        ends_outside_a_word(before),
        all_in(space, CharSet::WhiteSpace),
        sign == ':' || sign == '=',
    ensures
        ({
            let s = before + word + space + seq![sign] + rest;
            &&& occurs_at(s, before.len() as int, word)
            &&& whole_word_at(s, before.len() as int, word)
            &&& after_word(s, before.len() as int, word) == seq![sign] + rest
            &&& assigns(after_word(s, before.len() as int, word))
            &&& after_word(s, before.len() as int, word).skip(1) == rest
        }),
{
    let s = before + word + space + seq![sign] + rest;
    let i = before.len() as int;
    law_occurrence(before, word, space + seq![sign] + rest);
    assert(s =~= before + word + (space + seq![sign] + rest));
    if i > 0 {
        assert(s[i - 1] == before.last());
    }
    if space.len() > 0 {
        assert(s[i + word.len()] == space[0]);
        assert(CharSet::WhiteSpace.has(space[0]));
    } else {
        assert(s[i + word.len()] == sign);
    }
    let tail = seq![sign] + rest;
    assert(s.skip(i + word.len()) =~= space + tail);
    law_strip_front_leaves_the_rest(space, tail, CharSet::WhiteSpace);
    assert(tail.skip(1) =~= rest);
}

/// The word `port`, followed by a colon or an equals sign, assigns the port that the expression
/// behind the sign gives, whatever stands before it and whatever white space lies between.
pub proof fn law_port_is_assigned(
    before: Seq<char>,
    space: Seq<char>,
    sign: char,
    gap: Seq<char>,
    value: Seq<char>,
)
    requires
        ends_outside_a_word(before),
        all_in(space, CharSet::WhiteSpace),
        all_in(gap, CharSet::WhiteSpace),
        value.len() > 0 ==> !CharSet::WhiteSpace.has(value[0]),
        sign == ':' || sign == '=',
    ensures
        assignment_at(
            before + "port"@ + space + seq![sign] + (gap + value),
            before.len() as int,
        ) == port_expression(value),
{
    lemma_assigned_word(before, "port"@, space, sign, gap + value);
    law_strip_front_leaves_the_rest(gap, value, CharSet::WhiteSpace);
}

/// Where the word `port` is part of a longer one, or no colon or equals sign follows it, nothing is
/// assigned to it.
pub proof fn law_port_is_not_assigned(s: Seq<char>, i: int)
    ensures
        assignment_at(s, i) is Some ==> {
            &&& occurs_at(s, i, "port"@)
            &&& i > 0 ==> !CharSet::Identifier.has(s[i - 1])
            &&& i + 4 < s.len()
            &&& !CharSet::Identifier.has(s[i + 4])
            &&& exists|k: int|
                i + 4 <= k < s.len() && all_in(s.subrange(i + 4, k), CharSet::WhiteSpace) && (
                #[trigger] s[k] == ':' || s[k] == '=')
        },
{
    reveal_strlit("port");
    if assignment_at(s, i) is Some {
        let tail = s.skip(i + 4);
        lemma_prefix_in_bounds(tail, CharSet::WhiteSpace);
        let n = prefix_in(tail, CharSet::WhiteSpace) as int;
        let k = i + 4 + n;
        assert(after_word(s, i, "port"@) == tail.skip(n));
        assert(tail.skip(n)[0] == s[k]);
        let part = s.subrange(i + 4, k);
        assert forall|j: int| 0 <= j < part.len() implies CharSet::WhiteSpace.has(
            #[trigger] part[j],
        ) by {
            assert(part[j] == tail[j]);
        }
    }
}

/// The first port assigned from a position on.
proof fn lemma_assignment_from(s: Seq<char>, i: int)
    requires
        0 <= i,
    ensures
        match assignment_from(s, i) {
            Some(port) => exists|k: int|
                i <= k < s.len() && #[trigger] assignment_at(s, k) == Some(port) && forall|j: int|
                    i <= j < k ==> #[trigger] assignment_at(s, j) is None,
            None => forall|j: int| i <= j < s.len() ==> #[trigger] assignment_at(s, j) is None,
        },
    decreases s.len() - i,
{
    if i < s.len() {
        if assignment_at(s, i) is Some {
            assert(assignment_at(s, i) == assignment_from(s, i));
        } else {
            lemma_assignment_from(s, i + 1);
            if let Some(port) = assignment_from(s, i + 1) {
                let k = choose|k: int|
                    i + 1 <= k < s.len() && #[trigger] assignment_at(s, k) == Some(port) && forall|
                        j: int,
                    |
                        i + 1 <= j < k ==> #[trigger] assignment_at(s, j) is None;
                assert forall|j: int| i <= j < k implies #[trigger] assignment_at(s, j) is None by {
                    if j > i {
                        assert(assignment_at(s, j) is None);
                    }
                }
            }
        }
    }
}

/// A line assigns the port of the first place on it that assigns one. White space around the line
/// does not matter.
pub proof fn law_first_assignment_counts(line: Seq<char>, lead: Seq<char>, tail: Seq<char>)
    ensures
        match port_assignment(line) {
            Some(port) => exists|k: int|
                0 <= k < trimmed(line).len() && #[trigger] assignment_at(trimmed(line), k) == Some(
                    port,
                ) && forall|j: int|
                    0 <= j < k ==> #[trigger] assignment_at(trimmed(line), j) is None,
            None => forall|j: int|
                0 <= j < trimmed(line).len() ==> #[trigger] assignment_at(trimmed(line), j) is None,
        },
        all_in(lead, CharSet::WhiteSpace) && all_in(tail, CharSet::WhiteSpace) ==> port_assignment(
            lead + line + tail,
        ) == port_assignment(line),
{
    lemma_assignment_from(trimmed(line), 0);
    if all_in(lead, CharSet::WhiteSpace) && all_in(tail, CharSet::WhiteSpace) {
        lemma_tail_is_trimmed(lead + line, tail);
        lemma_lead_is_trimmed(lead, line);
    }
}

/// The first `server.port` on a line, followed by a colon or an equals sign, assigns the port that
/// the expression behind the sign gives.
pub proof fn law_server_port_is_assigned(
    before: Seq<char>,
    space: Seq<char>,
    sign: char,
    gap: Seq<char>,
    value: Seq<char>,
)
    requires
        all_in(space, CharSet::WhiteSpace),
        all_in(gap, CharSet::WhiteSpace),
        value.len() > 0 ==> !CharSet::WhiteSpace.has(value[0]),
        sign == ':' || sign == '=',
        forall|j: int|
            0 <= j < before.len() ==> !#[trigger] occurs_at(
                before + "server.port"@ + space + seq![sign] + (gap + value),
                j,
                "server.port"@,
            ),
    ensures
        server_port_assignment(before + "server.port"@ + space + seq![sign] + (gap + value))
            == port_expression(value),
{
    let word = "server.port"@;
    let rest = gap + value;
    let line = before + word + space + seq![sign] + rest;
    let i = before.len() as int;
    law_occurrence(before, word, space + seq![sign] + rest);
    assert(line =~= before + word + (space + seq![sign] + rest));
    law_first_and_last_occurrence(line, word);
    let tail = seq![sign] + rest;
    assert(line.skip(i + word.len()) =~= space + tail);
    law_strip_front_leaves_the_rest(space, tail, CharSet::WhiteSpace);
    assert(tail.skip(1) =~= rest);
    law_strip_front_leaves_the_rest(gap, value, CharSet::WhiteSpace);
}

/// Without `server.port` on it, or where no colon or equals sign follows the first one, a line
/// assigns nothing to it.
pub proof fn law_server_port_is_not_assigned(line: Seq<char>)
    ensures
        server_port_assignment(line) is Some ==> exists|i: int|
            {
                &&& #[trigger] occurs_at(line, i, "server.port"@)
                &&& forall|j: int| 0 <= j < i ==> !#[trigger] occurs_at(line, j, "server.port"@)
                &&& exists|k: int|
                    i + 11 <= k < line.len() && all_in(
                        line.subrange(i + 11, k),
                        CharSet::WhiteSpace,
                    ) && (#[trigger] line[k] == ':' || line[k] == '=')
            },
{
    reveal_strlit("server.port");
    law_first_and_last_occurrence(line, "server.port"@);
    if server_port_assignment(line) is Some {
        let i = crate::text::first_occurrence(line, "server.port"@)->0;
        let tail = line.skip(i + 11);
        lemma_prefix_in_bounds(tail, CharSet::WhiteSpace);
        let n = prefix_in(tail, CharSet::WhiteSpace) as int;
        let k = i + 11 + n;
        assert(after_word(line, i, "server.port"@) == tail.skip(n));
        assert(tail.skip(n)[0] == line[k]);
        let part = line.subrange(i + 11, k);
        assert forall|j: int| 0 <= j < part.len() implies CharSet::WhiteSpace.has(
            #[trigger] part[j],
        ) by {
            assert(part[j] == tail[j]);
        }
        assert(occurs_at(line, i, "server.port"@));
        assert(exists|k: int|
            i + 11 <= k < line.len() && all_in(line.subrange(i + 11, k), CharSet::WhiteSpace) && (
            #[trigger] line[k] == ':' || line[k] == '=')) by {
            assert(line[k] == ':' || line[k] == '=');
        }
    }
}

/// The word `server`, followed by a colon or an equals sign and then by a brace anywhere on the
/// line, opens a block.
pub proof fn law_server_block_is_opened(
    before: Seq<char>,
    space: Seq<char>,
    sign: char,
    rest: Seq<char>,
)
    requires
        ends_outside_a_word(before),
        all_in(space, CharSet::WhiteSpace),
        sign == ':' || sign == '=',
        rest.contains('{'),
    ensures
        opens_server_block(before + "server"@ + space + seq![sign] + rest),
{
    reveal_strlit("server");
    let line = before + "server"@ + space + seq![sign] + rest;
    lemma_assigned_word(before, "server"@, space, sign, rest);
    let after = seq![sign] + rest;
    let k = choose|k: int| 0 <= k < rest.len() && rest[k] == '{';
    assert(after[k + 1] == '{');
    assert(CharSet::Only('{').has(after[k + 1]));
    assert(opens_server_block_at(line, before.len() as int));
}

/// A line that opens a block has the word `server` on its own, a colon or an equals sign behind it
/// with nothing but white space between, and a brace behind that.
pub proof fn law_opened_block_is_that_of_a_server(line: Seq<char>)
    ensures
        opens_server_block(line) ==> exists|i: int, k: int, b: int|
            {
                &&& #[trigger] occurs_at(line, i, "server"@)
                &&& i > 0 ==> !CharSet::Identifier.has(line[i - 1])
                &&& !CharSet::Identifier.has(line[i + 6])
                &&& i + 6 <= k < b < line.len()
                &&& all_in(#[trigger] line.subrange(i + 6, k), CharSet::WhiteSpace)
                &&& line[k] == ':' || line[k] == '='
                &&& #[trigger] line[b] == '{'
            },
{
    reveal_strlit("server");
    if opens_server_block(line) {
        let i = choose|i: int| #[trigger] opens_server_block_at(line, i);
        let tail = line.skip(i + 6);
        lemma_prefix_in_bounds(tail, CharSet::WhiteSpace);
        let n = prefix_in(tail, CharSet::WhiteSpace) as int;
        let k = i + 6 + n;
        let after = after_word(line, i, "server"@);
        assert(after == tail.skip(n));
        assert(after[0] == line[k]);
        let part = line.subrange(i + 6, k);
        assert forall|j: int| 0 <= j < part.len() implies CharSet::WhiteSpace.has(
            #[trigger] part[j],
        ) by {
            assert(part[j] == tail[j]);
        }
        let x = choose|x: int| 0 <= x < after.len() && CharSet::Only('{').has(#[trigger] after[x]);
        assert(after[x] == line[k + x]);
        let b = k + x;
        assert(occurs_at(line, i, "server"@));
        assert(line[b] == '{');
        assert(b > k);
    }
}

/// A comment starts at the first `//` of a line; without one the line stays whole.
pub proof fn law_line_comment_is_left_out(code: Seq<char>, comment: Seq<char>)
    requires
        forall|j: int|
            0 <= j < code.len() ==> !#[trigger] occurs_at(code + "//"@ + comment, j, "//"@),
    ensures
        without_line_comment(code + "//"@ + comment) == code,
        (forall|j: int| !#[trigger] occurs_at(code, j, "//"@)) ==> without_line_comment(code) == code,
{
    let line = code + "//"@ + comment;
    law_occurrence(code, "//"@, comment);
    law_first_and_last_occurrence(line, "//"@);
    law_first_and_last_occurrence(code, "//"@);
    assert(line.take(code.len() as int) =~= code);
}

/// White space around a line of an environment file does not matter, and a line that `#` begins
/// sets nothing.
pub proof fn law_env_line_is_trimmed(lead: Seq<char>, line: Seq<char>, tail: Seq<char>)
    requires
        all_in(lead, CharSet::WhiteSpace),
        all_in(tail, CharSet::WhiteSpace),
    ensures
        env_line_port(lead + line + tail) == env_line_port(line),
        line.len() > 0 && line[0] == '#' ==> env_line_port(line) is None,
{
    lemma_tail_is_trimmed(lead + line, tail);
    lemma_lead_is_trimmed(lead, line);
    if line.len() > 0 && line[0] == '#' {
        let (a, b) = law_strip_takes_only_the_class(line, CharSet::WhiteSpace);
        if a.len() > 0 {
            assert(line[0] == a[0]);
            assert(CharSet::WhiteSpace.has(a[0]));
        }
        if trimmed(line).len() > 0 {
            assert(line[0] == trimmed(line)[0]);
        }
    }
}

/// A line `PORT=…`, or `export PORT=…`, sets the port that its value gives, with white space where
/// one likes.
pub proof fn law_env_line_sets_its_value(
    gap: Seq<char>,
    space: Seq<char>,
    value: Seq<char>,
)
    requires
        all_in(gap, CharSet::WhiteSpace),
        all_in(space, CharSet::WhiteSpace),
        value.len() > 0,
        !CharSet::WhiteSpace.has(value.last()),
    ensures
        env_line_port("PORT"@ + space + seq!['='] + value) == port_value(value),
        env_line_port("export "@ + gap + ("PORT"@ + space + seq!['='] + value)) == port_value(value),
{
    lemma_setting(space, value);
    lemma_exported(gap, space, value);
}

/// What follows `PORT` in a setting.
proof fn lemma_behind_port(space: Seq<char>, value: Seq<char>)
    requires
        all_in(space, CharSet::WhiteSpace),
    ensures
        ({
            let setting = "PORT"@ + space + seq!['='] + value;
            let tail = seq!['='] + value;
            &&& after_prefix(setting, "PORT"@) == Some(space + tail)
            &&& trimmed_front(space + tail) == tail
            &&& tail.skip(1) == value
            &&& trimmed_front(setting) == setting
            &&& setting.len() > 0
            &&& setting[0] == 'P'
            &&& setting.last() == (seq!['='] + value).last()
        }),
{
    reveal_strlit("PORT");
    let setting = "PORT"@ + space + seq!['='] + value;
    let tail = seq!['='] + value;
    let none = Seq::<char>::empty();
    assert(setting =~= "PORT"@ + (space + tail));
    law_occurrence(none, "PORT"@, space + tail);
    law_strip_front_leaves_the_rest(space, tail, CharSet::WhiteSpace);
    assert(tail.skip(1) =~= value);
    law_strip_front_leaves_the_rest(none, setting, CharSet::WhiteSpace);
    assert(none + setting =~= setting);
}

/// What a setting without `export ` gives.
proof fn lemma_setting(space: Seq<char>, value: Seq<char>)
    requires
        all_in(space, CharSet::WhiteSpace),
        value.len() > 0,
        !CharSet::WhiteSpace.has(value.last()),
    ensures
        env_line_port("PORT"@ + space + seq!['='] + value) == port_value(value),
{
    let setting = "PORT"@ + space + seq!['='] + value;
    lemma_behind_port(space, value);
    assert(setting.last() == value.last());
    lemma_nothing_to_strip(setting, CharSet::WhiteSpace);
    assert(after_prefix(setting, "export "@) is None) by {
        reveal_strlit("export ");
        if begins_with(setting, "export "@) {
            assert(setting.subrange(0, 7)[0] == "export "@[0]);
        }
    }
}

/// What a setting behind `export ` gives.
proof fn lemma_exported(gap: Seq<char>, space: Seq<char>, value: Seq<char>)
    requires
        all_in(gap, CharSet::WhiteSpace),
        all_in(space, CharSet::WhiteSpace),
        value.len() > 0,
        !CharSet::WhiteSpace.has(value.last()),
    ensures
        env_line_port("export "@ + gap + ("PORT"@ + space + seq!['='] + value)) == port_value(value),
{
    let setting = "PORT"@ + space + seq!['='] + value;
    let line = "export "@ + gap + setting;
    let none = Seq::<char>::empty();
    lemma_behind_port(space, value);
    assert(setting.last() == value.last());
    assert(line.len() > 0 && line[0] == 'e') by {
        reveal_strlit("export ");
    }
    assert(line.last() == setting.last());
    lemma_nothing_to_strip(line, CharSet::WhiteSpace);
    assert(line =~= "export "@ + (gap + setting));
    law_occurrence(none, "export "@, gap + setting);
    law_strip_front_leaves_the_rest(gap, setting, CharSet::WhiteSpace);
}

/// A line that sets a port has `PORT` at its start, or behind `export `, and an equals sign behind
/// it with nothing but white space between.
pub proof fn law_env_line_names_the_port(line: Seq<char>) -> (r: (Seq<char>, Seq<char>, Seq<char>))
    requires
        env_line_port(line) is Some,
    ensures
        all_in(r.0, CharSet::WhiteSpace),
        all_in(r.1, CharSet::WhiteSpace),
        ({
            ||| trimmed(line) == r.0 + ("PORT"@ + r.1 + seq!['='] + r.2)
            ||| trimmed(line) == "export "@ + (r.0 + ("PORT"@ + r.1 + seq!['='] + r.2))
        }),
        env_line_port(line) == port_value(r.2),
{
    let body = trimmed(line);
    let exported = match after_prefix(body, "export "@) {
        Some(rest) => rest,
        None => body,
    };
    lemma_goes_on(body, "export "@);
    let gap = lemma_lead_of(exported);
    let setting = trimmed_front(exported);
    lemma_goes_on(setting, "PORT"@);
    let rest = after_prefix(setting, "PORT"@)->0;
    let space = lemma_lead_of(rest);
    let tail = trimmed_front(rest);
    let value = tail.skip(1);
    assert(tail =~= seq!['='] + value);
    assert("PORT"@ + (space + (seq!['='] + value)) =~= "PORT"@ + space + seq!['='] + value);
    assert(setting == "PORT"@ + space + seq!['='] + value);
    (gap, space, value)
}

/// A text that goes on behind a prefix is the prefix and what follows it.
proof fn lemma_goes_on(s: Seq<char>, prefix: Seq<char>)
    ensures
        after_prefix(s, prefix) matches Some(rest) ==> s == prefix + rest,
{
    if let Some(rest) = after_prefix(s, prefix) {
        assert(s =~= prefix + rest);
    }
}

/// The white space at the start of a text.
proof fn lemma_lead_of(s: Seq<char>) -> (lead: Seq<char>)
    ensures
        all_in(lead, CharSet::WhiteSpace),
        s == lead + trimmed_front(s),
{
    lemma_prefix_in_bounds(s, CharSet::WhiteSpace);
    let lead = s.take(prefix_in(s, CharSet::WhiteSpace) as int);
    assert(s =~= lead + trimmed_front(s));
    lead
}

/// Whether `x` stands in `s` first at position `k`.
pub open spec fn first_at(s: Seq<u16>, x: u16, k: int) -> bool {
    0 <= k < s.len() && s[k] == x && forall|j: int| 0 <= j < k ==> #[trigger] s[j] != x
}

/// Leaving out later equal items leaves each item once, in the order in which they come first.
pub proof fn law_first_seen(s: Seq<u16>)
    ensures
        first_seen(s).no_duplicates(),
        forall|x: u16| #[trigger] first_seen(s).contains(x) <==> s.contains(x),
        forall|i: int, j: int, a: int, b: int|
            0 <= i < j < first_seen(s).len() && #[trigger] first_at(s, first_seen(s)[i], a)
                && #[trigger] first_at(s, first_seen(s)[j], b) ==> a < b,
    decreases s.len(),
{
    if s.len() > 0 {
        let shorter = s.drop_last();
        law_first_seen(shorter);
        let before = first_seen(shorter);
        let all = first_seen(s);
        let last = s.last();
        assert forall|x: u16| #[trigger] all.contains(x) <==> s.contains(x) by {
            assert(before.contains(x) <==> shorter.contains(x));
            if shorter.contains(x) {
                let k = choose|k: int| 0 <= k < shorter.len() && shorter[k] == x;
                assert(s[k] == x);
                let m = choose|m: int| 0 <= m < before.len() && before[m] == x;
                assert(all[m] == x);
            }
            if s.contains(x) && x != last {
                let k = choose|k: int| 0 <= k < s.len() && s[k] == x;
                assert(shorter[k] == x);
            }
            if all.contains(x) && x != last {
                let m = choose|m: int| 0 <= m < all.len() && all[m] == x;
                assert(before[m] == x);
            }
            assert(s[s.len() - 1] == last);
            if !before.contains(last) {
                assert(all[before.len() as int] == last);
            }
        }
        assert forall|i: int, j: int, a: int, b: int|
            0 <= i < j < all.len() && #[trigger] first_at(s, all[i], a) && #[trigger] first_at(
                s,
                all[j],
                b,
            ) implies a < b by {
            assert(all[i] == before[i]);
            assert(before.contains(before[i]));
            let k = choose|k: int| 0 <= k < shorter.len() && shorter[k] == all[i];
            assert(s[k] == all[i]);
            assert(a <= k);
            assert(first_at(shorter, before[i], a));
            if j < before.len() {
                assert(before.contains(before[j]));
                let m = choose|m: int| 0 <= m < shorter.len() && shorter[m] == all[j];
                assert(s[m] == all[j]);
                assert(b <= m);
                assert(first_at(shorter, before[j], b));
            } else {
                assert(!shorter.contains(last));
                if b < shorter.len() {
                    assert(shorter[b] == last);
                }
            }
        }
    }
}

/// A token without the punctuation around it.
pub open spec fn core_of(tokens: Seq<Seq<char>>, i: int) -> Seq<char> {
    stripped(tokens[i], CharSet::Punctuation)
}

/// Whether the token at `i` of a script gives `port`: as the value of `PORT=…` or `--port=…`, or as
/// `--port` or `-p` by the token behind it.
pub open spec fn token_gives(tokens: Seq<Seq<char>>, i: int, port: u16) -> bool {
    ||| exists|value: Seq<char>|
        core_of(tokens, i) == #[trigger] ("PORT="@ + value) && port_value(value) == Some(port)
    ||| exists|value: Seq<char>|
        core_of(tokens, i) == #[trigger] ("--port="@ + value) && port_value(value) == Some(port)
    ||| {
        &&& core_of(tokens, i) == "--port"@ || core_of(tokens, i) == "-p"@
        &&& i + 1 < tokens.len()
        &&& port_value(core_of(tokens, i + 1)) == Some(port)
    }
}

/// What a token gives behind a prefix.
proof fn lemma_port_behind(token: Seq<char>, prefix: Seq<char>, port: u16)
    ensures
        port_behind(token, prefix) == Some(port) <==> exists|value: Seq<char>|
            token == #[trigger] (prefix + value) && port_value(value) == Some(port),
{
    law_occurrence_is_spelled(token, 0, prefix);
    if port_behind(token, prefix) == Some(port) {
        let value = after_prefix(token, prefix)->0;
        assert(token == prefix + value);
    }
    if exists|value: Seq<char>|
        token == #[trigger] (prefix + value) && port_value(value) == Some(port) {
        let value = choose|value: Seq<char>|
            token == #[trigger] (prefix + value) && port_value(value) == Some(port);
        law_occurrence(Seq::empty(), prefix, value);
    }
}

/// What one token of a script gives.
proof fn lemma_token_gives(tokens: Seq<Seq<char>>, i: int, port: u16)
    ensures
        script_token_ports(tokens, i).contains(port) <==> token_gives(tokens, i, port),
{
    let token = core_of(tokens, i);
    let a = crate::ports::as_seq(port_behind(token, "PORT="@));
    let b = crate::ports::as_seq(port_behind(token, "--port="@));
    let flag = if (token == "--port"@ || token == "-p"@) && i + 1 < tokens.len() {
        port_value(core_of(tokens, i + 1))
    } else {
        None
    };
    let c = crate::ports::as_seq(flag);
    let all = script_token_ports(tokens, i);
    assert(all == a + b + c);
    lemma_port_behind(token, "PORT="@, port);
    lemma_port_behind(token, "--port="@, port);
    lemma_three(a, b, c, port);
    lemma_one(port_behind(token, "PORT="@), port);
    lemma_one(port_behind(token, "--port="@), port);
    lemma_one(flag, port);
}

/// Whether at most one port is a given one.
proof fn lemma_one(found: Option<u16>, port: u16)
    ensures
        crate::ports::as_seq(found).contains(port) <==> found == Some(port),
{
    if found is Some {
        assert(crate::ports::as_seq(found)[0] == found->0);
    }
}

/// What three sequences hold together.
proof fn lemma_three(a: Seq<u16>, b: Seq<u16>, c: Seq<u16>, x: u16)
    ensures
        (a + b + c).contains(x) <==> a.contains(x) || b.contains(x) || c.contains(x),
{
    lemma_two(a, b, x);
    lemma_two(a + b, c, x);
}

/// What two sequences hold together.
proof fn lemma_two(a: Seq<u16>, b: Seq<u16>, x: u16)
    ensures
        (a + b).contains(x) <==> a.contains(x) || b.contains(x),
{
    let all = a + b;
    if a.contains(x) {
        let k = choose|k: int| 0 <= k < a.len() && a[k] == x;
        assert(all[k] == x);
    }
    if b.contains(x) {
        let k = choose|k: int| 0 <= k < b.len() && b[k] == x;
        assert(all[k + a.len()] == x);
    }
    if all.contains(x) {
        let k = choose|k: int| 0 <= k < all.len() && all[k] == x;
        if k < a.len() {
            assert(a[k] == x);
        } else {
            assert(b[k - a.len()] == x);
        }
    }
}

/// What the first tokens of a script give.
proof fn lemma_script_mentions_all(tokens: Seq<Seq<char>>, n: int, port: u16)
    requires
        0 <= n <= tokens.len(),
    ensures
        script_mentions(tokens, n).contains(port) <==> exists|i: int|
            0 <= i < n && #[trigger] token_gives(tokens, i, port),
    decreases n,
{
    if n > 0 {
        lemma_script_mentions_all(tokens, n - 1, port);
        lemma_two(script_mentions(tokens, n - 1), script_token_ports(tokens, n - 1), port);
        lemma_token_gives(tokens, n - 1, port);
    }
}

/// A script names exactly the ports that some token of it gives, wherever it stands.
pub proof fn law_script_names_every_port_given(script: Seq<char>, port: u16)
    ensures
        script_ports(script).contains(port) <==> exists|i: int|
            0 <= i < words(script).len() && #[trigger] token_gives(words(script), i, port),
{
    let tokens = words(script);
    lemma_script_mentions_all(tokens, tokens.len() as int, port);
    law_first_seen(script_mentions(tokens, tokens.len() as int));
}

/// A mapping gives the port between its last colon and the one before it, or its start. What
/// follows a slash does not count, and without a colon there is none.
pub proof fn law_mapping_gives_the_host_port(
    front: Seq<char>,
    host: Seq<char>,
    inside: Seq<char>,
    protocol: Seq<char>,
)
    requires
        !front.contains('/'),
        !host.contains('/'),
        !inside.contains('/'),
        !host.contains(':'),
        !inside.contains(':'),
    ensures
        mapping_host_port(host + seq![':'] + inside) == port_value(host),
        mapping_host_port(front + seq![':'] + host + seq![':'] + inside) == port_value(host),
        mapping_host_port(host + seq![':'] + inside + seq!['/'] + protocol) == port_value(host),
        mapping_host_port(front + seq![':'] + host + seq![':'] + inside + seq!['/'] + protocol)
            == port_value(host),
        mapping_host_port(host) is None,
        mapping_host_port(host + seq!['/'] + protocol) is None,
{
    let short = host + seq![':'] + inside;
    let long = front + seq![':'] + host + seq![':'] + inside;
    let colon = CharSet::Only(':');
    lemma_only(host, ':');
    lemma_only(inside, ':');
    law_split_without_separator(host, colon);
    law_split_without_separator(inside, colon);
    law_split_at_separator(host, ':', inside, colon);
    assert(split_on(short, colon) =~= seq![host, inside]);
    law_split_at_separator(front, ':', short, colon);
    assert(long =~= front + seq![':'] + short);
    let parts = split_on(long, colon);
    assert(parts[parts.len() - 2] == host);
    assert(!short.contains('/')) by {
        if short.contains('/') {
            let k = choose|k: int| 0 <= k < short.len() && short[k] == '/';
            if k < host.len() {
                assert(host[k] == '/');
            } else if k > host.len() {
                assert(inside[k - host.len() - 1] == '/');
            }
        }
    }
    assert(!long.contains('/')) by {
        if long.contains('/') {
            let k = choose|k: int| 0 <= k < long.len() && long[k] == '/';
            if k < front.len() {
                assert(front[k] == '/');
            } else if k > front.len() {
                assert(short[k - front.len() - 1] == '/');
            }
        }
    }
    law_before_char(short, '/', protocol);
    law_before_char(long, '/', protocol);
    law_before_char(host, '/', protocol);
    assert(colon.has(short[host.len() as int]));
    assert(colon.has(long[front.len() as int]));
    let short_with = short + seq!['/'] + protocol;
    let long_with = long + seq!['/'] + protocol;
    assert(colon.has(short_with[host.len() as int]));
    assert(colon.has(long_with[front.len() as int]));
}

/// Text that does not contain a character does not mention it.
proof fn lemma_only(s: Seq<char>, c: char)
    requires
        !s.contains(c),
    ensures
        !mentions(s, CharSet::Only(c)),
{
    assert forall|i: int| 0 <= i < s.len() implies !CharSet::Only(c).has(#[trigger] s[i]) by {
        assert(s.contains(s[i]));
    }
}

/// A word of a compose file counts without the punctuation around it and the dashes before it.
pub proof fn law_compose_word_is_bared(
    lead: Seq<char>,
    dashes: Seq<char>,
    body: Seq<char>,
    tail: Seq<char>,
)
    requires
        all_in(lead, CharSet::Punctuation),
        all_in(tail, CharSet::Punctuation),
        all_in(dashes, CharSet::Only('-')),
        body.len() > 0,
        bare(body, CharSet::Punctuation),
        bare(body, CharSet::WhiteSpace),
        body[0] != '-',
    ensures
        compose_token(lead + (dashes + body) + tail) == body,
{
    let middle = dashes + body;
    if dashes.len() > 0 {
        assert(CharSet::Only('-').has(dashes[0]));
        assert(middle[0] == dashes[0]);
    } else {
        assert(middle[0] == body[0]);
    }
    assert(middle.last() == body.last());
    law_strip_leaves_the_middle(lead, middle, tail, CharSet::Punctuation);
    law_strip_front_leaves_the_rest(dashes, body, CharSet::Only('-'));
    lemma_nothing_to_strip(body, CharSet::WhiteSpace);
}

/// What the first words of a compose file's line map.
proof fn lemma_compose_mentions_all(line_words: Seq<Seq<char>>, n: int, port: u16)
    requires
        0 <= n <= line_words.len(),
    ensures
        compose_mentions(line_words, n).contains(port) <==> exists|i: int|
            0 <= i < n && mapping_host_port(compose_token(#[trigger] line_words[i])) == Some(port),
    decreases n,
{
    if n > 0 {
        lemma_compose_mentions_all(line_words, n - 1, port);
        let last = mapping_host_port(compose_token(line_words[n - 1]));
        lemma_two(compose_mentions(line_words, n - 1), crate::ports::as_seq(last), port);
        lemma_one(last, port);
    }
}

/// A line of a compose file maps exactly the ports of its words, wherever they stand. What follows
/// a `#` does not count.
pub proof fn law_compose_line_maps_every_word(line: Seq<char>, comment: Seq<char>, port: u16)
    requires
        !line.contains('#'),
    ensures
        compose_line_ports(line).contains(port) <==> exists|i: int|
            0 <= i < words(trimmed(line)).len() && mapping_host_port(
                compose_token(#[trigger] words(trimmed(line))[i]),
            ) == Some(port),
        compose_line_ports(line + seq!['#'] + comment) == compose_line_ports(line),
{
    law_before_char(line, '#', comment);
    let line_words = words(trimmed(line));
    lemma_compose_mentions_all(line_words, line_words.len() as int, port);
    law_first_seen(compose_mentions(line_words, line_words.len() as int));
}

/// What the first tokens of a script give, token by token.
proof fn lemma_script_in_order(tokens: Seq<Seq<char>>, n: int)
    requires
        0 <= n <= tokens.len(),
    ensures
        script_mentions(tokens, n) == Seq::new(
            tokens.len(),
            |i: int| script_token_ports(tokens, i),
        ).take(n).flatten(),
    decreases n,
{
    let parts = Seq::new(tokens.len(), |i: int| script_token_ports(tokens, i));
    if n > 0 {
        lemma_script_in_order(tokens, n - 1);
        lemma_strung_push(parts, n);
    } else {
        assert(parts.take(0).len() == 0);
        assert(parts.take(0).flatten() =~= Seq::empty());
    }
}

/// What the first words of a compose file's line map, word by word.
proof fn lemma_compose_in_order(line_words: Seq<Seq<char>>, n: int)
    requires
        0 <= n <= line_words.len(),
    ensures
        compose_mentions(line_words, n) == picked(
            line_words.take(n),
            |word: Seq<char>| mapping_host_port(compose_token(word)),
        ),
    decreases n,
{
    let mapped = |word: Seq<char>| mapping_host_port(compose_token(word));
    if n > 0 {
        lemma_compose_in_order(line_words, n - 1);
        lemma_picked_push(line_words, mapped, n);
        let before = compose_mentions(line_words, n - 1);
        match mapped(line_words[n - 1]) {
            Some(port) => {
                assert(before + seq![port] =~= before.push(port));
            },
            None => {
                assert(before + Seq::<u16>::empty() =~= before);
            },
        }
    } else {
        lemma_picked_none(line_words, mapped);
    }
}

/// The ports of a script, and those of a line of a compose file, come in the order in which they are
/// first given.
pub proof fn law_ports_come_in_the_order_given(script: Seq<char>, line: Seq<char>)
    requires
        !line.contains('#'),
    ensures
        script_ports(script) == first_seen(
            Seq::new(
                words(script).len(),
                |i: int| script_token_ports(words(script), i),
            ).flatten(),
        ),
        compose_line_ports(line) == first_seen(
            picked(
                words(trimmed(line)),
                |word: Seq<char>| mapping_host_port(compose_token(word)),
            ),
        ),
{
    let tokens = words(script);
    let n = tokens.len() as int;
    let parts = Seq::new(tokens.len(), |i: int| script_token_ports(tokens, i));
    assert(parts.take(n) =~= parts);
    lemma_script_in_order(tokens, n);
    let line_words = words(trimmed(line));
    assert(line_words.take(line_words.len() as int) =~= line_words);
    lemma_compose_in_order(line_words, line_words.len() as int);
    law_before_char(line, '#', line);
}

} // verus!
