//! Text as sequences of characters: classes of characters, trimming, splitting and searching.

use vstd::prelude::*;
use vstd::slice::slice_subrange;

verus! {

/// `String::push` appends the given character to the end of the string.
pub assume_specification[ String::push ](s: &mut String, c: char)
    ensures
        final(s)@ == old(s)@.push(c),
;

/// A class of characters.
#[derive(Clone, Copy, PartialEq, Eq, Structural, Debug)]
pub enum CharSet {
    /// The Unicode property `White_Space`.
    WhiteSpace,
    /// The Unicode category `Cc`.
    Control,
    /// The ASCII digits.
    Digit,
    /// Letters, digits and the underscore, all ASCII.
    Identifier,
    /// Single and double quotes.
    Quote,
    /// Quotes and the brackets that open a group.
    Opening,
    /// Quotes, commas, semicolons and brackets of every kind.
    Punctuation,
    /// Exactly one character.
    Only(char),
}

impl CharSet {
    /// Whether the class holds `c`.
    pub open spec fn has(self, c: char) -> bool {
        match self {
            CharSet::WhiteSpace => {
                ||| '\u{9}' <= c <= '\u{d}'
                ||| c == ' '
                ||| c == '\u{85}'
                ||| c == '\u{a0}'
                ||| c == '\u{1680}'
                ||| '\u{2000}' <= c <= '\u{200a}'
                ||| c == '\u{2028}'
                ||| c == '\u{2029}'
                ||| c == '\u{202f}'
                ||| c == '\u{205f}'
                ||| c == '\u{3000}'
            },
            CharSet::Control => c <= '\u{1f}' || '\u{7f}' <= c <= '\u{9f}',
            CharSet::Digit => '0' <= c <= '9',
            CharSet::Identifier => {
                ||| '0' <= c <= '9'
                ||| 'a' <= c <= 'z'
                ||| 'A' <= c <= 'Z'
                ||| c == '_'
            },
            CharSet::Quote => c == '"' || c == '\'',
            CharSet::Opening => c == '"' || c == '\'' || c == '(' || c == '[' || c == '{',
            CharSet::Punctuation => {
                ||| c == '"'
                ||| c == '\''
                ||| c == ','
                ||| c == ';'
                ||| c == '('
                ||| c == ')'
                ||| c == '['
                ||| c == ']'
                ||| c == '{'
                ||| c == '}'
            },
            CharSet::Only(only) => c == only,
        }
    }

    /// Tests whether the class holds `c`.
    pub fn contains(self, c: char) -> (r: bool)
        ensures
            r == self.has(c),
    {
        match self {
            CharSet::WhiteSpace => ('\u{9}' <= c && c <= '\u{d}') || c == ' ' || c == '\u{85}' || c
                == '\u{a0}' || c == '\u{1680}' || ('\u{2000}' <= c && c <= '\u{200a}') || c
                == '\u{2028}' || c == '\u{2029}' || c == '\u{202f}' || c == '\u{205f}' || c
                == '\u{3000}',
            CharSet::Control => c <= '\u{1f}' || ('\u{7f}' <= c && c <= '\u{9f}'),
            CharSet::Digit => '0' <= c && c <= '9',
            CharSet::Identifier => ('0' <= c && c <= '9') || ('a' <= c && c <= 'z') || ('A' <= c
                && c <= 'Z') || c == '_',
            CharSet::Quote => c == '"' || c == '\'',
            CharSet::Opening => c == '"' || c == '\'' || c == '(' || c == '[' || c == '{',
            CharSet::Punctuation => c == '"' || c == '\'' || c == ',' || c == ';' || c == '(' || c
                == ')' || c == '[' || c == ']' || c == '{' || c == '}',
            CharSet::Only(only) => c == only,
        }
    }
}

/// The length of the longest prefix made of characters in `set`.
pub open spec fn prefix_in(s: Seq<char>, set: CharSet) -> nat
    decreases s.len(),
{
    if s.len() > 0 && set.has(s[0]) {
        1 + prefix_in(s.drop_first(), set)
    } else {
        0
    }
}

/// The length of the longest prefix made of characters outside `set`.
pub open spec fn prefix_outside(s: Seq<char>, set: CharSet) -> nat
    decreases s.len(),
{
    if s.len() > 0 && !set.has(s[0]) {
        1 + prefix_outside(s.drop_first(), set)
    } else {
        0
    }
}

/// The length of the longest suffix made of characters in `set`.
pub open spec fn suffix_in(s: Seq<char>, set: CharSet) -> nat
    decreases s.len(),
{
    if s.len() > 0 && set.has(s.last()) {
        1 + suffix_in(s.drop_last(), set)
    } else {
        0
    }
}

/// `s` without the characters of `set` at its start.
pub open spec fn front_stripped(s: Seq<char>, set: CharSet) -> Seq<char> {
    s.skip(prefix_in(s, set) as int)
}

/// `s` without the characters of `set` at its end.
pub open spec fn back_stripped(s: Seq<char>, set: CharSet) -> Seq<char> {
    s.take(s.len() - suffix_in(s, set))
}

/// `s` without the characters of `set` at both ends.
pub open spec fn stripped(s: Seq<char>, set: CharSet) -> Seq<char> {
    back_stripped(front_stripped(s, set), set)
}

/// `s` without white space at both ends.
pub open spec fn trimmed(s: Seq<char>) -> Seq<char> {
    stripped(s, CharSet::WhiteSpace)
}

/// `s` without white space at its start.
pub open spec fn trimmed_front(s: Seq<char>) -> Seq<char> {
    front_stripped(s, CharSet::WhiteSpace)
}

/// Whether some character of `s` is in `set`.
pub open spec fn mentions(s: Seq<char>, set: CharSet) -> bool {
    exists|i: int| 0 <= i < s.len() && set.has(#[trigger] s[i])
}

/// `prefix_in` is the one length at which a run of characters in `set` stops.
pub proof fn lemma_prefix_in(s: Seq<char>, set: CharSet, n: int)
    requires
        0 <= n <= s.len(),
        forall|j: int| 0 <= j < n ==> set.has(#[trigger] s[j]),
        n == s.len() || !set.has(s[n]),
    ensures
        prefix_in(s, set) == n,
    decreases s.len(),
{
    if n > 0 {
        assert(set.has(s[0]));
        let rest = s.drop_first();
        assert forall|j: int| 0 <= j < n - 1 implies set.has(#[trigger] rest[j]) by {
            assert(rest[j] == s[j + 1]);
        }
        lemma_prefix_in(rest, set, n - 1);
    }
}

/// What `prefix_in` counts: the characters before it are in `set`, the one at it is not.
pub proof fn lemma_prefix_in_bounds(s: Seq<char>, set: CharSet)
    ensures
        prefix_in(s, set) <= s.len(),
        forall|j: int| 0 <= j < prefix_in(s, set) ==> set.has(#[trigger] s[j]),
        prefix_in(s, set) < s.len() ==> !set.has(s[prefix_in(s, set) as int]),
    decreases s.len(),
{
    if s.len() > 0 && set.has(s[0]) {
        let rest = s.drop_first();
        lemma_prefix_in_bounds(rest, set);
        assert forall|j: int| 0 <= j < prefix_in(s, set) implies set.has(#[trigger] s[j]) by {
            if j > 0 {
                assert(rest[j - 1] == s[j]);
            }
        }
    }
}

/// `prefix_outside` is the one length at which a run of characters outside `set` stops.
pub proof fn lemma_prefix_outside(s: Seq<char>, set: CharSet, n: int)
    requires
        0 <= n <= s.len(),
        forall|j: int| 0 <= j < n ==> !set.has(#[trigger] s[j]),
        n == s.len() || set.has(s[n]),
    ensures
        prefix_outside(s, set) == n,
    decreases s.len(),
{
    if n > 0 {
        assert(!set.has(s[0]));
        let rest = s.drop_first();
        assert forall|j: int| 0 <= j < n - 1 implies !set.has(#[trigger] rest[j]) by {
            assert(rest[j] == s[j + 1]);
        }
        lemma_prefix_outside(rest, set, n - 1);
    }
}

/// What `prefix_outside` counts: the characters before it are outside `set`, the one at it is not.
pub proof fn lemma_prefix_outside_bounds(s: Seq<char>, set: CharSet)
    ensures
        prefix_outside(s, set) <= s.len(),
        forall|j: int| 0 <= j < prefix_outside(s, set) ==> !set.has(#[trigger] s[j]),
        prefix_outside(s, set) < s.len() ==> set.has(s[prefix_outside(s, set) as int]),
    decreases s.len(),
{
    if s.len() > 0 && !set.has(s[0]) {
        let rest = s.drop_first();
        lemma_prefix_outside_bounds(rest, set);
        assert forall|j: int| 0 <= j < prefix_outside(s, set) implies !set.has(#[trigger] s[j]) by {
            if j > 0 {
                assert(rest[j - 1] == s[j]);
            }
        }
    }
}

/// `suffix_in` is the one length at which a run of characters in `set`, read from the end, stops.
pub proof fn lemma_suffix_in(s: Seq<char>, set: CharSet, n: int)
    requires
        0 <= n <= s.len(),
        forall|j: int| s.len() - n <= j < s.len() ==> set.has(#[trigger] s[j]),
        n == s.len() || !set.has(s[s.len() - n - 1]),
    ensures
        suffix_in(s, set) == n,
    decreases s.len(),
{
    if n > 0 {
        assert(set.has(s[s.len() - 1]));
        lemma_suffix_in(s.drop_last(), set, n - 1);
    }
}

/// What `suffix_in` counts: the characters from it on are in `set`, the one before it is not.
pub proof fn lemma_suffix_in_bounds(s: Seq<char>, set: CharSet)
    ensures
        suffix_in(s, set) <= s.len(),
        forall|j: int| s.len() - suffix_in(s, set) <= j < s.len() ==> set.has(#[trigger] s[j]),
        suffix_in(s, set) < s.len() ==> !set.has(s[s.len() - suffix_in(s, set) - 1]),
    decreases s.len(),
{
    if s.len() > 0 && set.has(s.last()) {
        let rest = s.drop_last();
        lemma_suffix_in_bounds(rest, set);
        assert forall|j: int| s.len() - suffix_in(s, set) <= j < s.len() implies set.has(
            #[trigger] s[j],
        ) by {
            if j < s.len() - 1 {
                assert(rest[j] == s[j]);
            }
        }
    }
}

/// The characters of a string.
pub fn chars_of(s: &str) -> (r: Vec<char>)
    ensures
        r@ == s@,
{
    let mut out: Vec<char> = Vec::new();
    for c in it: s.chars()
        invariant
            out@ == it.seq().take(it.index()),
            it.seq() == s@,
    {
        out.push(c);
    }
    out
}

/// The string made of the given characters.
pub fn text_of(chars: &[char]) -> (r: String)
    ensures
        r@ == chars@,
{
    let mut out = String::new();
    let mut i: usize = 0;
    while i < chars.len()
        invariant
            i <= chars@.len(),
            out@ == chars@.take(i as int),
        decreases chars.len() - i,
    {
        out.push(chars[i]);
        i += 1;
    }
    out
}

/// Counts the leading characters in `set`.
pub fn count_prefix_in(s: &[char], set: CharSet) -> (r: usize)
    ensures
        r == prefix_in(s@, set),
        r <= s@.len(),
{
    let mut i: usize = 0;
    while i < s.len() && set.contains(s[i])
        invariant
            i <= s@.len(),
            forall|j: int| 0 <= j < i ==> set.has(#[trigger] s@[j]),
        decreases s.len() - i,
    {
        i += 1;
    }
    proof {
        lemma_prefix_in(s@, set, i as int);
    }
    i
}

/// Counts the leading characters outside `set`.
pub fn count_prefix_outside(s: &[char], set: CharSet) -> (r: usize)
    ensures
        r == prefix_outside(s@, set),
        r <= s@.len(),
{
    let mut i: usize = 0;
    while i < s.len() && !set.contains(s[i])
        invariant
            i <= s@.len(),
            forall|j: int| 0 <= j < i ==> !set.has(#[trigger] s@[j]),
        decreases s.len() - i,
    {
        i += 1;
    }
    proof {
        lemma_prefix_outside(s@, set, i as int);
    }
    i
}

/// Drops the leading characters in `set`.
pub fn strip_front(s: &[char], set: CharSet) -> (r: &[char])
    ensures
        r@ == front_stripped(s@, set),
{
    let n = count_prefix_in(s, set);
    slice_subrange(s, n, s.len())
}

/// Drops the trailing characters in `set`.
pub fn strip_back(s: &[char], set: CharSet) -> (r: &[char])
    ensures
        r@ == back_stripped(s@, set),
{
    let mut end: usize = s.len();
    while end > 0 && set.contains(s[end - 1])
        invariant
            end <= s@.len(),
            forall|j: int| end <= j < s@.len() ==> set.has(#[trigger] s@[j]),
        decreases end,
    {
        end -= 1;
    }
    proof {
        lemma_suffix_in(s@, set, s@.len() - end);
    }
    slice_subrange(s, 0, end)
}

/// Drops the characters in `set` at both ends.
pub fn strip(s: &[char], set: CharSet) -> (r: &[char])
    ensures
        r@ == stripped(s@, set),
{
    strip_back(strip_front(s, set), set)
}

/// Drops white space at both ends.
pub fn trim(s: &[char]) -> (r: &[char])
    ensures
        r@ == trimmed(s@),
{
    strip(s, CharSet::WhiteSpace)
}

/// Drops white space at the start.
pub fn trim_front(s: &[char]) -> (r: &[char])
    ensures
        r@ == trimmed_front(s@),
{
    strip_front(s, CharSet::WhiteSpace)
}

/// Tests whether some character is in `set`.
pub fn any_in(s: &[char], set: CharSet) -> (r: bool)
    ensures
        r == mentions(s@, set),
{
    let n = count_prefix_outside(s, set);
    proof {
        lemma_prefix_outside_bounds(s@, set);
    }
    n < s.len()
}

/// The pieces of `s` between the characters of `sep`: one more than there are such characters.
pub open spec fn split_on(s: Seq<char>, sep: CharSet) -> Seq<Seq<char>>
    decreases s.len(),
{
    let n = prefix_outside(s, sep);
    if n < s.len() {
        seq![s.take(n as int)] + split_on(s.skip(n + 1int), sep)
    } else {
        seq![s]
    }
}

/// The part of `s` before the first occurrence of `sep`, or all of it.
pub open spec fn before_char(s: Seq<char>, sep: char) -> Seq<char> {
    s.take(prefix_outside(s, CharSet::Only(sep)) as int)
}

/// The words of `s`: its longest runs of characters that are not white space.
pub open spec fn words(s: Seq<char>) -> Seq<Seq<char>>
    decreases s.len(),
    via words_decreases
{
    let rest = trimmed_front(s);
    if rest.len() == 0 {
        Seq::empty()
    } else {
        let n = prefix_outside(rest, CharSet::WhiteSpace);
        seq![rest.take(n as int)] + words(rest.skip(n as int))
    }
}

#[via_fn]
proof fn words_decreases(s: Seq<char>) {
    lemma_prefix_in_bounds(s, CharSet::WhiteSpace);
    lemma_prefix_outside_bounds(trimmed_front(s), CharSet::WhiteSpace);
}

/// A line without the carriage return that may stand before its line feed.
pub open spec fn without_carriage_return(line: Seq<char>) -> Seq<char> {
    if line.len() > 0 && line.last() == '\r' {
        line.drop_last()
    } else {
        line
    }
}

/// The lines of `s`. Each line feed ends a line; text after the last one is a line too.
pub open spec fn lines(s: Seq<char>) -> Seq<Seq<char>>
    decreases s.len(),
{
    if s.len() == 0 {
        Seq::empty()
    } else {
        let n = prefix_outside(s, CharSet::Only('\n'));
        if n < s.len() {
            seq![without_carriage_return(s.take(n as int))] + lines(s.skip(n as int + 1))
        } else {
            seq![s]
        }
    }
}

/// Whether `pattern` stands in `s` at position `i`.
pub open spec fn occurs_at(s: Seq<char>, i: int, pattern: Seq<char>) -> bool {
    0 <= i && i + pattern.len() <= s.len() && s.subrange(i, i + pattern.len()) == pattern
}

/// Whether `s` begins with `pattern`.
pub open spec fn begins_with(s: Seq<char>, pattern: Seq<char>) -> bool {
    occurs_at(s, 0, pattern)
}

/// Whether `s` ends with `pattern`.
pub open spec fn finishes_with(s: Seq<char>, pattern: Seq<char>) -> bool {
    occurs_at(s, s.len() - pattern.len(), pattern)
}

/// What follows `pattern` where `s` begins with it.
pub open spec fn after_prefix(s: Seq<char>, pattern: Seq<char>) -> Option<Seq<char>> {
    if begins_with(s, pattern) {
        Some(s.skip(pattern.len() as int))
    } else {
        None
    }
}

/// The first position from `i` on at which `pattern` stands in `s`.
pub open spec fn occurrence_from(s: Seq<char>, pattern: Seq<char>, i: int) -> Option<int>
    decreases s.len() + 1 - i,
{
    if i < 0 || i > s.len() {
        None
    } else if occurs_at(s, i, pattern) {
        Some(i)
    } else {
        occurrence_from(s, pattern, i + 1)
    }
}

/// The first position at which `pattern` stands in `s`.
pub open spec fn first_occurrence(s: Seq<char>, pattern: Seq<char>) -> Option<int> {
    occurrence_from(s, pattern, 0)
}

/// The last position up to `i` at which `pattern` stands in `s`.
pub open spec fn occurrence_up_to(s: Seq<char>, pattern: Seq<char>, i: int) -> Option<int>
    decreases i + 1,
{
    if i < 0 {
        None
    } else if occurs_at(s, i, pattern) {
        Some(i)
    } else {
        occurrence_up_to(s, pattern, i - 1)
    }
}

/// The last position at which `pattern` stands in `s`.
pub open spec fn last_occurrence(s: Seq<char>, pattern: Seq<char>) -> Option<int> {
    occurrence_up_to(s, pattern, s.len() as int)
}

/// The contents of each string in a vector.
pub open spec fn texts(v: Seq<Vec<char>>) -> Seq<Seq<char>> {
    Seq::new(v.len(), |i: int| v[i]@)
}

/// The contents of each string in a vector.
pub open spec fn strings(v: Seq<String>) -> Seq<Seq<char>> {
    Seq::new(v.len(), |i: int| v[i]@)
}

/// A string as text, where there is one.
pub open spec fn optional(s: Option<String>) -> Option<Seq<char>> {
    match s {
        Some(s) => Some(s@),
        None => None,
    }
}

/// A string slice as text, where there is one.
pub open spec fn optional_str(s: Option<&str>) -> Option<Seq<char>> {
    match s {
        Some(s) => Some(s@),
        None => None,
    }
}

/// Copies a slice of characters.
pub fn copy_chars(s: &[char]) -> (r: Vec<char>)
    ensures
        r@ == s@,
{
    let mut out: Vec<char> = Vec::new();
    let mut i: usize = 0;
    while i < s.len()
        invariant
            i <= s@.len(),
            out@ == s@.take(i as int),
        decreases s.len() - i,
    {
        out.push(s[i]);
        i += 1;
    }
    out
}

/// Cuts `s` at every character of `sep`.
pub fn split(s: &[char], sep: CharSet) -> (r: Vec<Vec<char>>)
    ensures
        texts(r@) == split_on(s@, sep),
        r@.len() > 0,
{
    let mut out: Vec<Vec<char>> = Vec::new();
    let mut rest: &[char] = s;
    let mut more: bool = true;
    while more
        invariant
            more ==> split_on(s@, sep) == texts(out@) + split_on(rest@, sep),
            !more ==> split_on(s@, sep) == texts(out@) && out@.len() > 0,
        decreases
            rest@.len() + (if more {
                1nat
            } else {
                0nat
            }),
    {
        let n = count_prefix_outside(rest, sep);
        let ghost before = texts(out@);
        if n < rest.len() {
            out.push(copy_chars(slice_subrange(rest, 0, n)));
            proof {
                assert(texts(out@) =~= before.push(rest@.take(n as int)));
                assert(before.push(rest@.take(n as int)) + split_on(rest@.skip(n + 1), sep)
                    =~= before + (seq![rest@.take(n as int)] + split_on(rest@.skip(n + 1), sep)));
                assert(rest@.skip(n + 1) =~= rest@.subrange(n + 1, rest@.len() as int));
            }
            rest = slice_subrange(rest, n + 1, rest.len());
        } else {
            out.push(copy_chars(rest));
            proof {
                assert(texts(out@) =~= before + seq![rest@]);
            }
            more = false;
        }
    }
    out
}

/// The part before the first `sep`, or all of `s`.
pub fn take_before(s: &[char], sep: char) -> (r: &[char])
    ensures
        r@ == before_char(s@, sep),
{
    let n = count_prefix_outside(s, CharSet::Only(sep));
    slice_subrange(s, 0, n)
}

/// Cuts `s` into its words.
pub fn split_words(s: &[char]) -> (r: Vec<Vec<char>>)
    ensures
        texts(r@) == words(s@),
{
    let mut out: Vec<Vec<char>> = Vec::new();
    let mut rest: &[char] = trim_front(s);
    proof {
        lemma_words_trimmed(s@);
        assert(texts(out@) + words(rest@) =~= words(rest@));
    }
    while rest.len() > 0
        invariant
            words(s@) == texts(out@) + words(rest@),
            trimmed_front(rest@) == rest@,
        decreases rest@.len(),
    {
        let n = count_prefix_outside(rest, CharSet::WhiteSpace);
        let ghost before = texts(out@);
        let ghost here = rest@;
        out.push(copy_chars(slice_subrange(rest, 0, n)));
        let tail = slice_subrange(rest, n, rest.len());
        proof {
            lemma_prefix_in_bounds(here, CharSet::WhiteSpace);
            lemma_prefix_outside_bounds(here, CharSet::WhiteSpace);
            assert(prefix_in(here, CharSet::WhiteSpace) == 0) by {
                assert(here.skip(prefix_in(here, CharSet::WhiteSpace) as int).len()
                    == here.len() - prefix_in(here, CharSet::WhiteSpace));
            }
            assert(!CharSet::WhiteSpace.has(here[0]));
            assert(n > 0);
            assert(tail@ =~= here.skip(n as int));
            assert(texts(out@) =~= before.push(here.take(n as int)));
            assert(before.push(here.take(n as int)) + words(tail@) =~= before + (seq![
                here.take(n as int),
            ] + words(tail@)));
            lemma_words_trimmed(tail@);
            lemma_prefix_in_bounds(tail@, CharSet::WhiteSpace);
        }
        rest = trim_front(tail);
    }
    proof {
        assert(words(rest@) =~= Seq::empty());
        assert(texts(out@) + Seq::<Seq<char>>::empty() =~= texts(out@));
    }
    out
}

/// White space at the start of a text does not change its words.
proof fn lemma_words_trimmed(s: Seq<char>)
    ensures
        words(trimmed_front(s)) == words(s),
        trimmed_front(trimmed_front(s)) == trimmed_front(s),
{
    let rest = trimmed_front(s);
    lemma_prefix_in_bounds(s, CharSet::WhiteSpace);
    lemma_prefix_in(rest, CharSet::WhiteSpace, 0);
    assert(rest.skip(0) =~= rest);
}

/// Cuts `s` into its lines.
pub fn split_lines(s: &[char]) -> (r: Vec<Vec<char>>)
    ensures
        texts(r@) == lines(s@),
{
    let mut out: Vec<Vec<char>> = Vec::new();
    let mut rest: &[char] = s;
    proof {
        assert(texts(out@) + lines(rest@) =~= lines(rest@));
    }
    while rest.len() > 0
        invariant
            lines(s@) == texts(out@) + lines(rest@),
        decreases rest@.len(),
    {
        let n = count_prefix_outside(rest, CharSet::Only('\n'));
        let ghost before = texts(out@);
        if n < rest.len() {
            let end: usize = if n > 0 && rest[n - 1] == '\r' {
                n - 1
            } else {
                n
            };
            out.push(copy_chars(slice_subrange(rest, 0, end)));
            let tail = slice_subrange(rest, n + 1, rest.len());
            proof {
                let line = without_carriage_return(rest@.take(n as int));
                assert(rest@.subrange(0, end as int) =~= line);
                assert(tail@ =~= rest@.skip(n + 1));
                assert(texts(out@) =~= before.push(line));
                assert(before.push(line) + lines(tail@) =~= before + (seq![line] + lines(tail@)));
            }
            rest = tail;
        } else {
            out.push(copy_chars(rest));
            let tail = slice_subrange(rest, n, rest.len());
            proof {
                assert(tail@.len() == 0);
                assert(texts(out@) =~= before + seq![rest@]);
                assert(texts(out@) + lines(tail@) =~= texts(out@));
            }
            rest = tail;
        }
    }
    proof {
        assert(texts(out@) + lines(rest@) =~= texts(out@));
    }
    out
}

/// Tests whether `pattern` stands in `s` at position `i`.
pub fn stands_at(s: &[char], i: usize, pattern: &[char]) -> (r: bool)
    ensures
        r == occurs_at(s@, i as int, pattern@),
{
    if i > s.len() || pattern.len() > s.len() - i {
        return false;
    }
    let mut j: usize = 0;
    while j < pattern.len()
        invariant
            i + pattern@.len() <= s@.len() <= usize::MAX,
            j <= pattern@.len(),
            forall|k: int| 0 <= k < j ==> s@[i + k] == #[trigger] pattern@[k],
        decreases pattern.len() - j,
    {
        if s[i + j] != pattern[j] {
            proof {
                assert(s@.subrange(i as int, i + pattern@.len())[j as int] == s@[i + j]);
            }
            return false;
        }
        j += 1;
    }
    proof {
        assert(s@.subrange(i as int, i + pattern@.len()) =~= pattern@);
    }
    true
}

/// Tests whether `s` begins with `pattern`.
pub fn starts_with(s: &[char], pattern: &str) -> (r: bool)
    ensures
        r == begins_with(s@, pattern@),
{
    let pattern = chars_of(pattern);
    stands_at(s, 0, pattern.as_slice())
}

/// Tests whether `s` ends with `pattern`.
pub fn ends_with(s: &[char], pattern: &str) -> (r: bool)
    ensures
        r == finishes_with(s@, pattern@),
{
    let pattern = chars_of(pattern);
    if pattern.len() > s.len() {
        return false;
    }
    stands_at(s, s.len() - pattern.len(), pattern.as_slice())
}

/// What follows `pattern` where `s` begins with it.
pub fn strip_prefix<'a>(s: &'a [char], pattern: &str) -> (r: Option<&'a [char]>)
    ensures
        match r {
            Some(rest) => after_prefix(s@, pattern@) == Some(rest@),
            None => after_prefix(s@, pattern@) is None,
        },
{
    let pattern = chars_of(pattern);
    if stands_at(s, 0, pattern.as_slice()) {
        Some(slice_subrange(s, pattern.len(), s.len()))
    } else {
        None
    }
}

/// Finds the first position at which `pattern` stands in `s`.
pub fn find(s: &[char], pattern: &str) -> (r: Option<usize>)
    ensures
        match r {
            Some(i) => first_occurrence(s@, pattern@) == Some(i as int) && occurs_at(
                s@,
                i as int,
                pattern@,
            ),
            None => first_occurrence(s@, pattern@) is None,
        },
{
    let pattern_chars = chars_of(pattern);
    let mut i: usize = 0;
    while i < s.len()
        invariant
            i <= s@.len(),
            pattern_chars@ == pattern@,
            first_occurrence(s@, pattern@) == occurrence_from(s@, pattern@, i as int),
        decreases s.len() - i,
    {
        if stands_at(s, i, pattern_chars.as_slice()) {
            return Some(i);
        }
        i += 1;
    }
    proof {
        assert(occurrence_from(s@, pattern@, s@.len() as int + 1) is None);
    }
    if stands_at(s, i, pattern_chars.as_slice()) {
        return Some(i);
    }
    None
}

/// Finds the last position at which `pattern` stands in `s`.
pub fn rfind(s: &[char], pattern: &str) -> (r: Option<usize>)
    ensures
        match r {
            Some(i) => last_occurrence(s@, pattern@) == Some(i as int) && occurs_at(
                s@,
                i as int,
                pattern@,
            ),
            None => last_occurrence(s@, pattern@) is None,
        },
{
    let pattern_chars = chars_of(pattern);
    let mut i: usize = s.len();
    while i > 0
        invariant
            i <= s@.len(),
            pattern_chars@ == pattern@,
            last_occurrence(s@, pattern@) == occurrence_up_to(s@, pattern@, i as int),
        decreases i,
    {
        if stands_at(s, i, pattern_chars.as_slice()) {
            return Some(i);
        }
        i -= 1;
    }
    proof {
        assert(occurrence_up_to(s@, pattern@, -1) is None);
    }
    if stands_at(s, 0, pattern_chars.as_slice()) {
        return Some(0);
    }
    None
}

/// Tests whether two strings hold the same characters.
pub fn same_text(a: &str, b: &str) -> (r: bool)
    ensures
        r == (a@ == b@),
{
    a.to_owned() == b.to_owned()
}

/// Tests whether characters spell a string.
pub fn spells(a: &[char], b: &str) -> (r: bool)
    ensures
        r == (a@ == b@),
{
    let b = chars_of(b);
    if a.len() != b.len() {
        return false;
    }
    let r = stands_at(a, 0, b.as_slice());
    proof {
        assert(a@.subrange(0, a@.len() as int) =~= a@);
    }
    r
}

/// Two strings, one after the other.
pub fn concat(a: &str, b: &str) -> (r: String)
    ensures
        r@ == a@ + b@,
{
    let mut out = a.to_owned();
    out.append(b);
    out
}

/// Whether some string in a list is this text.
pub fn lists_text(texts: &[String], text: &str) -> (r: bool)
    ensures
        r == strings(texts@).contains(text@),
{
    let ghost all = strings(texts@);
    let mut i: usize = 0;
    while i < texts.len()
        invariant
            i <= texts@.len(),
            all == strings(texts@),
            forall|j: int| 0 <= j < i ==> #[trigger] all[j] != text@,
        decreases texts.len() - i,
    {
        proof {
            assert(all[i as int] == texts@[i as int]@);
        }
        if same_text(texts[i].as_str(), text) {
            return true;
        }
        i += 1;
    }
    false
}

/// Splitting two texts with a separator between them splits both.
pub proof fn law_split_at_separator(a: Seq<char>, c: char, b: Seq<char>, sep: CharSet)
    requires
        sep.has(c),
    ensures
        split_on(a + seq![c] + b, sep) == split_on(a, sep) + split_on(b, sep),
    decreases a.len(),
{
    let s = a + seq![c] + b;
    let n = prefix_outside(a, sep) as int;
    lemma_prefix_outside_bounds(a, sep);
    assert forall|j: int| 0 <= j < n implies !sep.has(#[trigger] s[j]) by {
        assert(s[j] == a[j]);
    }
    if n < a.len() {
        assert(s[n] == a[n]);
        lemma_prefix_outside(s, sep, n);
        let rest = a.skip(n + 1);
        law_split_at_separator(rest, c, b, sep);
        assert(s.skip(n + 1) =~= rest + seq![c] + b);
        assert(s.take(n) =~= a.take(n));
        assert(split_on(s, sep) =~= split_on(a, sep) + split_on(b, sep));
    } else {
        assert(s[n] == c);
        lemma_prefix_outside(s, sep, n);
        assert(s.skip(n + 1) =~= b);
        assert(s.take(n) =~= a);
        assert(split_on(s, sep) =~= split_on(a, sep) + split_on(b, sep));
    }
}

/// A text without a separator is its only piece.
pub proof fn law_split_without_separator(s: Seq<char>, sep: CharSet)
    requires
        !mentions(s, sep),
    ensures
        split_on(s, sep) == seq![s],
{
    assert forall|j: int| 0 <= j < s.len() implies !sep.has(#[trigger] s[j]) by {}
    lemma_prefix_outside(s, sep, s.len() as int);
}

/// No piece holds a separator.
pub proof fn law_pieces_hold_no_separator(s: Seq<char>, sep: CharSet, i: int)
    requires
        0 <= i < split_on(s, sep).len(),
    ensures
        !mentions(split_on(s, sep)[i], sep),
    decreases s.len(),
{
    let n = prefix_outside(s, sep) as int;
    lemma_prefix_outside_bounds(s, sep);
    if n < s.len() {
        if i > 0 {
            law_pieces_hold_no_separator(s.skip(n + 1), sep, i - 1);
        }
    }
}

/// Nothing is stripped off a text that neither begins nor ends with such a character.
pub proof fn lemma_nothing_to_strip(s: Seq<char>, set: CharSet)
    requires
        s.len() > 0,
        !set.has(s[0]),
        !set.has(s.last()),
    ensures
        front_stripped(s, set) == s,
        stripped(s, set) == s,
{
    lemma_prefix_in(s, set, 0);
    lemma_suffix_in(s, set, 0);
    assert(s.skip(0) =~= s);
    assert(s.take(s.len() as int) =~= s);
}

/// Trimming what is trimmed already changes nothing.
pub proof fn law_trim_is_idempotent(s: Seq<char>)
    ensures
        trimmed(trimmed(s)) == trimmed(s),
{
    let set = CharSet::WhiteSpace;
    let rest = front_stripped(s, set);
    let t = trimmed(s);
    lemma_prefix_in_bounds(s, set);
    lemma_suffix_in_bounds(rest, set);
    if t.len() > 0 {
        assert(t[0] == rest[0]);
        assert(rest[0] == s[prefix_in(s, set) as int]);
        assert(t.last() == rest[rest.len() - suffix_in(rest, set) - 1]);
        lemma_nothing_to_strip(t, set);
    } else {
        assert(trimmed(t) =~= t);
    }
}

} // verus!
