//! What always holds of trimming, cutting and searching text, said of its characters.

use vstd::prelude::*;

use crate::text::{
    after_prefix, back_stripped, before_char, begins_with, finishes_with, first_occurrence,
    front_stripped, last_occurrence, lemma_prefix_in, lemma_prefix_in_bounds, lemma_prefix_outside,
    lemma_prefix_outside_bounds, lemma_suffix_in, lemma_suffix_in_bounds, lines, mentions,
    occurrence_from, occurrence_up_to, occurs_at, prefix_in, prefix_outside, stripped, suffix_in,
    trimmed, trimmed_front, words, CharSet,
};

verus! {

/// Whether every character of `s` is in `set`.
pub open spec fn all_in(s: Seq<char>, set: CharSet) -> bool {
    forall|i: int| 0 <= i < s.len() ==> set.has(#[trigger] s[i])
}

/// Whether no character of `s` is in `set`.
pub open spec fn none_in(s: Seq<char>, set: CharSet) -> bool {
    forall|i: int| 0 <= i < s.len() ==> !set.has(#[trigger] s[i])
}

/// Whether `s` neither begins nor ends with a character of `set`.
pub open spec fn bare(s: Seq<char>, set: CharSet) -> bool {
    s.len() > 0 ==> !set.has(s[0]) && !set.has(s[s.len() - 1])
}

/// Which characters each class holds, by their numbers.
pub proof fn law_classes_by_number(c: char)
    ensures
        ({
            let n = c as int;
            &&& CharSet::WhiteSpace.has(c) <==> 9 <= n <= 13 || n == 32 || n == 0x85 || n == 0xa0
                || n == 0x1680 || 0x2000 <= n <= 0x200a || n == 0x2028 || n == 0x2029 || n == 0x202f
                || n == 0x205f || n == 0x3000
            &&& CharSet::Control.has(c) <==> n < 32 || 127 <= n < 160
            &&& CharSet::Digit.has(c) <==> 48 <= n <= 57
            &&& CharSet::Identifier.has(c) <==> 48 <= n <= 57 || 65 <= n <= 90 || 97 <= n <= 122
                || n == 95
            &&& CharSet::Quote.has(c) <==> n == 34 || n == 39
            &&& CharSet::Opening.has(c) <==> CharSet::Quote.has(c) || seq!['(', '[', '{'].contains(
                c,
            )
            &&& CharSet::Punctuation.has(c) <==> CharSet::Opening.has(c) || seq![
                ',',
                ';',
                ')',
                ']',
                '}',
            ].contains(c)
        }),
        forall|only: char| CharSet::Only(only).has(c) <==> c == only,
{
    let a = seq!['(', '[', '{'];
    assert(a[0] == '(' && a[1] == '[' && a[2] == '{');
    let b = seq![',', ';', ')', ']', '}'];
    assert(b[0] == ',' && b[1] == ';' && b[2] == ')' && b[3] == ']' && b[4] == '}');
}

/// Stripping `lead` and `tail` off a text leaves the middle, where they are made of characters of
/// the class and the middle neither begins nor ends with one.
pub proof fn law_strip_leaves_the_middle(
    lead: Seq<char>,
    middle: Seq<char>,
    tail: Seq<char>,
    set: CharSet,
)
    requires
        all_in(lead, set),
        all_in(tail, set),
        bare(middle, set),
    ensures
        stripped(lead + middle + tail, set) == middle,
        middle.len() > 0 ==> front_stripped(lead + middle + tail, set) == middle + tail,
        middle.len() > 0 ==> back_stripped(lead + middle + tail, set) == lead + middle,
{
    let s = lead + middle + tail;
    if middle.len() == 0 {
        assert forall|j: int| 0 <= j < s.len() implies set.has(#[trigger] s[j]) by {
            if j < lead.len() {
                assert(s[j] == lead[j]);
            } else {
                assert(s[j] == tail[j - lead.len()]);
            }
        }
        lemma_prefix_in(s, set, s.len() as int);
        lemma_suffix_in_bounds(front_stripped(s, set), set);
        assert(stripped(s, set) =~= middle);
    } else {
        assert forall|j: int| 0 <= j < lead.len() implies set.has(#[trigger] s[j]) by {
            assert(s[j] == lead[j]);
        }
        assert(s[lead.len() as int] == middle[0]);
        lemma_prefix_in(s, set, lead.len() as int);
        let front = front_stripped(s, set);
        assert(front =~= middle + tail);
        assert forall|j: int| front.len() - tail.len() <= j < front.len() implies set.has(
            #[trigger] front[j],
        ) by {
            assert(front[j] == tail[j - middle.len()]);
        }
        assert(front[front.len() - tail.len() - 1] == middle[middle.len() - 1]);
        lemma_suffix_in(front, set, tail.len() as int);
        assert(stripped(s, set) =~= middle);
        assert forall|j: int| s.len() - tail.len() <= j < s.len() implies set.has(
            #[trigger] s[j],
        ) by {
            assert(s[j] == tail[j - lead.len() - middle.len()]);
        }
        assert(s[s.len() - tail.len() - 1] == middle[middle.len() - 1]);
        lemma_suffix_in(s, set, tail.len() as int);
        assert(back_stripped(s, set) =~= lead + middle);
    }
}

/// What is stripped off a text: it is put together again from a start made of characters of the
/// class, what is left, and an end made of such characters.
pub proof fn law_strip_takes_only_the_class(s: Seq<char>, set: CharSet) -> (r: (
    Seq<char>,
    Seq<char>,
))
    ensures
        s == r.0 + stripped(s, set) + r.1,
        all_in(r.0, set),
        all_in(r.1, set),
        bare(stripped(s, set), set),
        stripped(s, set).len() == 0 <==> all_in(s, set),
{
    lemma_prefix_in_bounds(s, set);
    let front = front_stripped(s, set);
    lemma_suffix_in_bounds(front, set);
    let lead = s.take(prefix_in(s, set) as int);
    let tail = front.skip(front.len() - suffix_in(front, set));
    let middle = stripped(s, set);
    assert(s =~= lead + middle + tail);
    assert forall|i: int| 0 <= i < tail.len() implies set.has(#[trigger] tail[i]) by {
        assert(tail[i] == front[i + front.len() - suffix_in(front, set)]);
    }
    if middle.len() > 0 {
        assert(middle[0] == s[prefix_in(s, set) as int]);
        assert(middle[middle.len() - 1] == front[front.len() - suffix_in(front, set) - 1]);
        assert(s[lead.len() as int] == middle[0]);
        assert(!all_in(s, set));
    } else {
        assert forall|i: int| 0 <= i < s.len() implies set.has(#[trigger] s[i]) by {
            if i >= lead.len() {
                assert(s[i] == tail[i - lead.len()]);
            }
        }
    }
    (lead, tail)
}

/// Stripping the start alone takes the longest start made of characters of the class.
pub proof fn law_strip_front_leaves_the_rest(lead: Seq<char>, rest: Seq<char>, set: CharSet)
    requires
        all_in(lead, set),
        rest.len() > 0 ==> !set.has(rest[0]),
    ensures
        front_stripped(lead + rest, set) == rest,
        set == CharSet::WhiteSpace ==> trimmed_front(lead + rest) == rest,
{
    let s = lead + rest;
    assert forall|j: int| 0 <= j < lead.len() implies set.has(#[trigger] s[j]) by {
        assert(s[j] == lead[j]);
    }
    if rest.len() > 0 {
        assert(s[lead.len() as int] == rest[0]);
    }
    lemma_prefix_in(s, set, lead.len() as int);
    assert(front_stripped(s, set) =~= rest);
}

/// A text is blank once trimmed exactly where every character of it is white space.
pub proof fn law_blank_is_white_space(s: Seq<char>)
    ensures
        trimmed(s).len() == 0 <==> all_in(s, CharSet::WhiteSpace),
{
    let _ = law_strip_takes_only_the_class(s, CharSet::WhiteSpace);
}

/// What stands before the first `c` of a text, and that a text without it stays whole.
pub proof fn law_before_char(a: Seq<char>, c: char, b: Seq<char>)
    requires
        !a.contains(c),
    ensures
        before_char(a + seq![c] + b, c) == a,
        before_char(a, c) == a,
{
    let s = a + seq![c] + b;
    assert forall|j: int| 0 <= j < a.len() implies !CharSet::Only(c).has(#[trigger] s[j]) by {
        assert(s[j] == a[j]);
    }
    assert(s[a.len() as int] == c);
    lemma_prefix_outside(s, CharSet::Only(c), a.len() as int);
    assert(s.take(a.len() as int) =~= a);
    lemma_prefix_outside(a, CharSet::Only(c), a.len() as int);
    assert(a.take(a.len() as int) =~= a);
}

/// Text without white space is one word; white space in front of a text does not count; and the
/// first word ends at the first white space.
pub proof fn law_words(word: Seq<char>, space: char, rest: Seq<char>)
    requires
        none_in(word, CharSet::WhiteSpace),
        CharSet::WhiteSpace.has(space),
    ensures
        words(Seq::empty()) == Seq::<Seq<char>>::empty(),
        word.len() > 0 ==> words(word) == seq![word],
        words(seq![space] + rest) == words(rest),
        word.len() > 0 ==> words(word + seq![space] + rest) == seq![word] + words(rest),
{
    let ws = CharSet::WhiteSpace;
    let none = Seq::<char>::empty();
    lemma_prefix_in(none, ws, 0);
    assert(none.skip(0) =~= none);
    assert(words(none) =~= Seq::empty());
    lemma_leading_space(space, rest);
    if word.len() > 0 {
        assert(!ws.has(word[0]));
        lemma_prefix_in(word, ws, 0);
        assert(word.skip(0) =~= word);
        lemma_prefix_outside(word, ws, word.len() as int);
        assert(word.take(word.len() as int) =~= word);
        assert(word.skip(word.len() as int) =~= none);
        assert(words(word) =~= seq![word]);
        let s = word + seq![space] + rest;
        assert(s[0] == word[0]);
        lemma_prefix_in(s, ws, 0);
        assert(s.skip(0) =~= s);
        assert forall|j: int| 0 <= j < word.len() implies !ws.has(#[trigger] s[j]) by {
            assert(s[j] == word[j]);
        }
        assert(s[word.len() as int] == space);
        lemma_prefix_outside(s, ws, word.len() as int);
        assert(s.take(word.len() as int) =~= word);
        assert(s.skip(word.len() as int) =~= seq![space] + rest);
    }
}

/// White space in front of a text does not change its words.
proof fn lemma_leading_space(space: char, rest: Seq<char>)
    requires
        CharSet::WhiteSpace.has(space),
    ensures
        words(seq![space] + rest) == words(rest),
{
    let ws = CharSet::WhiteSpace;
    let s = seq![space] + rest;
    lemma_prefix_in_bounds(rest, ws);
    let n = prefix_in(rest, ws) as int;
    assert forall|j: int| 0 <= j < n + 1 implies ws.has(#[trigger] s[j]) by {
        if j > 0 {
            assert(s[j] == rest[j - 1]);
        }
    }
    if n < rest.len() {
        assert(s[n + 1] == rest[n]);
    }
    lemma_prefix_in(s, ws, n + 1);
    assert(trimmed_front(s) =~= trimmed_front(rest));
}

/// Each line feed ends a line, with or without a carriage return before it; what follows the last
/// one is a line too, unless it is empty.
pub proof fn law_lines(line: Seq<char>, rest: Seq<char>)
    requires
        !line.contains('\n'),
    ensures
        lines(Seq::empty()) == Seq::<Seq<char>>::empty(),
        line.len() > 0 ==> lines(line) == seq![line],
        line.len() == 0 || line.last() != '\r' ==> lines(line + seq!['\n'] + rest) == seq![line]
            + lines(rest),
        lines(line + seq!['\r', '\n'] + rest) == seq![line] + lines(rest),
{
    let feed = CharSet::Only('\n');
    if line.len() > 0 {
        assert forall|j: int| 0 <= j < line.len() implies !feed.has(#[trigger] line[j]) by {
            assert(line.contains(line[j]));
        }
        lemma_prefix_outside(line, feed, line.len() as int);
    }
    let s = line + seq!['\n'] + rest;
    assert forall|j: int| 0 <= j < line.len() implies !feed.has(#[trigger] s[j]) by {
        assert(s[j] == line[j]);
        assert(line.contains(line[j]));
    }
    assert(s[line.len() as int] == '\n');
    lemma_prefix_outside(s, feed, line.len() as int);
    assert(s.take(line.len() as int) =~= line);
    assert(s.skip(line.len() + 1int) =~= rest);
    let t = line + seq!['\r', '\n'] + rest;
    let ended = line + seq!['\r'];
    assert forall|j: int| 0 <= j < ended.len() implies !feed.has(#[trigger] t[j]) by {
        if j < line.len() {
            assert(t[j] == line[j]);
            assert(line.contains(line[j]));
        } else {
            assert(t[j] == '\r');
        }
    }
    assert(t[ended.len() as int] == '\n');
    lemma_prefix_outside(t, feed, ended.len() as int);
    assert(t.take(ended.len() as int) =~= ended);
    assert(ended.drop_last() =~= line);
    assert(t.skip(ended.len() + 1int) =~= rest);
}

/// A pattern stands in a text exactly where the text is made of something, the pattern and
/// something more.
pub proof fn law_occurrence(before: Seq<char>, pattern: Seq<char>, after: Seq<char>)
    ensures
        occurs_at(before + pattern + after, before.len() as int, pattern),
        begins_with(pattern + after, pattern),
        finishes_with(before + pattern, pattern),
        after_prefix(pattern + after, pattern) == Some(after),
{
    let s = before + pattern + after;
    assert(s.subrange(before.len() as int, before.len() + pattern.len() as int) =~= pattern);
    let t = pattern + after;
    assert(t.subrange(0, pattern.len() as int) =~= pattern);
    assert(t.skip(pattern.len() as int) =~= after);
    let u = before + pattern;
    assert(u.subrange(before.len() as int, u.len() as int) =~= pattern);
}

/// Where a pattern stands in a text, the text has its characters there.
pub proof fn law_occurrence_is_spelled(s: Seq<char>, i: int, pattern: Seq<char>)
    ensures
        occurs_at(s, i, pattern) <==> {
            &&& 0 <= i
            &&& i + pattern.len() <= s.len()
            &&& forall|j: int| 0 <= j < pattern.len() ==> s[i + j] == #[trigger] pattern[j]
        },
        begins_with(s, pattern) <==> s.len() >= pattern.len() && forall|j: int|
            0 <= j < pattern.len() ==> s[j] == #[trigger] pattern[j],
        finishes_with(s, pattern) <==> s.len() >= pattern.len() && forall|j: int|
            0 <= j < pattern.len() ==> s[s.len() - pattern.len() + j] == #[trigger] pattern[j],
        match after_prefix(s, pattern) {
            Some(rest) => s == pattern + rest,
            None => forall|rest: Seq<char>| s != #[trigger] (pattern + rest),
        },
{
    lemma_spelled(s, i, pattern);
    lemma_spelled(s, 0, pattern);
    lemma_spelled(s, s.len() - pattern.len(), pattern);
    match after_prefix(s, pattern) {
        Some(rest) => {
            assert(s =~= pattern + rest);
        },
        None => {
            assert forall|rest: Seq<char>| s != #[trigger] (pattern + rest) by {
                law_occurrence(Seq::empty(), pattern, rest);
            }
        },
    }
}

/// A pattern stands where its characters do.
proof fn lemma_spelled(s: Seq<char>, i: int, pattern: Seq<char>)
    ensures
        occurs_at(s, i, pattern) <==> {
            &&& 0 <= i
            &&& i + pattern.len() <= s.len()
            &&& forall|j: int| 0 <= j < pattern.len() ==> s[i + j] == #[trigger] pattern[j]
        },
{
    if 0 <= i && i + pattern.len() <= s.len() {
        let part = s.subrange(i, i + pattern.len());
        if part == pattern {
            assert forall|j: int| 0 <= j < pattern.len() implies s[i + j]
                == #[trigger] pattern[j] by {
                assert(part[j] == s[i + j]);
            }
        }
        if forall|j: int| 0 <= j < pattern.len() ==> s[i + j] == #[trigger] pattern[j] {
            assert(part =~= pattern);
        }
    }
}

/// Where a pattern stands first and last: it stands there, and nowhere before or after; where it
/// is not found it stands nowhere.
pub proof fn law_first_and_last_occurrence(s: Seq<char>, pattern: Seq<char>)
    ensures
        match first_occurrence(s, pattern) {
            Some(i) => occurs_at(s, i, pattern) && forall|j: int|
                0 <= j < i ==> !#[trigger] occurs_at(s, j, pattern),
            None => forall|j: int| !#[trigger] occurs_at(s, j, pattern),
        },
        match last_occurrence(s, pattern) {
            Some(i) => occurs_at(s, i, pattern) && forall|j: int|
                j > i ==> !#[trigger] occurs_at(s, j, pattern),
            None => forall|j: int| !#[trigger] occurs_at(s, j, pattern),
        },
{
    lemma_occurrence_from(s, pattern, 0);
    lemma_occurrence_up_to(s, pattern, s.len() as int);
}

/// What the first occurrence from a position on is.
proof fn lemma_occurrence_from(s: Seq<char>, pattern: Seq<char>, i: int)
    requires
        0 <= i,
    ensures
        match occurrence_from(s, pattern, i) {
            Some(k) => i <= k && occurs_at(s, k, pattern) && forall|j: int|
                i <= j < k ==> !#[trigger] occurs_at(s, j, pattern),
            None => forall|j: int| i <= j ==> !#[trigger] occurs_at(s, j, pattern),
        },
    decreases s.len() + 1 - i,
{
    if i <= s.len() && !occurs_at(s, i, pattern) {
        lemma_occurrence_from(s, pattern, i + 1);
    }
}

/// What the last occurrence up to a position is.
proof fn lemma_occurrence_up_to(s: Seq<char>, pattern: Seq<char>, i: int)
    ensures
        match occurrence_up_to(s, pattern, i) {
            Some(k) => k <= i && occurs_at(s, k, pattern) && forall|j: int|
                k < j <= i ==> !#[trigger] occurs_at(s, j, pattern),
            None => forall|j: int| j <= i ==> !#[trigger] occurs_at(s, j, pattern),
        },
    decreases i + 1,
{
    if i >= 0 && !occurs_at(s, i, pattern) {
        lemma_occurrence_up_to(s, pattern, i - 1);
    }
}

/// A text mentions a class exactly where some character of it is in the class.
pub proof fn law_mentions(s: Seq<char>, set: CharSet)
    ensures
        mentions(s, set) <==> !none_in(s, set),
        prefix_outside(s, set) < s.len() <==> !none_in(s, set),
{
    lemma_prefix_outside_bounds(s, set);
}

} // verus!
