//! What always holds of paths and of numbers, said of their text.

use vstd::prelude::*;

use crate::numbers::{
    all_digits, decimal, digits_value, law_decimal_reads_back, port_number, signed_decimal,
    signed_number,
};
use crate::paths::{
    absolute, ancestors, components, file_name, joined, kept_pieces, lemma_parent_is_shorter, names,
    parent, prefix_with_components, same_path, within,
};
use crate::text::{law_split_at_separator, law_split_without_separator, mentions, split_on, CharSet};

verus! {

/// Whether a text has no separator of paths.
pub open spec fn is_plain(s: Seq<char>) -> bool {
    !s.contains('/')
}

/// Text without a separator mentions none.
proof fn lemma_plain(s: Seq<char>)
    requires
        is_plain(s),
    ensures
        !mentions(s, CharSet::Only('/')),
{
    assert forall|i: int| 0 <= i < s.len() implies !CharSet::Only('/').has(#[trigger] s[i]) by {
        assert(s.contains(s[i]));
    }
}

/// Pieces behind the first `n` do not matter to the components among these.
proof fn lemma_kept_before(a: Seq<Seq<char>>, b: Seq<Seq<char>>, n: int)
    requires
        0 <= n <= a.len(),
        n <= b.len(),
        forall|i: int| 0 <= i < n ==> a[i] == b[i],
    ensures
        kept_pieces(a, n) == kept_pieces(b, n),
    decreases n,
{
    if n > 0 {
        lemma_kept_before(a, b, n - 1);
    }
}

/// More pieces only add components at the end.
proof fn lemma_kept_grows(pieces: Seq<Seq<char>>, n: int, m: int)
    requires
        0 <= n <= m <= pieces.len(),
    ensures
        kept_pieces(pieces, n).len() <= kept_pieces(pieces, m).len(),
        kept_pieces(pieces, m).take(kept_pieces(pieces, n).len() as int) == kept_pieces(pieces, n),
    decreases m - n,
{
    let less = kept_pieces(pieces, n);
    if n == m {
        assert(less.take(less.len() as int) =~= less);
    } else {
        lemma_kept_grows(pieces, n, m - 1);
        let before = kept_pieces(pieces, m - 1);
        let after = kept_pieces(pieces, m);
        assert(after.take(less.len() as int) =~= before.take(less.len() as int));
    }
}

/// A name below a path is one more component at the end. An empty name and `.` are none. A name
/// alone is its only component, and the empty path has none.
pub proof fn law_components_are_between_separators(base: Seq<char>, name: Seq<char>)
    requires
        is_plain(name),
    ensures
        names(name) == if name.len() == 0 {
            Seq::empty()
        } else {
            seq![name]
        },
        names(base + seq!['/'] + name) == if name.len() == 0 || name == seq!['.'] {
            names(base)
        } else {
            names(base).push(name)
        },
        components(name) == names(name),
        components(seq!['/'] + base) == seq![seq!['/']] + names(seq!['/'] + base),
        base.len() > 0 && base[0] != '/' ==> components(base) == names(base),
        base.len() > 0 && base[0] == '/' ==> components(base) == seq![seq!['/']] + names(base),
{
    reveal_strlit(".");
    assert("."@ =~= seq!['.']);
    let sep = CharSet::Only('/');
    lemma_plain(name);
    law_split_without_separator(name, sep);
    reveal_with_fuel(kept_pieces, 2);
    assert(names(name) =~= if name.len() == 0 {
        Seq::empty()
    } else {
        seq![name]
    });
    if name.len() > 0 {
        assert(name.contains(name[0]));
    }
    law_split_at_separator(base, '/', name, sep);
    let ours = split_on(base, sep);
    let pieces = split_on(base + seq!['/'] + name, sep);
    let n = ours.len() as int;
    assert(pieces =~= ours.push(name));
    lemma_split_is_some(base);
    lemma_kept_before(pieces, ours, n);
    assert(pieces.len() == n + 1);
}

/// Splitting always gives a piece.
proof fn lemma_split_is_some(s: Seq<char>)
    ensures
        split_on(s, CharSet::Only('/')).len() > 0,
{
}

/// A path lies within another exactly where it has all its components at its start.
pub proof fn law_within_goes_by_components(path: Seq<char>, base: Seq<char>)
    ensures
        within(path, base) <==> {
            &&& components(base).len() <= components(path).len()
            &&& forall|i: int|
                0 <= i < components(base).len() ==> components(path)[i] == #[trigger] components(
                    base,
                )[i]
        },
        same_path(path, base) <==> within(path, base) && components(path).len() == components(
            base,
        ).len(),
{
    let a = components(path);
    let b = components(base);
    if b.len() <= a.len() {
        let start = a.take(b.len() as int);
        if start == b {
            assert forall|i: int| 0 <= i < b.len() implies a[i] == #[trigger] b[i] by {
                assert(start[i] == a[i]);
            }
        }
        if forall|i: int| 0 <= i < b.len() ==> a[i] == #[trigger] b[i] {
            assert(start =~= b);
        }
        if a.len() == b.len() {
            assert(start =~= a);
        }
    }
    if same_path(path, base) {
        assert(a.take(b.len() as int) =~= b);
    }
}

/// Whatever is written below a path, at any depth, lies within it.
pub proof fn law_everything_below_is_within(base: Seq<char>, rest: Seq<char>)
    ensures
        within(base + seq!['/'] + rest, base),
{
    let sep = CharSet::Only('/');
    let path = base + seq!['/'] + rest;
    if base.len() == 0 {
        law_split_without_separator(base, sep);
        reveal_with_fuel(kept_pieces, 2);
        assert(components(base) =~= Seq::empty());
        assert(components(path).take(0) =~= Seq::empty());
    } else {
        law_split_at_separator(base, '/', rest, sep);
        let ours = split_on(base, sep);
        let all = split_on(path, sep);
        let n = ours.len() as int;
        lemma_kept_before(ours, all, n);
        lemma_kept_grows(all, n, all.len() as int);
        assert(path[0] == base[0]);
        let root = seq![seq!['/']];
        if absolute(base) {
            assert(components(path).take(components(base).len() as int) =~= root + names(path).take(
                names(base).len() as int,
            ));
        }
    }
}

/// The ancestors of a path are the path, its parent, the parent of that, and so on to one that has
/// none.
pub proof fn law_ancestors_follow_the_parents(path: Seq<char>)
    ensures
        ancestors(path).len() > 0,
        ancestors(path)[0] == path,
        forall|i: int|
            0 <= i < ancestors(path).len() - 1 ==> parent(#[trigger] ancestors(path)[i]) == Some(
                ancestors(path)[i + 1],
            ),
        parent(ancestors(path)[ancestors(path).len() - 1]) is None,
    decreases path.len(),
{
    if let Some(up) = parent(path) {
        lemma_parent_is_shorter(path);
        law_ancestors_follow_the_parents(up);
        let all = ancestors(path);
        let above = ancestors(up);
        assert forall|i: int| 0 <= i < all.len() - 1 implies parent(#[trigger] all[i]) == Some(
            all[i + 1],
        ) by {
            if i > 0 {
                assert(all[i] == above[i - 1]);
                assert(all[i + 1] == above[i]);
            } else {
                assert(all[1] == above[0]);
            }
        }
        assert(all[all.len() - 1] == above[above.len() - 1]);
    }
}

/// What is found as a prefix is the first of its kind.
proof fn lemma_shortest(path: Seq<char>, target: Seq<Seq<char>>, n: int)
    requires
        0 <= n,
    ensures
        match prefix_with_components(path, target, n) {
            Some(found) => n <= found.len() <= path.len() && found == path.take(found.len() as int)
                && forall|m: int|
                n <= m < found.len() ==> components(#[trigger] path.take(m)) != target,
            None => true,
        },
    decreases path.len() + 1 - n,
{
    if n <= path.len() && components(path.take(n)) != target {
        lemma_shortest(path, target, n + 1);
    }
}

/// The parent of a path is its shortest start that has all its components but the last.
pub proof fn law_parent_is_the_shortest_start(path: Seq<char>)
    ensures
        parent(path) matches Some(up) ==> {
            &&& up.len() < path.len()
            &&& up == path.take(up.len() as int)
            &&& components(up) == components(path).drop_last()
            &&& forall|m: int|
                0 <= m < up.len() ==> components(#[trigger] path.take(m)) != components(
                    path,
                ).drop_last()
        },
{
    if parent(path) is Some {
        lemma_parent_is_shorter(path);
        lemma_shortest(path, components(path).drop_last(), 0);
    }
}

/// A file has the last name of its path, whether or not a separator follows it. `.` and `..` name
/// nothing.
pub proof fn law_file_name_is_the_last_name(base: Seq<char>, name: Seq<char>)
    requires
        is_plain(name),
        name.len() > 0,
        name != seq!['.'],
    ensures
        file_name(base + seq!['/'] + name) == if name == seq!['.', '.'] {
            None
        } else {
            Some(name)
        },
        file_name(base + seq!['/'] + name + seq!['/']) == file_name(base + seq!['/'] + name),
        file_name(Seq::empty()) is None,
        file_name(seq!['/']) is None,
{
    reveal_strlit("..");
    reveal_strlit(".");
    assert(".."@ =~= seq!['.', '.']);
    assert("."@ =~= seq!['.']);
    let none = Seq::<char>::empty();
    law_components_are_between_separators(base, name);
    let path = base + seq!['/'] + name;
    law_components_are_between_separators(path, none);
    assert(path + seq!['/'] + none =~= path + seq!['/']);
    law_components_are_between_separators(none, none);
    assert(none + seq!['/'] + none =~= seq!['/']);
}

/// A name is joined to a path with one separator between them, and none is added to one that is
/// there; an absolute name, and a name without a path, stand for themselves.
pub proof fn law_joining_adds_one_separator(base: Seq<char>, name: Seq<char>)
    ensures
        joined(Seq::empty(), name) == name,
        joined(base, seq!['/'] + name) == seq!['/'] + name,
        base.len() > 0 && base.last() != '/' && (name.len() == 0 || name[0] != '/') ==> joined(
            base,
            name,
        ) == base + seq!['/'] + name,
        name.len() == 0 || name[0] != '/' ==> joined(base + seq!['/'], name) == base + seq!['/']
            + name,
{
    assert((base + seq!['/']).last() == '/');
}

/// A run of digits denotes ten times what it denotes without the last, and that one.
pub proof fn law_digits_are_decimal(s: Seq<char>, c: char)
    requires
        CharSet::Digit.has(c),
    ensures
        digits_value(Seq::empty()) == 0,
        digits_value(s.push(c)) == 10 * digits_value(s) + (c as int - 48),
        all_digits(s.push(c)) <==> all_digits(s),
{
    assert(s.push(c).drop_last() =~= s);
    if all_digits(s.push(c)) {
        assert forall|i: int| 0 <= i < s.len() implies CharSet::Digit.has(#[trigger] s[i]) by {
            assert(s.push(c)[i] == s[i]);
        }
    }
}

/// A number in decimal notation has no leading zero, unless it is zero.
pub proof fn law_decimal_has_no_leading_zero(n: nat)
    ensures
        n > 0 ==> decimal(n)[0] != '0',
        n == 0 ==> decimal(n) == seq!['0'],
    decreases n,
{
    if n >= 10 {
        law_decimal_has_no_leading_zero(n / 10);
        law_decimal_reads_back(n / 10);
        assert(decimal(n)[0] == decimal(n / 10)[0]);
    }
}

/// Digits denote a port number exactly where they are some and it fits into 16 bits, with or
/// without a plus sign before them; nothing else does.
pub proof fn law_port_number_is_digits(s: Seq<char>, digits: Seq<char>)
    ensures
        all_digits(digits) && digits.len() > 0 && digits_value(digits) < 65536 ==> port_number(
            digits,
        ) == Some(digits_value(digits) as u16) && port_number(seq!['+'] + digits) == port_number(
            digits,
        ),
        port_number(s) is Some ==> {
            let rest = if s[0] == '+' {
                s.skip(1)
            } else {
                s
            };
            rest.len() > 0 && all_digits(rest) && digits_value(rest) == port_number(s)->0
        },
{
    if digits.len() > 0 && all_digits(digits) {
        assert(CharSet::Digit.has(digits[0]));
    }
    assert((seq!['+'] + digits).skip(1) =~= digits);
}

/// Digits denote a 32-bit number exactly where they are some and it fits, with a minus sign before
/// them its negative; nothing else does.
pub proof fn law_signed_number_is_digits(s: Seq<char>, digits: Seq<char>)
    ensures
        all_digits(digits) && digits.len() > 0 && digits_value(digits) <= 0x7fff_ffff ==> {
            &&& signed_number(digits) == Some(digits_value(digits) as i32)
            &&& signed_number(seq!['+'] + digits) == signed_number(digits)
            &&& signed_number(seq!['-'] + digits) == Some((-digits_value(digits)) as i32)
        },
        all_digits(digits) && digits.len() > 0 && digits_value(digits) == 0x8000_0000
            ==> signed_number(seq!['-'] + digits) == Some(i32::MIN),
        signed_number(s) is Some ==> {
            let rest = if s[0] == '+' || s[0] == '-' {
                s.skip(1)
            } else {
                s
            };
            &&& rest.len() > 0
            &&& all_digits(rest)
            &&& signed_number(s)->0 == if s[0] == '-' {
                -digits_value(rest)
            } else {
                digits_value(rest) as int
            }
        },
{
    if digits.len() > 0 && all_digits(digits) {
        assert(CharSet::Digit.has(digits[0]));
    }
    assert((seq!['+'] + digits).skip(1) =~= digits);
    assert((seq!['-'] + digits).skip(1) =~= digits);
}

/// A number that is not negative is written without a sign, and another with a minus sign before
/// its digits.
pub proof fn law_sign_of_a_number(n: nat)
    ensures
        signed_decimal(n as int) == decimal(n),
        n > 0 ==> signed_decimal(-n) == seq!['-'] + decimal(n),
{
}

/// A text is made of digits exactly where each of its characters is one.
pub proof fn law_digits_are_digits(s: Seq<char>)
    ensures
        all_digits(s) <==> forall|i: int| 0 <= i < s.len() ==> '0' <= #[trigger] s[i] <= '9',
{
    if all_digits(s) {
        assert forall|i: int| 0 <= i < s.len() implies '0' <= #[trigger] s[i] <= '9' by {
            assert(CharSet::Digit.has(s[i]));
        }
    }
}

} // verus!
