//! Unix paths as text. A path counts by its components: repeated separators, a separator at the
//! end and `.` inside it make no difference.

use vstd::prelude::*;
use vstd::slice::slice_subrange;

use crate::text::{
    chars_of, concat, copy_chars, law_split_at_separator, law_split_without_separator,
    lemma_prefix_outside, lemma_prefix_outside_bounds, mentions, prefix_outside, spells, split,
    split_on, text_of, texts, CharSet,
};

verus! {

/// Whether a path starts at the root.
pub open spec fn absolute(path: Seq<char>) -> bool {
    path.len() > 0 && path[0] == '/'
}

/// Whether the piece at `i` between two separators is a component. A `.` is one only at the
/// start of a path.
pub open spec fn is_component(piece: Seq<char>, i: int) -> bool {
    piece.len() > 0 && (piece != "."@ || i == 0)
}

/// The components among the first `n` pieces.
pub open spec fn kept_pieces(pieces: Seq<Seq<char>>, n: int) -> Seq<Seq<char>>
    decreases n,
{
    if n <= 0 {
        Seq::empty()
    } else if is_component(pieces[n - 1], n - 1) {
        kept_pieces(pieces, n - 1).push(pieces[n - 1])
    } else {
        kept_pieces(pieces, n - 1)
    }
}

/// The components of a path below its root.
pub open spec fn names(path: Seq<char>) -> Seq<Seq<char>> {
    let pieces = split_on(path, CharSet::Only('/'));
    kept_pieces(pieces, pieces.len() as int)
}

/// The components of a path. The root is the component `/`.
pub open spec fn components(path: Seq<char>) -> Seq<Seq<char>> {
    if absolute(path) {
        seq![seq!['/']] + names(path)
    } else {
        names(path)
    }
}

/// Whether two texts denote the same path.
pub open spec fn same_path(a: Seq<char>, b: Seq<char>) -> bool {
    components(a) == components(b)
}

/// Whether one sequence of components begins with another.
pub open spec fn begins_with_components(a: Seq<Seq<char>>, b: Seq<Seq<char>>) -> bool {
    b.len() <= a.len() && a.take(b.len() as int) == b
}

/// Whether `path` is `base` or lies below it.
pub open spec fn within(path: Seq<char>, base: Seq<char>) -> bool {
    begins_with_components(components(path), components(base))
}

/// The shortest prefix of `path`, of at least `n` characters, that has the components `target`.
pub open spec fn prefix_with_components(
    path: Seq<char>,
    target: Seq<Seq<char>>,
    n: int,
) -> Option<Seq<char>>
    decreases path.len() + 1 - n,
{
    if n < 0 || n > path.len() {
        None
    } else if components(path.take(n)) == target {
        Some(path.take(n))
    } else {
        prefix_with_components(path, target, n + 1)
    }
}

/// The directory that holds what a path denotes: the shortest prefix without the last name.
/// The root and the empty path have none.
pub open spec fn parent(path: Seq<char>) -> Option<Seq<char>> {
    if names(path).len() == 0 {
        None
    } else {
        prefix_with_components(path, components(path).drop_last(), 0)
    }
}

/// A path, its parent, the parent of that, and so on.
pub open spec fn ancestors(path: Seq<char>) -> Seq<Seq<char>>
    decreases path.len(),
    via ancestors_decreases
{
    match parent(path) {
        Some(up) => seq![path] + ancestors(up),
        None => seq![path],
    }
}

#[via_fn]
proof fn ancestors_decreases(path: Seq<char>) {
    if parent(path) is Some {
        lemma_parent_is_shorter(path);
    }
}

/// The last component, where it names something.
pub open spec fn file_name(path: Seq<char>) -> Option<Seq<char>> {
    let all = names(path);
    if all.len() == 0 || all.last() == ".."@ || all.last() == "."@ {
        None
    } else {
        Some(all.last())
    }
}

/// `name` below `base`; an absolute name stands for itself.
pub open spec fn joined(base: Seq<char>, name: Seq<char>) -> Seq<char> {
    if absolute(name) || base.len() == 0 {
        name
    } else if base.last() == '/' {
        base + name
    } else {
        base + seq!['/'] + name
    }
}

/// What `prefix_with_components` finds is a prefix with the wanted components.
proof fn lemma_prefix_with_components(path: Seq<char>, target: Seq<Seq<char>>, n: int)
    ensures
        match prefix_with_components(path, target, n) {
            Some(found) => found.len() <= path.len() && found == path.take(found.len() as int)
                && components(found) == target,
            None => true,
        },
    decreases path.len() + 1 - n,
{
    if !(n < 0 || n > path.len()) && components(path.take(n)) != target {
        lemma_prefix_with_components(path, target, n + 1);
    }
}

/// A parent is a proper prefix of the path and has one component less.
pub proof fn lemma_parent_is_shorter(path: Seq<char>)
    requires
        parent(path) is Some,
    ensures
        parent(path)->0.len() < path.len(),
        parent(path)->0 == path.take(parent(path)->0.len() as int),
        components(parent(path)->0) == components(path).drop_last(),
{
    let target = components(path).drop_last();
    lemma_prefix_with_components(path, target, 0);
    let found = parent(path)->0;
    if found.len() == path.len() {
        assert(path.take(path.len() as int) =~= path);
        assert(components(path).len() > 0);
        assert(components(path).len() == target.len() + 1);
    }
}

/// Every path lies within itself.
pub proof fn law_within_is_reflexive(path: Seq<char>)
    ensures
        within(path, path),
{
    let all = components(path);
    assert(all.take(all.len() as int) =~= all);
}

/// What lies within a path lies within every path that holds that one.
pub proof fn law_within_is_transitive(path: Seq<char>, middle: Seq<char>, base: Seq<char>)
    requires
        within(path, middle),
        within(middle, base),
    ensures
        within(path, base),
{
    let a = components(path);
    let m = components(middle);
    let b = components(base);
    assert(a.take(b.len() as int) =~= m.take(b.len() as int));
}

/// Two paths that lie within each other are the same path.
pub proof fn law_within_is_antisymmetric(a: Seq<char>, b: Seq<char>)
    requires
        within(a, b),
        within(b, a),
    ensures
        same_path(a, b),
{
    assert(components(a).take(components(a).len() as int) =~= components(a));
}

/// A path lies within each of its ancestors.
pub proof fn law_path_is_within_its_ancestors(path: Seq<char>, i: int)
    requires
        0 <= i < ancestors(path).len(),
    ensures
        within(path, ancestors(path)[i]),
    decreases path.len(),
{
    law_within_is_reflexive(path);
    if i > 0 {
        let up = parent(path)->0;
        lemma_parent_is_shorter(path);
        law_path_is_within_its_ancestors(up, i - 1);
        assert(ancestors(path)[i] == ancestors(up)[i - 1]);
        assert(components(path).take(components(up).len() as int) =~= components(up));
        law_within_is_transitive(path, up, ancestors(up)[i - 1]);
    }
}

/// Cutting a text behind the separator before its piece `k` leaves the pieces before that one,
/// and an empty one.
proof fn lemma_cut_before_piece(s: Seq<char>, k: int) -> (n: int)
    requires
        1 <= k < split_on(s, CharSet::Only('/')).len(),
    ensures
        1 <= n <= s.len(),
        split_on(s.take(n), CharSet::Only('/')) == split_on(s, CharSet::Only('/')).take(k).push(
            Seq::empty(),
        ),
    decreases s.len(),
{
    let sep = CharSet::Only('/');
    let first = prefix_outside(s, sep) as int;
    lemma_prefix_outside_bounds(s, sep);
    let head = s.take(first);
    let rest = s.skip(first + 1);
    assert(!mentions(head, sep)) by {
        lemma_prefix_outside(head, sep, first);
    }
    law_split_without_separator(head, sep);
    let all = split_on(s, sep);
    if k == 1 {
        let nothing = Seq::<char>::empty();
        law_split_without_separator(nothing, sep);
        law_split_at_separator(head, '/', nothing, sep);
        assert(s.take(first + 1) =~= head + seq!['/'] + nothing);
        assert(all.take(1).push(nothing) =~= seq![head] + seq![nothing]);
        first + 1
    } else {
        let n = lemma_cut_before_piece(rest, k - 1);
        law_split_at_separator(head, '/', rest.take(n), sep);
        assert(s.take(first + 1 + n) =~= head + seq!['/'] + rest.take(n));
        let below = split_on(rest, sep);
        assert(all =~= seq![head] + below);
        assert(all.take(k).push(Seq::empty()) =~= seq![head] + below.take(k - 1).push(
            Seq::empty(),
        ));
        first + 1 + n
    }
}

/// Only the first `n` pieces matter to the components among them.
proof fn lemma_kept_of_prefix(a: Seq<Seq<char>>, b: Seq<Seq<char>>, n: int)
    requires
        0 <= n <= a.len(),
        n <= b.len(),
        forall|i: int| 0 <= i < n ==> a[i] == b[i],
    ensures
        kept_pieces(a, n) == kept_pieces(b, n),
    decreases n,
{
    if n > 0 {
        lemma_kept_of_prefix(a, b, n - 1);
    }
}

/// Where the last component among the first `n` pieces is.
proof fn lemma_last_kept(pieces: Seq<Seq<char>>, n: int) -> (k: int)
    requires
        0 <= n <= pieces.len(),
        kept_pieces(pieces, n).len() > 0,
    ensures
        0 <= k < n,
        is_component(pieces[k], k),
        kept_pieces(pieces, n) == kept_pieces(pieces, k).push(pieces[k]),
    decreases n,
{
    if is_component(pieces[n - 1], n - 1) {
        n - 1
    } else {
        lemma_last_kept(pieces, n - 1)
    }
}

/// A prefix with the wanted components is found where there is one.
proof fn lemma_prefix_is_found(path: Seq<char>, target: Seq<Seq<char>>, n: int, m: int)
    requires
        0 <= n <= m <= path.len(),
        components(path.take(m)) == target,
    ensures
        prefix_with_components(path, target, n) is Some,
    decreases m - n,
{
    if components(path.take(n)) != target {
        lemma_prefix_is_found(path, target, n + 1, m);
    }
}

/// Every path that names something has a parent, and the parent lacks exactly the last name. The
/// root and the empty path have none.
pub proof fn law_parent_lacks_the_last_name(path: Seq<char>)
    ensures
        parent(path) is Some <==> names(path).len() > 0,
        parent(path) is Some ==> components(parent(path)->0) == components(path).drop_last(),
{
    if names(path).len() > 0 {
        let sep = CharSet::Only('/');
        let pieces = split_on(path, sep);
        let n = pieces.len() as int;
        let k = lemma_last_kept(pieces, n);
        let target = components(path).drop_last();
        if k == 0 {
            if absolute(path) {
                lemma_prefix_outside(path, sep, 0);
                assert(pieces[0] =~= Seq::empty());
                assert(false);
            }
            let nothing = path.take(0);
            law_split_without_separator(nothing, sep);
            reveal_with_fuel(kept_pieces, 2);
            assert(components(nothing) =~= Seq::empty());
            assert(target =~= Seq::empty());
            lemma_prefix_is_found(path, target, 0, 0);
        } else {
            let m = lemma_cut_before_piece(path, k);
            let cut = path.take(m);
            let left = split_on(cut, sep);
            lemma_kept_of_prefix(left, pieces, k);
            assert(kept_pieces(left, k + 1) == kept_pieces(left, k));
            assert(names(cut) == kept_pieces(pieces, k));
            assert(cut[0] == path[0]);
            assert(components(cut) =~= target);
            lemma_prefix_is_found(path, target, 0, m);
        }
        lemma_parent_is_shorter(path);
    }
}

/// Pieces behind others leave the components of those in place.
proof fn lemma_kept_of_joined(a: Seq<Seq<char>>, b: Seq<Seq<char>>, n: int)
    requires
        a.len() <= n <= a.len() + b.len(),
    ensures
        kept_pieces(a, a.len() as int).len() <= kept_pieces(a + b, n).len(),
        kept_pieces(a + b, n).take(kept_pieces(a, a.len() as int).len() as int) == kept_pieces(
            a,
            a.len() as int,
        ),
    decreases n,
{
    let all = a + b;
    let first = kept_pieces(a, a.len() as int);
    if n == a.len() {
        lemma_kept_of_prefix(all, a, n);
        assert(first.take(first.len() as int) =~= first);
    } else {
        lemma_kept_of_joined(a, b, n - 1);
        assert(kept_pieces(all, n).take(first.len() as int) =~= kept_pieces(all, n - 1).take(
            first.len() as int,
        ));
    }
}

/// A relative path below a directory lies within it.
pub proof fn law_joined_path_is_within(base: Seq<char>, name: Seq<char>)
    requires
        !absolute(name),
    ensures
        within(joined(base, name), base),
{
    let sep = CharSet::Only('/');
    let path = joined(base, name);
    let ours = split_on(base, sep);
    let theirs = split_on(name, sep);
    if base.len() == 0 {
        law_split_without_separator(base, sep);
        reveal_with_fuel(kept_pieces, 2);
        assert(components(base) =~= Seq::empty());
        assert(components(path).take(0) =~= Seq::empty());
    } else if base.last() == '/' {
        let head = base.drop_last();
        let nothing = Seq::<char>::empty();
        law_split_without_separator(nothing, sep);
        law_split_at_separator(head, '/', nothing, sep);
        assert(base =~= head + seq!['/'] + nothing);
        let pieces = split_on(head, sep);
        assert(ours =~= pieces.push(nothing));
        let n = pieces.len() as int;
        lemma_kept_of_prefix(ours, pieces, n);
        assert(kept_pieces(ours, n + 1) == kept_pieces(ours, n));
        law_split_at_separator(head, '/', name, sep);
        assert(path =~= head + seq!['/'] + name);
        lemma_kept_of_joined(pieces, theirs, n + theirs.len());
        assert(path[0] == base[0]);
        assert(components(path).take(components(base).len() as int) =~= components(base));
    } else {
        law_split_at_separator(base, '/', name, sep);
        lemma_kept_of_joined(ours, theirs, ours.len() + theirs.len() as int);
        assert(path[0] == base[0]);
        assert(components(path).take(components(base).len() as int) =~= components(base));
    }
}

/// Tests whether a path starts at the root.
pub fn is_absolute(path: &str) -> (r: bool)
    ensures
        r == absolute(path@),
{
    let chars = chars_of(path);
    chars.len() > 0 && chars[0] == '/'
}

/// Cuts a path into the components below its root.
fn names_of(path: &[char]) -> (r: Vec<Vec<char>>)
    ensures
        texts(r@) == names(path@),
{
    let pieces = split(path, CharSet::Only('/'));
    let ghost all = split_on(path@, CharSet::Only('/'));
    let mut out: Vec<Vec<char>> = Vec::new();
    let mut i: usize = 0;
    proof {
        assert(texts(out@) =~= Seq::empty());
        assert(texts(pieces@).len() == pieces@.len());
    }
    while i < pieces.len()
        invariant
            i <= pieces@.len(),
            texts(pieces@) == all,
            texts(out@) == kept_pieces(all, i as int),
        decreases pieces.len() - i,
    {
        let piece = pieces[i].as_slice();
        let ghost before = texts(out@);
        proof {
            assert(texts(pieces@)[i as int] == piece@);
        }
        if piece.len() > 0 && (!spells(piece, ".") || i == 0) {
            out.push(copy_chars(piece));
            proof {
                assert(texts(out@) =~= before.push(piece@));
            }
        }
        i += 1;
    }
    out
}

/// Cuts a path into its components.
fn components_of_chars(path: &[char]) -> (r: Vec<Vec<char>>)
    ensures
        texts(r@) == components(path@),
{
    let mut all = names_of(path);
    if path.len() > 0 && path[0] == '/' {
        let ghost below = texts(all@);
        let mut root: Vec<char> = Vec::new();
        root.push('/');
        all.insert(0, root);
        proof {
            assert(root@ =~= seq!['/']);
            assert(texts(all@) =~= seq![seq!['/']] + below);
        }
    }
    all
}

/// Cuts a path into its components.
pub fn components_of(path: &str) -> (r: Vec<Vec<char>>)
    ensures
        texts(r@) == components(path@),
{
    components_of_chars(chars_of(path).as_slice())
}

/// Tests whether two texts are equal.
fn same_chars(a: &[char], b: &[char]) -> (r: bool)
    ensures
        r == (a@ == b@),
{
    if a.len() != b.len() {
        return false;
    }
    let r = crate::text::stands_at(a, 0, b);
    proof {
        assert(a@.subrange(0, a@.len() as int) =~= a@);
    }
    r
}

/// Tests whether one sequence of components begins with another.
pub fn is_component_prefix(a: &Vec<Vec<char>>, b: &Vec<Vec<char>>) -> (r: bool)
    ensures
        r == begins_with_components(texts(a@), texts(b@)),
{
    if b.len() > a.len() {
        return false;
    }
    let mut i: usize = 0;
    while i < b.len()
        invariant
            i <= b@.len() <= a@.len(),
            forall|j: int| 0 <= j < i ==> texts(a@)[j] == #[trigger] texts(b@)[j],
        decreases b.len() - i,
    {
        if !same_chars(a[i].as_slice(), b[i].as_slice()) {
            proof {
                assert(texts(a@).take(texts(b@).len() as int)[i as int] == a@[i as int]@);
                assert(texts(b@)[i as int] == b@[i as int]@);
            }
            return false;
        }
        i += 1;
    }
    proof {
        assert(texts(a@).take(texts(b@).len() as int) =~= texts(b@));
    }
    true
}

/// Tests whether `path` is `base` or lies below it.
pub fn is_within(path: &str, base: &str) -> (r: bool)
    ensures
        r == within(path@, base@),
{
    is_component_prefix(&components_of(path), &components_of(base))
}

/// Tests whether two sequences of components are equal.
fn same_components(a: &Vec<Vec<char>>, b: &Vec<Vec<char>>) -> (r: bool)
    ensures
        r == (texts(a@) == texts(b@)),
{
    let r = a.len() == b.len() && is_component_prefix(a, b);
    proof {
        assert(texts(a@).take(texts(a@).len() as int) =~= texts(a@));
    }
    r
}

/// Tests whether two texts denote the same path.
pub fn is_same_path(a: &str, b: &str) -> (r: bool)
    ensures
        r == same_path(a@, b@),
{
    same_components(&components_of(a), &components_of(b))
}

/// Finds the directory that holds what a path denotes.
pub fn find_parent(path: &str) -> (r: Option<String>)
    ensures
        match r {
            Some(up) => parent(path@) == Some(up@),
            None => parent(path@) is None,
        },
{
    let chars = chars_of(path);
    let below = names_of(chars.as_slice());
    proof {
        assert(texts(below@).len() == below@.len());
    }
    if below.len() == 0 {
        return None;
    }
    let mut target = components_of_chars(chars.as_slice());
    proof {
        assert(texts(target@).len() == target@.len());
    }
    let ghost all = texts(target@);
    target.truncate(target.len() - 1);
    proof {
        assert(texts(target@) =~= all.drop_last());
    }
    let mut n: usize = 0;
    let end: usize = chars.len();
    while n < end
        invariant
            n <= end == chars@.len(),
            chars@ == path@,
            names(path@).len() > 0,
            texts(target@) == components(path@).drop_last(),
            parent(path@) == prefix_with_components(path@, texts(target@), n as int),
        decreases end - n,
    {
        let prefix = slice_subrange(chars.as_slice(), 0, n);
        if same_components(&components_of_chars(prefix), &target) {
            return Some(text_of(prefix));
        }
        n += 1;
    }
    proof {
        assert(path@.take(path@.len() as int) =~= path@);
        assert(components(path@).len() == texts(target@).len() + 1);
        assert(prefix_with_components(path@, texts(target@), n + 1) is None);
    }
    None
}

/// Lists a path, its parent, the parent of that, and so on.
pub fn list_ancestors(path: &str) -> (r: Vec<String>)
    ensures
        crate::text::strings(r@) == ancestors(path@),
{
    let mut out: Vec<String> = Vec::new();
    let mut here: String = path.to_owned();
    let mut more: bool = true;
    proof {
        assert(crate::text::strings(out@) + ancestors(here@) =~= ancestors(path@));
    }
    while more
        invariant
            more ==> ancestors(path@) == crate::text::strings(out@) + ancestors(here@),
            !more ==> ancestors(path@) == crate::text::strings(out@),
        decreases
            here@.len() + (if more {
                1nat
            } else {
                0nat
            }),
    {
        let ghost before = crate::text::strings(out@);
        let up = find_parent(here.as_str());
        let ghost current = here@;
        out.push(here.clone());
        proof {
            assert(crate::text::strings(out@) =~= before.push(current));
        }
        match up {
            Some(up) => {
                proof {
                    lemma_parent_is_shorter(current);
                    assert(before.push(current) + ancestors(up@) =~= before + (seq![current]
                        + ancestors(up@)));
                }
                here = up;
            },
            None => {
                proof {
                    assert(before.push(current) =~= before + seq![current]);
                }
                more = false;
            },
        }
    }
    out
}

/// Finds the last component of a path, where it names something.
pub fn find_file_name(path: &str) -> (r: Option<String>)
    ensures
        match r {
            Some(name) => file_name(path@) == Some(name@),
            None => file_name(path@) is None,
        },
{
    let chars = chars_of(path);
    let below = names_of(chars.as_slice());
    proof {
        assert(texts(below@).len() == below@.len());
    }
    if below.len() == 0 {
        return None;
    }
    let last = below[below.len() - 1].as_slice();
    proof {
        assert(texts(below@)[below@.len() - 1] == last@);
    }
    if spells(last, "..") || spells(last, ".") {
        None
    } else {
        Some(text_of(last))
    }
}

/// The path of `name` below `base`.
pub fn join(base: &str, name: &str) -> (r: String)
    ensures
        r@ == joined(base@, name@),
{
    let base_chars = chars_of(base);
    if is_absolute(name) || base_chars.len() == 0 {
        name.to_owned()
    } else if base_chars[base_chars.len() - 1] == '/' {
        concat(base, name)
    } else {
        let mut out = base.to_owned();
        out.push('/');
        out.append(name);
        proof {
            assert(base@.push('/') =~= base@ + seq!['/']);
        }
        out
    }
}

} // verus!
