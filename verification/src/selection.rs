//! Picking items out of sequences, in their order.

use vstd::prelude::*;

verus! {

/// The values that `f` gives on the items of `s`, in their order.
pub open spec fn picked<A, B>(s: Seq<A>, f: spec_fn(A) -> Option<B>) -> Seq<B> {
    s.map_values(f).filter(|v: Option<B>| v is Some).map_values(|v: Option<B>| v->0)
}

/// Whether `f` gives `value` on some item of `s`.
pub open spec fn gives<A, B>(s: Seq<A>, f: spec_fn(A) -> Option<B>, value: B) -> bool {
    exists|i: int| 0 <= i < s.len() && f(#[trigger] s[i]) == Some(value)
}

/// What one more item adds.
pub proof fn lemma_picked_push<A, B>(s: Seq<A>, f: spec_fn(A) -> Option<B>, n: int)
    requires
        0 < n <= s.len(),
    ensures
        picked(s.take(n), f) == match f(s[n - 1]) {
            Some(value) => picked(s.take(n - 1), f).push(value),
            None => picked(s.take(n - 1), f),
        },
{
    reveal(Seq::filter);
    let some = |v: Option<B>| v is Some;
    let inner = |v: Option<B>| v->0;
    let before = s.take(n - 1).map_values(f);
    assert(s.take(n).map_values(f) =~= before.push(f(s[n - 1])));
    assert(before.push(f(s[n - 1])).drop_last() =~= before);
    if f(s[n - 1]) is Some {
        assert(before.filter(some).push(f(s[n - 1])).map_values(inner) =~= before.filter(
            some,
        ).map_values(inner).push(f(s[n - 1])->0));
    }
}

/// Nothing is picked out of nothing.
pub proof fn lemma_picked_none<A, B>(s: Seq<A>, f: spec_fn(A) -> Option<B>)
    ensures
        picked(s.take(0), f) == Seq::<B>::empty(),
{
    reveal(Seq::filter);
    assert(s.take(0).map_values(f) =~= Seq::empty());
    assert(picked(s.take(0), f) =~= Seq::<B>::empty());
}

/// What is picked is what `f` gives.
pub proof fn lemma_picked_values<A, B>(s: Seq<A>, f: spec_fn(A) -> Option<B>)
    ensures
        forall|value: B| #[trigger] picked(s, f).contains(value) <==> gives(s, f, value),
        picked(s, f).len() <= s.len(),
    decreases s.len(),
{
    if s.len() == 0 {
        lemma_picked_none(s, f);
        assert(s.take(0) =~= s);
    } else {
        let n = s.len() as int;
        let shorter = s.drop_last();
        assert(s.take(n) =~= s);
        assert(s.take(n - 1) =~= shorter);
        lemma_picked_push(s, f, n);
        lemma_picked_values(shorter, f);
        assert forall|value: B| #[trigger] picked(s, f).contains(value) <==> gives(s, f, value) by {
            let all = picked(s, f);
            let before = picked(shorter, f);
            if all.contains(value) {
                let i = choose|i: int| 0 <= i < all.len() && all[i] == value;
                if i < before.len() {
                    assert(before[i] == value);
                    assert(before.contains(value));
                    let j = choose|j: int|
                        0 <= j < shorter.len() && f(#[trigger] shorter[j]) == Some(value);
                    assert(f(s[j]) == Some(value));
                } else {
                    assert(f(s[n - 1]) == Some(value));
                }
            }
            if gives(s, f, value) {
                let j = choose|j: int| 0 <= j < s.len() && f(#[trigger] s[j]) == Some(value);
                if j < n - 1 {
                    assert(f(shorter[j]) == Some(value));
                    assert(before.contains(value));
                    let i = choose|i: int| 0 <= i < before.len() && before[i] == value;
                    assert(all[i] == value);
                } else {
                    assert(all[before.len() as int] == value);
                }
            }
        }
    }
}

/// One more part of some parts that are strung together.
pub proof fn lemma_strung_push<A>(parts: Seq<Seq<A>>, n: int)
    requires
        0 < n <= parts.len(),
    ensures
        parts.take(n).flatten() == parts.take(n - 1).flatten() + parts[n - 1],
{
    parts.take(n).lemma_flatten_and_flatten_alt_are_equivalent();
    parts.take(n - 1).lemma_flatten_and_flatten_alt_are_equivalent();
    assert(parts.take(n).drop_last() =~= parts.take(n - 1));
}

/// What parts that are strung together hold.
pub proof fn lemma_strung_values<A>(parts: Seq<Seq<A>>, n: int)
    requires
        0 <= n <= parts.len(),
    ensures
        forall|x: A| #[trigger]
            parts.take(n).flatten().contains(x) <==> exists|k: int|
                0 <= k < n && (#[trigger] parts[k]).contains(x),
    decreases n,
{
    let all = parts.take(n).flatten();
    if n > 0 {
        lemma_strung_push(parts, n);
        lemma_strung_values(parts, n - 1);
        let before = parts.take(n - 1).flatten();
        let last = parts[n - 1];
        assert forall|x: A| #[trigger] all.contains(x) <==> exists|k: int|
            0 <= k < n && (#[trigger] parts[k]).contains(x) by {
            if all.contains(x) {
                let i = choose|i: int| 0 <= i < all.len() && all[i] == x;
                if i < before.len() {
                    assert(before[i] == x);
                    assert(before.contains(x));
                } else {
                    assert(last[i - before.len()] == x);
                    assert(parts[n - 1].contains(x));
                }
            }
            if exists|k: int| 0 <= k < n && (#[trigger] parts[k]).contains(x) {
                let k = choose|k: int| 0 <= k < n && (#[trigger] parts[k]).contains(x);
                if k < n - 1 {
                    assert(before.contains(x));
                    let i = choose|i: int| 0 <= i < before.len() && before[i] == x;
                    assert(all[i] == x);
                } else {
                    let i = choose|i: int| 0 <= i < last.len() && last[i] == x;
                    assert(all[i + before.len()] == x);
                }
            }
        }
    } else {
        assert(parts.take(0).len() == 0);
        assert(all =~= Seq::empty());
    }
}

} // verus!
