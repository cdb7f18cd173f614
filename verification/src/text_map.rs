//! A map whose keys are texts.

use vstd::prelude::*;

use crate::text::same_text;

verus! {

/// The map that the first `n` of some entries make up.
pub open spec fn entries_map<V>(entries: Seq<(String, V)>, n: int) -> Map<Seq<char>, V>
    decreases n,
{
    if n <= 0 {
        Map::empty()
    } else {
        entries_map(entries, n - 1).insert(entries[n - 1].0@, entries[n - 1].1)
    }
}

/// Whether no two entries have one key.
pub open spec fn distinct_keys<V>(entries: Seq<(String, V)>) -> bool {
    forall|i: int, j: int|
        0 <= i < j < entries.len() ==> (#[trigger] entries[i]).0@ != (#[trigger] entries[j]).0@
}

/// The keys of the map are those of its entries.
proof fn lemma_keys<V>(entries: Seq<(String, V)>, n: int, key: Seq<char>)
    requires
        0 <= n <= entries.len(),
    ensures
        entries_map(entries, n).contains_key(key) <==> exists|i: int|
            0 <= i < n && (#[trigger] entries[i]).0@ == key,
    decreases n,
{
    if n > 0 {
        lemma_keys(entries, n - 1, key);
        if entries_map(entries, n).contains_key(key) && entries[n - 1].0@ != key {
            let i = choose|i: int| 0 <= i < n - 1 && (#[trigger] entries[i]).0@ == key;
            assert(entries[i].0@ == key);
        }
    }
}

/// Each entry gives the value of its key.
proof fn lemma_value<V>(entries: Seq<(String, V)>, n: int, i: int)
    requires
        0 <= i < n <= entries.len(),
        distinct_keys(entries),
    ensures
        entries_map(entries, n).contains_key(entries[i].0@),
        entries_map(entries, n)[entries[i].0@] == entries[i].1,
    decreases n,
{
    if i < n - 1 {
        lemma_value(entries, n - 1, i);
        assert(entries[i].0@ != entries[n - 1].0@);
    }
}

/// Only the first `n` entries matter.
proof fn lemma_same_entries<V>(a: Seq<(String, V)>, b: Seq<(String, V)>, n: int)
    requires
        n <= a.len(),
        n <= b.len(),
        forall|i: int| 0 <= i < n ==> a[i] == b[i],
    ensures
        entries_map(a, n) == entries_map(b, n),
    decreases n,
{
    if n > 0 {
        lemma_same_entries(a, b, n - 1);
    }
}

/// A map from texts to values.
pub struct TextMap<V> {
    entries: Vec<(String, V)>,
}

impl<V> TextMap<V> {
    #[verifier::type_invariant]
    spec fn well_formed(self) -> bool {
        distinct_keys(self.entries@)
    }

    /// The value of each key.
    pub closed spec fn contents(self) -> Map<Seq<char>, V> {
        entries_map(self.entries@, self.entries@.len() as int)
    }

    /// The map without keys.
    pub fn new() -> (r: Self)
        ensures
            r@ == Map::<Seq<char>, V>::empty(),
    {
        TextMap { entries: Vec::new() }
    }

    /// Where the entry of a key is.
    fn position(&self, key: &str) -> (r: Option<usize>)
        ensures
            match r {
                Some(i) => i < self.entries@.len() && self.entries@[i as int].0@ == key@,
                None => forall|i: int|
                    0 <= i < self.entries@.len() ==> (#[trigger] self.entries@[i]).0@ != key@,
            },
    {
        let mut i: usize = 0;
        while i < self.entries.len()
            invariant
                i <= self.entries@.len(),
                forall|j: int| 0 <= j < i ==> (#[trigger] self.entries@[j]).0@ != key@,
            decreases self.entries.len() - i,
        {
            if same_text(self.entries[i].0.as_str(), key) {
                return Some(i);
            }
            i += 1;
        }
        None
    }

    /// The value of a key.
    pub fn get(&self, key: &str) -> (r: Option<&V>)
        ensures
            match r {
                Some(value) => self@.contains_key(key@) && *value == self@[key@],
                None => !self@.contains_key(key@),
            },
    {
        proof {
            use_type_invariant(self);
            lemma_keys(self.entries@, self.entries@.len() as int, key@);
        }
        match self.position(key) {
            Some(i) => {
                proof {
                    lemma_value(self.entries@, self.entries@.len() as int, i as int);
                }
                Some(&self.entries[i].1)
            },
            None => None,
        }
    }

    /// Gives a key a value, in place of the one that it had.
    pub fn insert(&mut self, key: &str, value: V)
        ensures
            final(self)@ == old(self)@.insert(key@, value),
    {
        proof {
            use_type_invariant(&*self);
        }
        let ghost before = self.entries@;
        let found = self.position(key);
        let mut entries: Vec<(String, V)> = Vec::new();
        std::mem::swap(&mut entries, &mut self.entries);
        match found {
            Some(i) => {
                entries.set(i, (key.to_owned(), value));
                proof {
                    let after = entries@;
                    assert(distinct_keys(after)) by {
                        assert forall|a: int, b: int| 0 <= a < b < after.len() implies (
                        #[trigger] after[a]).0@ != (#[trigger] after[b]).0@ by {
                            assert(before[a].0@ != before[b].0@);
                        }
                    }
                    let n = before.len() as int;
                    assert forall|k: Seq<char>| #[trigger]
                        entries_map(after, n).contains_key(k) <==> entries_map(
                            before,
                            n,
                        ).contains_key(k) by {
                        lemma_keys(after, n, k);
                        lemma_keys(before, n, k);
                        if entries_map(before, n).contains_key(k) {
                            let j = choose|j: int| 0 <= j < n && (#[trigger] before[j]).0@ == k;
                            assert(after[j].0@ == k);
                        }
                        if entries_map(after, n).contains_key(k) {
                            let j = choose|j: int| 0 <= j < n && (#[trigger] after[j]).0@ == k;
                            assert(before[j].0@ == k);
                        }
                    }
                    lemma_value(before, n, i as int);
                    lemma_value(after, n, i as int);
                    assert forall|k: Seq<char>| #[trigger]
                        entries_map(after, n).contains_key(k) && k != key@ implies entries_map(
                        after,
                        n,
                    )[k] == entries_map(before, n)[k] by {
                        lemma_keys(after, n, k);
                        let j = choose|j: int| 0 <= j < n && (#[trigger] after[j]).0@ == k;
                        lemma_value(after, n, j);
                        lemma_value(before, n, j);
                    }
                    assert(entries_map(after, n) =~= entries_map(before, n).insert(key@, value));
                }
            },
            None => {
                entries.push((key.to_owned(), value));
                proof {
                    lemma_same_entries(before, entries@, before.len() as int);
                    assert(entries@.drop_last() =~= before);
                }
            },
        }
        self.entries = entries;
    }

    /// Takes a key and its value away.
    pub fn remove(&mut self, key: &str)
        ensures
            final(self)@ == old(self)@.remove(key@),
    {
        proof {
            use_type_invariant(&*self);
        }
        let ghost before = self.entries@;
        let ghost n = before.len() as int;
        let found = self.position(key);
        match found {
            Some(i) => {
                let mut entries: Vec<(String, V)> = Vec::new();
                std::mem::swap(&mut entries, &mut self.entries);
                entries.remove(i);
                proof {
                    let after = entries@;
                    assert(after =~= before.remove(i as int));
                    assert(distinct_keys(after)) by {
                        assert forall|a: int, b: int| 0 <= a < b < after.len() implies (
                        #[trigger] after[a]).0@ != (#[trigger] after[b]).0@ by {
                            let old_a = if a < i {
                                a
                            } else {
                                a + 1
                            };
                            let old_b = if b < i {
                                b
                            } else {
                                b + 1
                            };
                            assert(before[old_a].0@ != before[old_b].0@);
                        }
                    }
                    assert forall|k: Seq<char>| #[trigger]
                        entries_map(after, n - 1).contains_key(k) <==> entries_map(
                            before,
                            n,
                        ).contains_key(k) && k != key@ by {
                        lemma_keys(after, n - 1, k);
                        lemma_keys(before, n, k);
                        if entries_map(before, n).contains_key(k) && k != key@ {
                            let j = choose|j: int| 0 <= j < n && (#[trigger] before[j]).0@ == k;
                            assert(after[if j < i {
                                j
                            } else {
                                j - 1
                            }].0@ == k);
                        }
                        if entries_map(after, n - 1).contains_key(k) {
                            let j = choose|j: int| 0 <= j < n - 1 && (#[trigger] after[j]).0@ == k;
                            let old_j = if j < i {
                                j
                            } else {
                                j + 1
                            };
                            assert(before[old_j].0@ == k);
                            if j < i {
                                assert(before[old_j].0@ != before[i as int].0@);
                            } else {
                                assert(before[i as int].0@ != before[old_j].0@);
                            }
                        }
                    }
                    assert forall|k: Seq<char>| #[trigger]
                        entries_map(after, n - 1).contains_key(k) implies entries_map(
                        after,
                        n - 1,
                    )[k] == entries_map(before, n)[k] by {
                        lemma_keys(after, n - 1, k);
                        let j = choose|j: int| 0 <= j < n - 1 && (#[trigger] after[j]).0@ == k;
                        lemma_value(after, n - 1, j);
                        lemma_value(
                            before,
                            n,
                            if j < i {
                                j
                            } else {
                                j + 1
                            },
                        );
                    }
                    assert(entries_map(after, n - 1) =~= entries_map(before, n).remove(key@));
                }
                self.entries = entries;
            },
            None => {
                proof {
                    lemma_keys(before, n, key@);
                    assert(entries_map(before, n) =~= entries_map(before, n).remove(key@));
                }
            },
        }
    }

    /// The keys, in the order in which the map holds them.
    pub closed spec fn keys(self) -> Seq<Seq<char>> {
        Seq::new(self.entries@.len(), |i: int| self.entries@[i].0@)
    }

    /// The number of keys.
    pub fn len(&self) -> (r: usize)
        ensures
            r == self@.len(),
            r == self.keys().len(),
            self@.dom().finite(),
            self.keys().no_duplicates(),
            forall|key: Seq<char>| #[trigger]
                self.keys().contains(key) <==> self@.contains_key(key),
    {
        proof {
            use_type_invariant(self);
            lemma_size(self.entries@, self.entries@.len() as int);
            assert forall|key: Seq<char>| #[trigger]
                self.keys().contains(key) <==> self@.contains_key(key) by {
                lemma_keys(self.entries@, self.entries@.len() as int, key);
                if self@.contains_key(key) {
                    let i = choose|i: int|
                        0 <= i < self.entries@.len() && (#[trigger] self.entries@[i]).0@ == key;
                    assert(self.keys()[i] == key);
                }
                if self.keys().contains(key) {
                    let i = choose|i: int| 0 <= i < self.keys().len() && self.keys()[i] == key;
                    assert(self.entries@[i].0@ == key);
                }
            }
        }
        self.entries.len()
    }

    /// The key at a position among the keys, with its value.
    pub fn entry(&self, i: usize) -> (r: Option<(&str, &V)>)
        ensures
            match r {
                Some((key, value)) => {
                    &&& i < self.keys().len()
                    &&& key@ == self.keys()[i as int]
                    &&& self@.contains_key(key@)
                    &&& *value == self@[key@]
                },
                None => i >= self.keys().len(),
            },
    {
        if i < self.entries.len() {
            proof {
                use_type_invariant(self);
                lemma_value(self.entries@, self.entries@.len() as int, i as int);
            }
            Some((self.entries[i].0.as_str(), &self.entries[i].1))
        } else {
            None
        }
    }
}

/// There are as many keys as entries.
proof fn lemma_size<V>(entries: Seq<(String, V)>, n: int)
    requires
        0 <= n <= entries.len(),
        distinct_keys(entries),
    ensures
        entries_map(entries, n).dom().finite(),
        entries_map(entries, n).len() == n,
    decreases n,
{
    if n > 0 {
        lemma_size(entries, n - 1);
        lemma_keys(entries, n - 1, entries[n - 1].0@);
        assert(entries_map(entries, n).dom() =~= entries_map(entries, n - 1).dom().insert(
            entries[n - 1].0@,
        ));
    }
}

impl<V> View for TextMap<V> {
    type V = Map<Seq<char>, V>;

    open spec fn view(&self) -> Map<Seq<char>, V> {
        self.contents()
    }
}

} // verus!
