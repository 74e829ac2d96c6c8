//! A map from text to values that keeps its entries in the lexicographic
//! order of their keys.
//!
//! It stands where a `BTreeMap` keyed by `String` would: of such a map
//! Verus proves nothing, not even that it holds a key that was put in,
//! because it knows no order of `String`. Keyed by an integer, `BTreeMap`
//! itself is used.

use vstd::prelude::*;
use crate::assoc::{
    find, has_key, lemma_find_at, lemma_find_has_key, lemma_find_index, lemma_find_none,
    lemma_sorted_distinct, lemma_sorted_insert, strictly_sorted,
};
use crate::text::{
    chars_eq, chars_lt, chars_of, lemma_lex_irreflexive, lemma_lex_total, lemma_lex_transitive,
    lex_lt,
};

verus! {

/// A map keyed by text. Its entries are held, and handed out, in strictly
/// increasing order of their keys, so no key occurs twice.
#[derive(Debug, PartialEq, Eq)]
pub struct TextMap<V> {
    entries: Vec<(String, V)>,
}

/// The keys and values of `entries`.
pub open spec fn pairs_of<V>(entries: Seq<(String, V)>) -> Seq<(Seq<char>, V)> {
    Seq::new(entries.len(), |i: int| (entries[i].0@, entries[i].1))
}

impl<V> TextMap<V> {
    /// The entries, in order: each key with its value.
    pub closed spec fn pairs(&self) -> Seq<(Seq<char>, V)> {
        pairs_of(self.entries@)
    }

    #[verifier::type_invariant]
    spec fn ordered(&self) -> bool {
        strictly_sorted(pairs_of(self.entries@))
    }

    /// The value at `key`.
    pub open spec fn lookup(&self, key: Seq<char>) -> Option<V> {
        find(self.pairs(), key)
    }

    /// Whether `key` has an entry.
    pub open spec fn contains(&self, key: Seq<char>) -> bool {
        has_key(self.pairs(), key)
    }

    /// The empty map.
    pub fn new() -> (r: Self)
        ensures
            r.pairs() == Seq::<(Seq<char>, V)>::empty(),
    {
        let r = TextMap { entries: Vec::new() };
        assert(r.pairs() =~= Seq::<(Seq<char>, V)>::empty());
        r
    }

    /// The number of entries. The keys are in strictly increasing order.
    pub fn len(&self) -> (r: usize)
        ensures
            r == self.pairs().len(),
            strictly_sorted(self.pairs()),
    {
        proof {
            use_type_invariant(self);
        }
        self.entries.len()
    }

    /// Whether the map has no entry.
    pub fn is_empty(&self) -> (r: bool)
        ensures
            r == (self.pairs().len() == 0),
    {
        self.entries.len() == 0
    }

    /// The key of the entry at position `i`.
    pub fn key_at(&self, i: usize) -> (r: &String)
        requires
            i < self.pairs().len(),
        ensures
            r@ == self.pairs()[i as int].0,
    {
        &self.entries[i].0
    }

    /// The value of the entry at position `i`.
    pub fn value_at(&self, i: usize) -> (r: &V)
        requires
            i < self.pairs().len(),
        ensures
            *r == self.pairs()[i as int].1,
    {
        &self.entries[i].1
    }

    /// The position of the entry at `key`.
    pub fn position(&self, key: &str) -> (r: Option<usize>)
        ensures
            r is Some == self.contains(key@),
            r matches Some(i) ==> i < self.pairs().len() && self.pairs()[i as int].0 == key@
                && self.lookup(key@) == Some(self.pairs()[i as int].1),
            r is None ==> self.lookup(key@) is None,
    {
        let wanted = chars_of(key);
        let mut i: usize = 0;
        while i < self.entries.len()
            invariant
                i <= self.entries.len(),
                wanted@ == key@,
                forall|j: int| 0 <= j < i ==> (#[trigger] self.pairs()[j]).0 != key@,
            decreases self.entries.len() - i,
        {
            let name = chars_of(self.entries[i].0.as_str());
            if chars_eq(&name, &wanted) {
                proof {
                    assert(self.pairs()[i as int].0 == key@);
                    lemma_find_at(self.pairs(), key@, i as int);
                }
                return Some(i);
            }
            i += 1;
        }
        proof {
            assert(!has_key(self.pairs(), key@));
            lemma_find_none(self.pairs(), key@);
        }
        None
    }

    /// The value at `key`.
    pub fn get(&self, key: &str) -> (r: Option<&V>)
        ensures
            r is Some == self.lookup(key@) is Some,
            r matches Some(v) ==> Some(*v) == self.lookup(key@),
    {
        match self.position(key) {
            Some(i) => Some(&self.entries[i].1),
            None => None,
        }
    }

    /// Whether `key` has an entry.
    pub fn contains_key(&self, key: &str) -> (r: bool)
        ensures
            r == self.contains(key@),
            r == self.lookup(key@) is Some,
    {
        proof {
            lemma_find_has_key(self.pairs(), key@);
        }
        self.position(key).is_some()
    }

    /// Sets the value at `key`, which replaces the one that was there.
    pub fn insert(&mut self, key: String, value: V)
        ensures
            final(self).lookup(key@) == Some(value),
            forall|k: Seq<char>| k != key@ ==> final(self).lookup(k) == old(self).lookup(k),
            forall|k: Seq<char>| final(self).contains(k) == (k == key@ || old(self).contains(k)),
            strictly_sorted(final(self).pairs()),
    {
        let mut taken = TextMap::new();
        core::mem::swap(self, &mut taken);
        *self = taken.put(key, value, true);
    }

    /// Sets the value at `key` unless the key has an entry already.
    pub fn insert_if_absent(&mut self, key: String, value: V)
        ensures
            final(self).lookup(key@) == (match old(self).lookup(key@) {
                Some(v) => Some(v),
                None => Some(value),
            }),
            forall|k: Seq<char>| k != key@ ==> final(self).lookup(k) == old(self).lookup(k),
            forall|k: Seq<char>| final(self).contains(k) == (k == key@ || old(self).contains(k)),
            strictly_sorted(final(self).pairs()),
    {
        let mut taken = TextMap::new();
        core::mem::swap(self, &mut taken);
        *self = taken.put(key, value, false);
    }

    /// The map with the value at `key` set; where the key has an entry, its
    /// value is replaced only if `replace` says so.
    fn put(self, key: String, value: V, replace: bool) -> (r: Self)
        ensures
            r.lookup(key@) == (match self.lookup(key@) {
                Some(v) => if replace {
                    Some(value)
                } else {
                    Some(v)
                },
                None => Some(value),
            }),
            forall|k: Seq<char>| k != key@ ==> r.lookup(k) == self.lookup(k),
            forall|k: Seq<char>| r.contains(k) == (k == key@ || self.contains(k)),
            strictly_sorted(r.pairs()),
    {
        proof {
            use_type_invariant(&self);
        }
        let ghost before = self.pairs();
        let mut entries = self.entries;
        let wanted = chars_of(key.as_str());
        let mut i: usize = 0;
        let mut stop = false;
        while !stop && i < entries.len()
            invariant
                i <= entries.len(),
                wanted@ == key@,
                pairs_of(entries@) == before,
                forall|j: int| 0 <= j < i ==> lex_lt((#[trigger] before[j]).0, key@),
                stop ==> i < entries.len() && !lex_lt(before[i as int].0, key@),
            decreases entries.len() - i + (if stop { 0int } else { 1int }),
        {
            let name = chars_of(entries[i].0.as_str());
            if chars_lt(&name, &wanted) {
                i += 1;
            } else {
                stop = true;
            }
        }
        let here = i < entries.len() && chars_eq(&chars_of(entries[i].0.as_str()), &wanted);
        proof {
            lemma_sorted_distinct(before);
            assert forall|j: int| 0 <= j < i implies (#[trigger] before[j]).0 != key@ by {
                lemma_lex_irreflexive(key@);
            }
        }
        if here {
            proof {
                lemma_find_at(before, key@, i as int);
            }
            if replace {
                entries.set(i, (key, value));
                proof {
                    let after = pairs_of(entries@);
                    assert(after =~= before.update(i as int, (key@, value)));
                    assert(strictly_sorted(after)) by {
                        assert forall|a: int, b: int| 0 <= a < b < after.len() implies lex_lt(
                            (#[trigger] after[a]).0,
                            (#[trigger] after[b]).0,
                        ) by {
                            assert(after[a].0 == before[a].0);
                            assert(after[b].0 == before[b].0);
                        }
                    }
                    lemma_find_at(after, key@, i as int);
                    lemma_same_keys_lookup(before, after, i as int);
                }
            } else {
                proof {
                    assert forall|k: Seq<char>| has_key(before, k) == (k == key@ || has_key(
                        before,
                        k,
                    )) by {
                        assert(before[i as int].0 == key@);
                    }
                }
            }
        } else {
            proof {
                if i < before.len() {
                    if !lex_lt(key@, before[i as int].0) {
                        lemma_lex_total(key@, before[i as int].0);
                    }
                }
                lemma_sorted_insert(before, i as int, (key@, value));
            }
            entries.insert(i, (key, value));
            proof {
                let after = pairs_of(entries@);
                assert(after =~= before.insert(i as int, (key@, value)));
                lemma_find_at(after, key@, i as int);
                assert(!has_key(before, key@)) by {
                    if has_key(before, key@) {
                        let j = choose|j: int| 0 <= j < before.len() && (#[trigger] before[j]).0
                            == key@;
                        if j > i {
                            lemma_lex_irreflexive(key@);
                            lemma_lex_transitive(key@, before[i as int].0, before[j].0);
                        } else if j == i {
                            lemma_lex_irreflexive(key@);
                        }
                    }
                }
                lemma_find_none(before, key@);
                lemma_inserted_lookup(before, i as int, (key@, value));
            }
        }
        TextMap { entries }
    }
}

/// Replacing the value of one entry changes no other lookup and no key.
pub proof fn lemma_same_keys_lookup<V>(
    before: Seq<(Seq<char>, V)>,
    after: Seq<(Seq<char>, V)>,
    i: int,
)
    requires
        0 <= i < before.len(),
        after.len() == before.len(),
        after[i].0 == before[i].0,
        forall|j: int| 0 <= j < before.len() && j != i ==> after[j] == before[j],
    ensures
        forall|k: Seq<char>| k != before[i].0 ==> find(after, k) == find(before, k),
        forall|k: Seq<char>| has_key(after, k) == has_key(before, k),
{
    assert forall|k: Seq<char>| has_key(after, k) == has_key(before, k) by {
        if has_key(after, k) {
            let j = choose|j: int| 0 <= j < after.len() && (#[trigger] after[j]).0 == k;
            assert(before[j].0 == k);
        }
        if has_key(before, k) {
            let j = choose|j: int| 0 <= j < before.len() && (#[trigger] before[j]).0 == k;
            assert(after[j].0 == k);
        }
    }
    assert forall|k: Seq<char>| k != before[i].0 implies find(after, k) == find(before, k) by {
        lemma_find_has_key(before, k);
        lemma_find_has_key(after, k);
        if find(before, k) is Some {
            let j = lemma_find_index(before, k);
            assert forall|m: int| 0 <= m < j implies (#[trigger] after[m]).0 != k by {
                assert(before[m].0 != k);
            }
            assert(after[j] == before[j]);
            lemma_find_at(after, k, j);
        }
    }
}

/// A new entry changes the lookup of no other key, and adds its key.
pub proof fn lemma_inserted_lookup<V>(before: Seq<(Seq<char>, V)>, i: int, pair: (Seq<char>, V))
    requires
        0 <= i <= before.len(),
    ensures
        forall|k: Seq<char>|
            k != pair.0 ==> find(before.insert(i, pair), k) == find(before, k),
        forall|k: Seq<char>|
            has_key(before.insert(i, pair), k) == (k == pair.0 || has_key(before, k)),
{
    let after = before.insert(i, pair);
    assert forall|k: Seq<char>| has_key(after, k) == (k == pair.0 || has_key(before, k)) by {
        if has_key(after, k) && k != pair.0 {
            let j = choose|j: int| 0 <= j < after.len() && (#[trigger] after[j]).0 == k;
            if j < i {
                assert(before[j].0 == k);
            } else {
                assert(after[j] == before[j - 1]);
                assert(before[j - 1].0 == k);
            }
        }
        if has_key(before, k) {
            let j = choose|j: int| 0 <= j < before.len() && (#[trigger] before[j]).0 == k;
            if j < i {
                assert(after[j].0 == k);
            } else {
                assert(after[j + 1] == before[j]);
                assert(after[j + 1].0 == k);
            }
        }
        if k == pair.0 {
            assert(after[i].0 == k);
        }
    }
    assert forall|k: Seq<char>| k != pair.0 implies find(after, k) == find(before, k) by {
        lemma_find_has_key(before, k);
        lemma_find_has_key(after, k);
        if find(before, k) is Some {
            let j = lemma_find_index(before, k);
            let j2 = if j < i {
                j
            } else {
                j + 1
            };
            assert(after[j2] == before[j]);
            assert forall|m: int| 0 <= m < j2 implies (#[trigger] after[m]).0 != k by {
                if m < i {
                    assert(after[m] == before[m]);
                } else if m > i {
                    assert(after[m] == before[m - 1]);
                }
            }
            lemma_find_at(after, k, j2);
        }
    }
}

} // verus!
