//! A small map from text keys to values, kept in key order.
use vstd::prelude::*;
use crate::text::{
    chars_eq, chars_lt, chars_of, lemma_seq_lt_irreflexive, lemma_seq_lt_total,
    lemma_seq_lt_transitive, seq_lt,
};

verus! {

/// Entries with text keys, stored in strictly increasing key order.
pub struct KeyedStore<V> {
    entries: Vec<(String, V)>,
}

/// The keys of `s` increase strictly.
pub open spec fn keys_sorted<V>(s: Seq<(String, V)>) -> bool {
    forall|i: int, j: int| 0 <= i < j < s.len() ==> seq_lt(#[trigger] s[i].0@, #[trigger] s[j].0@)
}

/// Some entry of `s` has the key `k`.
pub open spec fn has_key<V>(s: Seq<(String, V)>, k: Seq<char>) -> bool {
    exists|i: int| 0 <= i < s.len() && (#[trigger] s[i]).0@ == k
}

/// A position of `s` holding the key `k`, when there is one.
pub open spec fn key_index<V>(s: Seq<(String, V)>, k: Seq<char>) -> int {
    choose|i: int| 0 <= i < s.len() && (#[trigger] s[i]).0@ == k
}

/// The map that the entries of `s` describe.
pub open spec fn entries_map<V>(s: Seq<(String, V)>) -> Map<Seq<char>, V> {
    Map::new(|k: Seq<char>| has_key(s, k), |k: Seq<char>| s[key_index(s, k)].1)
}

/// The entries of `s` as pairs of key text and value.
pub open spec fn entry_views<V>(s: Seq<(String, V)>) -> Seq<(Seq<char>, V)> {
    s.map_values(|e: (String, V)| (e.0@, e.1))
}

impl<V> KeyedStore<V> {
    /// The map from keys to values.
    pub closed spec fn view(&self) -> Map<Seq<char>, V> {
        entries_map(self.entries@)
    }

    /// The entries in increasing key order.
    pub closed spec fn ordered(&self) -> Seq<(Seq<char>, V)> {
        entry_views(self.entries@)
    }

    /// The entries are stored in strictly increasing key order.
    pub closed spec fn wf(&self) -> bool {
        keys_sorted(self.entries@)
    }

    proof fn lemma_lookup(&self, i: int)
        requires
            self.wf(),
            0 <= i < self.entries@.len(),
        ensures
            self@.contains_key(self.entries@[i].0@),
            self@[self.entries@[i].0@] == self.entries@[i].1,
    {
        let s = self.entries@;
        let k = s[i].0@;
        assert(has_key(s, k));
        let j = key_index(s, k);
        if j != i {
            if j < i {
                assert(seq_lt(s[j].0@, s[i].0@));
            } else {
                assert(seq_lt(s[i].0@, s[j].0@));
            }
            lemma_seq_lt_irreflexive(k);
        }
    }

    /// A well-formed store lists each of its keys once, in increasing order, with its value.
    pub proof fn lemma_ordered(&self)
        requires
            self.wf(),
        ensures
            forall|i: int, j: int|
                0 <= i < j < self.ordered().len() ==> seq_lt(
                    #[trigger] self.ordered()[i].0,
                    #[trigger] self.ordered()[j].0,
                ),
            forall|k: Seq<char>|
                self@.contains_key(k) <==> exists|i: int|
                    0 <= i < self.ordered().len() && (#[trigger] self.ordered()[i]).0 == k,
            forall|i: int|
                0 <= i < self.ordered().len() ==> self@.contains_key(
                    (#[trigger] self.ordered()[i]).0,
                ) && self@[self.ordered()[i].0] == self.ordered()[i].1,
    {
        let s = self.entries@;
        assert forall|i: int| 0 <= i < self.ordered().len() implies self@.contains_key(
            (#[trigger] self.ordered()[i]).0,
        ) && self@[self.ordered()[i].0] == self.ordered()[i].1 by {
            self.lemma_lookup(i);
        }
        assert forall|k: Seq<char>| self@.contains_key(k) implies exists|i: int|
            0 <= i < self.ordered().len() && (#[trigger] self.ordered()[i]).0 == k by {
            let i = choose|i: int| 0 <= i < s.len() && (#[trigger] s[i]).0@ == k;
            assert(self.ordered()[i].0 == k);
        }
        assert forall|k: Seq<char>|
            (exists|i: int| 0 <= i < self.ordered().len() && (#[trigger] self.ordered()[i]).0 == k)
            implies self@.contains_key(k) by {
            let i = choose|i: int| 0 <= i < self.ordered().len() && (#[trigger] self.ordered()[i]).0
                == k;
            assert(s[i].0@ == k);
        }
    }

    /// An empty store.
    pub fn new() -> (r: KeyedStore<V>)
        ensures
            r.wf(),
            r@ == Map::<Seq<char>, V>::empty(),
    {
        let r = KeyedStore { entries: Vec::new() };
        assert(r@ =~= Map::<Seq<char>, V>::empty());
        r
    }

    /// The number of entries.
    pub fn len(&self) -> (r: usize)
        requires
            self.wf(),
        ensures
            r == self@.len(),
            r == self.ordered().len(),
    {
        proof {
            self.lemma_card();
        }
        self.entries.len()
    }

    proof fn lemma_card(&self)
        requires
            self.wf(),
        ensures
            self@.dom().finite(),
            self@.len() == self.entries@.len(),
    {
        lemma_map_card(self.entries@);
    }

    /// The position of `key`, if it is stored.
    fn find(&self, key: &[char]) -> (r: Result<usize, usize>)
        requires
            self.wf(),
        ensures
            match r {
                Ok(i) => i < self.entries@.len() && self.entries@[i as int].0@ == key@,
                Err(i) => i <= self.entries@.len() && !self@.contains_key(key@) && (forall|j: int|
                    0 <= j < i ==> seq_lt(#[trigger] self.entries@[j].0@, key@)) && (forall|j: int|
                    i <= j < self.entries@.len() ==> seq_lt(key@, #[trigger] self.entries@[j].0@)),
            },
    {
        let mut i: usize = 0;
        while i < self.entries.len()
            invariant
                self.wf(),
                i <= self.entries@.len(),
                forall|j: int| 0 <= j < i ==> seq_lt(#[trigger] self.entries@[j].0@, key@),
            decreases self.entries.len() - i,
        {
            let k = chars_of(self.entries[i].0.as_str());
            if chars_eq(k.as_slice(), key) {
                return Ok(i);
            }
            if chars_lt(key, k.as_slice()) {
                proof {
                    assert forall|j: int| i <= j < self.entries@.len() implies seq_lt(
                        key@,
                        #[trigger] self.entries@[j].0@,
                    ) by {
                        if j > i {
                            lemma_seq_lt_transitive(key@, self.entries@[i as int].0@, self.entries@[j].0@);
                        }
                    }
                    self.lemma_absent(key@, i as int);
                }
                return Err(i);
            }
            proof {
                lemma_seq_lt_total(k@, key@);
            }
            i += 1;
        }
        proof {
            self.lemma_absent(key@, i as int);
        }
        Err(i)
    }

    proof fn lemma_absent(&self, key: Seq<char>, i: int)
        requires
            self.wf(),
            0 <= i <= self.entries@.len(),
            forall|j: int| 0 <= j < i ==> seq_lt(#[trigger] self.entries@[j].0@, key),
            forall|j: int| i <= j < self.entries@.len() ==> seq_lt(key, #[trigger] self.entries@[j].0@),
        ensures
            !self@.contains_key(key),
    {
        if has_key(self.entries@, key) {
            let j = choose|j: int| 0 <= j < self.entries@.len() && (#[trigger] self.entries@[j]).0@ == key;
            lemma_seq_lt_irreflexive(key);
        }
    }

    /// Whether `key` is stored.
    pub fn contains(&self, key: &str) -> (r: bool)
        requires
            self.wf(),
        ensures
            r == self@.contains_key(key@),
    {
        match self.find(chars_of(key).as_slice()) {
            Ok(i) => {
                proof {
                    self.lemma_lookup(i as int);
                }
                true
            },
            Err(_) => false,
        }
    }

    /// Stores `value` under `key`, replacing any value stored there.
    pub fn insert(&mut self, key: String, value: V)
        requires
            old(self).wf(),
        ensures
            final(self).wf(),
            final(self)@ == old(self)@.insert(key@, value),
    {
        let k = chars_of(key.as_str());
        let ghost old_s = self.entries@;
        let ghost key_v = key@;
        match self.find(k.as_slice()) {
            Ok(i) => {
                self.entries.set(i, (key, value));
                let ghost s = self.entries@;
                assert(s == old_s.update(i as int, (s[i as int].0, value)));
                proof {
                    self.lemma_replaced(old_s, i as int, key_v, value);
                }
            },
            Err(i) => {
                self.entries.insert(i, (key, value));
                proof {
                    self.lemma_inserted(old_s, i as int, key_v, value);
                }
            },
        }
    }

    proof fn lemma_replaced(&self, old_s: Seq<(String, V)>, i: int, key: Seq<char>, value: V)
        requires
            keys_sorted(old_s),
            0 <= i < old_s.len(),
            old_s[i].0@ == key,
            self.entries@.len() == old_s.len(),
            self.entries@[i].0@ == key,
            self.entries@[i].1 == value,
            forall|j: int| 0 <= j < old_s.len() && j != i ==> self.entries@[j] == old_s[j],
        ensures
            self.wf(),
            self@ == entries_map(old_s).insert(key, value),
    {
        let s = self.entries@;
        assert forall|a: int, b: int| 0 <= a < b < s.len() implies seq_lt(
            #[trigger] s[a].0@,
            #[trigger] s[b].0@,
        ) by {
            assert(s[a].0@ == old_s[a].0@);
            assert(s[b].0@ == old_s[b].0@);
        }
        let m = entries_map(old_s).insert(key, value);
        assert forall|k: Seq<char>| #[trigger] self@.contains_key(k) <==> m.contains_key(k) by {
            if has_key(s, k) {
                let j = choose|j: int| 0 <= j < s.len() && (#[trigger] s[j]).0@ == k;
                assert(old_s[j].0@ == k);
            }
            if has_key(old_s, k) {
                let j = choose|j: int| 0 <= j < old_s.len() && (#[trigger] old_s[j]).0@ == k;
                assert(s[j].0@ == k);
            }
        }
        assert forall|k: Seq<char>| #[trigger] self@.contains_key(k) implies self@[k] == m[k] by {
            let j = choose|j: int| 0 <= j < s.len() && (#[trigger] s[j]).0@ == k;
            self.lemma_lookup(j);
            if j != i {
                assert(s[j] == old_s[j]);
                lemma_entry_value(old_s, j);
                if j < i {
                    assert(seq_lt(old_s[j].0@, old_s[i].0@));
                } else {
                    assert(seq_lt(old_s[i].0@, old_s[j].0@));
                }
                lemma_seq_lt_irreflexive(key);
                assert(k != key);
            }
        }
        assert(self@ =~= m);
    }

    proof fn lemma_inserted(&self, old_s: Seq<(String, V)>, i: int, key: Seq<char>, value: V)
        requires
            keys_sorted(old_s),
            0 <= i <= old_s.len(),
            forall|j: int| 0 <= j < i ==> seq_lt(#[trigger] old_s[j].0@, key),
            forall|j: int| i <= j < old_s.len() ==> seq_lt(key, #[trigger] old_s[j].0@),
            self.entries@ == old_s.insert(i, (self.entries@[i].0, value)),
            self.entries@[i].0@ == key,
        ensures
            self.wf(),
            self@ == entries_map(old_s).insert(key, value),
    {
        let s = self.entries@;
        assert forall|a: int, b: int| 0 <= a < b < s.len() implies seq_lt(
            #[trigger] s[a].0@,
            #[trigger] s[b].0@,
        ) by {
            if a < i && b < i {
            } else if a < i && b == i {
            } else if a < i && b > i {
                assert(s[b] == old_s[b - 1]);
                lemma_seq_lt_transitive(s[a].0@, key, s[b].0@);
            } else if a == i {
                assert(s[b] == old_s[b - 1]);
            } else {
                assert(s[a] == old_s[a - 1]);
                assert(s[b] == old_s[b - 1]);
            }
        }
        let m = entries_map(old_s).insert(key, value);
        assert forall|k: Seq<char>| #[trigger] self@.contains_key(k) <==> m.contains_key(k) by {
            if has_key(s, k) {
                let j = choose|j: int| 0 <= j < s.len() && (#[trigger] s[j]).0@ == k;
                if j < i {
                    assert(old_s[j].0@ == k);
                } else if j > i {
                    assert(old_s[j - 1].0@ == k);
                }
            }
            if has_key(old_s, k) {
                let j = choose|j: int| 0 <= j < old_s.len() && (#[trigger] old_s[j]).0@ == k;
                if j < i {
                    assert(s[j].0@ == k);
                } else {
                    assert(s[j + 1].0@ == k);
                }
            }
        }
        assert forall|k: Seq<char>| #[trigger] self@.contains_key(k) implies self@[k] == m[k] by {
            let j = choose|j: int| 0 <= j < s.len() && (#[trigger] s[j]).0@ == k;
            self.lemma_lookup(j);
            if j < i {
                assert(s[j] == old_s[j]);
                lemma_entry_value(old_s, j);
                lemma_seq_lt_irreflexive(key);
                assert(k != key);
            } else if j > i {
                assert(s[j] == old_s[j - 1]);
                lemma_entry_value(old_s, j - 1);
                lemma_seq_lt_irreflexive(key);
                assert(k != key);
            }
        }
        assert(self@ =~= m);
    }

    /// Removes the entry at position `i`, returning its value.
    fn remove_at(&mut self, i: usize) -> (r: V)
        requires
            old(self).wf(),
            i < old(self).entries@.len(),
        ensures
            final(self).wf(),
            final(self).entries@ == old(self).entries@.remove(i as int),
            final(self)@ == old(self)@.remove(old(self).entries@[i as int].0@),
            old(self)@.contains_key(old(self).entries@[i as int].0@),
            r == old(self)@[old(self).entries@[i as int].0@],
    {
        let ghost old_s = self.entries@;
        let ghost key = old_s[i as int].0@;
        proof {
            self.lemma_lookup(i as int);
        }
        let (_, v) = self.entries.remove(i);
        proof {
            let s = self.entries@;
            assert(s == old_s.remove(i as int));
            assert forall|a: int, b: int| 0 <= a < b < s.len() implies seq_lt(
                #[trigger] s[a].0@,
                #[trigger] s[b].0@,
            ) by {
                let a0 = if a < i { a } else { a + 1 };
                let b0 = if b < i { b } else { b + 1 };
                assert(s[a] == old_s[a0]);
                assert(s[b] == old_s[b0]);
            }
            let m = entries_map(old_s).remove(key);
            assert forall|k: Seq<char>| #[trigger] self@.contains_key(k) <==> m.contains_key(k) by {
                if has_key(s, k) {
                    let j = choose|j: int| 0 <= j < s.len() && (#[trigger] s[j]).0@ == k;
                    let j0 = if j < i { j } else { j + 1 };
                    assert(old_s[j0].0@ == k);
                    if k == key {
                        if j0 < i {
                            assert(seq_lt(old_s[j0].0@, old_s[i as int].0@));
                        } else {
                            assert(seq_lt(old_s[i as int].0@, old_s[j0].0@));
                        }
                        lemma_seq_lt_irreflexive(key);
                    }
                }
                if has_key(old_s, k) && k != key {
                    let j = choose|j: int| 0 <= j < old_s.len() && (#[trigger] old_s[j]).0@ == k;
                    if j < i {
                        assert(s[j].0@ == k);
                    } else {
                        assert(j != i);
                        assert(s[j - 1].0@ == k);
                    }
                }
            }
            assert forall|k: Seq<char>| #[trigger] self@.contains_key(k) implies self@[k] == m[k] by {
                let j = choose|j: int| 0 <= j < s.len() && (#[trigger] s[j]).0@ == k;
                self.lemma_lookup(j);
                let j0 = if j < i { j } else { j + 1 };
                assert(s[j] == old_s[j0]);
                lemma_entry_value(old_s, j0);
            }
            assert(self@ =~= m);
        }
        v
    }

    /// Removes `key`, returning the value it held.
    pub fn remove(&mut self, key: &str) -> (r: Option<V>)
        requires
            old(self).wf(),
        ensures
            final(self).wf(),
            final(self)@ == old(self)@.remove(key@),
            match r {
                Some(v) => old(self)@.contains_key(key@) && v == old(self)@[key@],
                None => !old(self)@.contains_key(key@),
            },
    {
        match self.find(chars_of(key).as_slice()) {
            Ok(i) => Some(self.remove_at(i)),
            Err(_) => {
                assert(self@.remove(key@) =~= self@);
                None
            },
        }
    }

    /// The value stored under `key`.
    pub fn get(&self, key: &str) -> (r: Option<&V>)
        requires
            self.wf(),
        ensures
            match r {
                Some(v) => self@.contains_key(key@) && *v == self@[key@],
                None => !self@.contains_key(key@),
            },
    {
        match self.find(chars_of(key).as_slice()) {
            Ok(i) => {
                proof {
                    self.lemma_lookup(i as int);
                }
                Some(&self.entries[i].1)
            },
            Err(_) => None,
        }
    }

    /// The key and value at position `i` of the key order.
    pub fn entry(&self, i: usize) -> (r: (&String, &V))
        requires
            self.wf(),
            i < self.ordered().len(),
        ensures
            r.0@ == self.ordered()[i as int].0,
            *r.1 == self.ordered()[i as int].1,
    {
        (&self.entries[i].0, &self.entries[i].1)
    }

    /// Removes the entry at position `i` of the key order.
    pub fn remove_entry(&mut self, i: usize) -> (r: V)
        requires
            old(self).wf(),
            i < old(self).ordered().len(),
        ensures
            final(self).wf(),
            final(self)@ == old(self)@.remove(old(self).ordered()[i as int].0),
            final(self).ordered() == old(self).ordered().remove(i as int),
            r == old(self).ordered()[i as int].1,
            old(self)@.contains_key(old(self).ordered()[i as int].0),
    {
        let ghost old_s = self.entries@;
        proof {
            self.lemma_lookup(i as int);
        }
        let v = self.remove_at(i);
        assert(self.ordered() =~= entry_views(old_s).remove(i as int));
        v
    }

    /// Removes every entry.
    pub fn clear(&mut self)
        ensures
            final(self).wf(),
            final(self)@ == Map::<Seq<char>, V>::empty(),
            final(self).ordered().len() == 0,
    {
        self.entries.clear();
        assert(self@ =~= Map::<Seq<char>, V>::empty());
        assert(self.ordered() =~= Seq::<(Seq<char>, V)>::empty());
    }
}

proof fn lemma_entry_value<V>(s: Seq<(String, V)>, j: int)
    requires
        keys_sorted(s),
        0 <= j < s.len(),
    ensures
        entries_map(s).contains_key(s[j].0@),
        entries_map(s)[s[j].0@] == s[j].1,
{
    let k = s[j].0@;
    assert(has_key(s, k));
    let c = key_index(s, k);
    if c != j {
        if c < j {
            assert(seq_lt(s[c].0@, s[j].0@));
        } else {
            assert(seq_lt(s[j].0@, s[c].0@));
        }
        lemma_seq_lt_irreflexive(k);
    }
}

proof fn lemma_map_card<V>(s: Seq<(String, V)>)
    requires
        keys_sorted(s),
    ensures
        entries_map(s).dom().finite(),
        entries_map(s).len() == s.len(),
    decreases s.len(),
{
    if s.len() == 0 {
        assert(entries_map(s).dom() =~= Set::<Seq<char>>::empty());
    } else {
        let t = s.drop_last();
        let last = s.last().0@;
        assert(keys_sorted(t)) by {
            assert forall|i: int, j: int| 0 <= i < j < t.len() implies seq_lt(
                #[trigger] t[i].0@,
                #[trigger] t[j].0@,
            ) by {
                assert(t[i] == s[i] && t[j] == s[j]);
            }
        }
        assert forall|k: Seq<char>| #[trigger] entries_map(s).dom().contains(k) <==> entries_map(
            t,
        ).dom().insert(last).contains(k) by {
            if has_key(s, k) && k != last {
                let i = choose|i: int| 0 <= i < s.len() && (#[trigger] s[i]).0@ == k;
                assert(i != s.len() - 1);
                assert(t[i].0@ == k);
            }
            if has_key(t, k) {
                let i = choose|i: int| 0 <= i < t.len() && (#[trigger] t[i]).0@ == k;
                assert(s[i].0@ == k);
            }
            if k == last {
                assert(s[s.len() - 1].0@ == k);
            }
        }
        assert(entries_map(s).dom() =~= entries_map(t).dom().insert(last));
        assert(!entries_map(t).dom().contains(last)) by {
            if has_key(t, last) {
                let i = choose|i: int| 0 <= i < t.len() && (#[trigger] t[i]).0@ == last;
                assert(seq_lt(s[i].0@, s[s.len() - 1].0@));
                lemma_seq_lt_irreflexive(last);
            }
        }
        lemma_map_card(t);
    }
}

} // verus!
