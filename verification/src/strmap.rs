//! A string-keyed association map.
//!
//! The engine's registries (connections, subscriptions, holdings, exchange
//! rates, last-broadcast valuations) are maps from names to values with
//! single-key get/insert/remove operations. `StrMap` realises them as a
//! vector of entries with pairwise distinct keys; its model is a finite
//! `Map<Seq<char>, V>`.

use vstd::prelude::*;

verus! {

/// Model of an entry sequence: later entries win, as in repeated insertion.
pub open spec fn entries_model<V>(s: Seq<(String, V)>) -> Map<Seq<char>, V>
    decreases s.len(),
{
    if s.len() == 0 {
        Map::empty()
    } else {
        entries_model(s.drop_last()).insert(s.last().0@, s.last().1)
    }
}

/// A map from `String` keys to `V` values with pairwise distinct keys.
pub struct StrMap<V> {
    entries: Vec<(String, V)>,
}

impl<V> StrMap<V> {
    /// The entries in insertion order.
    pub closed spec fn entries_seq(self) -> Seq<(String, V)> {
        self.entries@
    }

    /// Keys are pairwise distinct.
    pub open spec fn wf(self) -> bool {
        forall|i: int, j: int|
            0 <= i < j < self.entries_seq().len() ==> self.entries_seq()[i].0@
                != self.entries_seq()[j].0@
    }

    /// The map the entries stand for.
    pub open spec fn view(self) -> Map<Seq<char>, V> {
        entries_model(self.entries_seq())
    }

    pub fn new() -> (r: StrMap<V>)
        ensures
            r.wf(),
            r@ == Map::<Seq<char>, V>::empty(),
            r.entries_seq() == Seq::<(String, V)>::empty(),
    {
        StrMap { entries: Vec::new() }
    }

    /// The number of entries, which equals the model's cardinality.
    pub fn len(&self) -> (r: usize)
        requires
            self.wf(),
        ensures
            r == self.entries_seq().len(),
            r == self@.dom().len(),
    {
        proof {
            lemma_entries_model_len(self.entries_seq());
        }
        self.entries.len()
    }

    fn find(&self, key: &String) -> (r: Option<usize>)
        ensures
            match r {
                Some(i) => i < self.entries_seq().len() && self.entries_seq()[i as int].0@ == key@,
                None => forall|i: int|
                    0 <= i < self.entries_seq().len() ==> self.entries_seq()[i].0@ != key@,
            },
    {
        let n = self.entries.len();
        for i in 0..n
            invariant
                n == self.entries_seq().len(),
                forall|j: int| 0 <= j < i ==> self.entries_seq()[j].0@ != key@,
        {
            if self.entries[i].0 == *key {
                return Some(i);
            }
        }
        None
    }

    pub fn contains_key(&self, key: &String) -> (r: bool)
        ensures
            r == self@.contains_key(key@),
    {
        proof {
            lemma_entries_model_dom(self.entries_seq(), key@);
        }
        self.find(key).is_some()
    }

    pub fn get(&self, key: &String) -> (r: Option<&V>)
        requires
            self.wf(),
        ensures
            match r {
                Some(v) => self@.contains_key(key@) && *v == self@[key@],
                None => !self@.contains_key(key@),
            },
    {
        proof {
            lemma_entries_model_dom(self.entries_seq(), key@);
        }
        match self.find(key) {
            Some(i) => {
                proof {
                    lemma_entries_model_index(self.entries_seq(), i as int);
                }
                Some(&self.entries[i].1)
            },
            None => None,
        }
    }

    /// Inserts or overwrites; the model gains the binding.
    pub fn insert(&mut self, key: String, value: V)
        requires
            old(self).wf(),
        ensures
            final(self).wf(),
            final(self)@ == old(self)@.insert(key@, value),
            final(self).entries_seq().len() == if old(self)@.contains_key(key@) {
                old(self).entries_seq().len() as int
            } else {
                old(self).entries_seq().len() + 1 as int
            },
    {
        proof {
            lemma_entries_model_dom(self.entries_seq(), key@);
        }
        match self.find(&key) {
            Some(i) => {
                proof {
                    lemma_entries_model_update(self.entries_seq(), i as int, key@, value);
                }
                self.entries.set(i, (key, value));
                proof {
                    assert(entries_model(self.entries@) == entries_model(old(self).entries@).insert(
                        self.entries@[i as int].0@,
                        self.entries@[i as int].1,
                    ));
                }
            },
            None => {
                self.entries.push((key, value));
                proof {
                    assert(self.entries@.drop_last() =~= old(self).entries@);
                    assert(entries_model(self.entries@) == entries_model(
                        old(self).entries@,
                    ).insert(self.entries@.last().0@, self.entries@.last().1));
                }
            },
        }
    }

    /// Removes the binding if present; idempotent on absent keys.
    pub fn remove(&mut self, key: &String)
        requires
            old(self).wf(),
        ensures
            final(self).wf(),
            final(self)@ == old(self)@.remove(key@),
            final(self).entries_seq().len() == if old(self)@.contains_key(key@) {
                old(self).entries_seq().len() - 1 as int
            } else {
                old(self).entries_seq().len() as int
            },
    {
        proof {
            lemma_entries_model_dom(self.entries_seq(), key@);
        }
        match self.find(key) {
            Some(i) => {
                proof {
                    lemma_entries_model_remove(self.entries_seq(), i as int);
                }
                self.entries.remove(i);
            },
            None => {
                proof {
                    assert(old(self)@.remove(key@) =~= old(self)@);
                }
            },
        }
    }

    /// Replaces the value of the entry at an index, keeping its key.
    pub fn set_value_at(&mut self, i: usize, value: V)
        requires
            old(self).wf(),
            i < old(self).entries_seq().len(),
        ensures
            final(self).wf(),
            final(self).entries_seq() =~= old(self).entries_seq().update(
                i as int,
                (old(self).entries_seq()[i as int].0, value),
            ),
            final(self)@ == old(self)@.insert(old(self).entries_seq()[i as int].0@, value),
    {
        let key = self.entries[i].0.clone();
        proof {
            lemma_entries_model_update(
                self.entries@,
                i as int,
                self.entries@[i as int].0@,
                value,
            );
        }
        self.entries.set(i, (key, value));
    }

    /// The entry at an index, for walking the map.
    pub fn entry_at(&self, i: usize) -> (r: &(String, V))
        requires
            i < self.entries_seq().len(),
        ensures
            *r == self.entries_seq()[i as int],
    {
        &self.entries[i]
    }

    /// Every entry is a binding of the model.
    pub proof fn lemma_entry_in_model(self, i: int)
        requires
            self.wf(),
            0 <= i < self.entries_seq().len(),
        ensures
            self@.contains_key(self.entries_seq()[i].0@),
            self@[self.entries_seq()[i].0@] == self.entries_seq()[i].1,
    {
        lemma_entries_model_index(self.entries_seq(), i);
    }

    /// Every binding of the model comes from an entry.
    pub proof fn lemma_model_in_entries(self, k: Seq<char>)
        requires
            self@.contains_key(k),
        ensures
            exists|i: int|
                0 <= i < self.entries_seq().len() && self.entries_seq()[i].0@ == k,
    {
        lemma_entries_model_dom(self.entries_seq(), k);
    }
}

/// A key is in the model exactly when some entry carries it.
pub proof fn lemma_entries_model_dom<V>(s: Seq<(String, V)>, k: Seq<char>)
    ensures
        entries_model(s).contains_key(k) <==> exists|i: int| 0 <= i < s.len() && s[i].0@ == k,
    decreases s.len(),
{
    if s.len() > 0 {
        lemma_entries_model_dom(s.drop_last(), k);
        if s.last().0@ == k {
            assert(s[s.len() - 1].0@ == k);
        } else if entries_model(s).contains_key(k) {
            let i = choose|i: int| 0 <= i < s.drop_last().len() && s.drop_last()[i].0@ == k;
            assert(s[i].0@ == k);
        } else if exists|i: int| 0 <= i < s.len() && s[i].0@ == k {
            let i = choose|i: int| 0 <= i < s.len() && s[i].0@ == k;
            assert(s.drop_last()[i].0@ == k);
        }
    }
}

/// With distinct keys, the model maps each entry's key to its value.
pub proof fn lemma_entries_model_index<V>(s: Seq<(String, V)>, i: int)
    requires
        0 <= i < s.len(),
        forall|p: int, q: int| 0 <= p < q < s.len() ==> s[p].0@ != s[q].0@,
        ensures
        entries_model(s).contains_key(s[i].0@),
        entries_model(s)[s[i].0@] == s[i].1,
    decreases s.len(),
{
    if i == s.len() - 1 {
    } else {
        lemma_entries_model_index(s.drop_last(), i);
        assert(s.drop_last()[i] == s[i]);
        assert(s.last().0@ != s[i].0@);
    }
}

/// With distinct keys, overwriting an entry's value is a model insert.
pub proof fn lemma_entries_model_update<V>(s: Seq<(String, V)>, i: int, k: Seq<char>, v: V)
    requires
        0 <= i < s.len(),
        s[i].0@ == k,
        forall|p: int, q: int| 0 <= p < q < s.len() ==> s[p].0@ != s[q].0@,
    ensures
        forall|key2: String|
            key2@ == k ==> entries_model(s.update(i, (key2, v))) == entries_model(s).insert(k, v),
    decreases s.len(),
{
    assert forall|key2: String| key2@ == k implies entries_model(s.update(i, (key2, v)))
        == entries_model(s).insert(k, v) by {
        let t = s.update(i, (key2, v));
        if i == s.len() - 1 {
            assert(t.drop_last() =~= s.drop_last());
            assert(entries_model(t) =~= entries_model(s).insert(k, v));
        } else {
            lemma_entries_model_update(s.drop_last(), i, k, v);
            assert(t.drop_last() =~= s.drop_last().update(i, (key2, v)));
            assert(t.last() == s.last());
            assert(s.last().0@ != k);
            assert(entries_model(t) =~= entries_model(s).insert(k, v));
        }
    }
}

/// With distinct keys, deleting an entry is a model remove.
pub proof fn lemma_entries_model_remove<V>(s: Seq<(String, V)>, i: int)
    requires
        0 <= i < s.len(),
        forall|p: int, q: int| 0 <= p < q < s.len() ==> s[p].0@ != s[q].0@,
    ensures
        entries_model(s.remove(i)) == entries_model(s).remove(s[i].0@),
    decreases s.len(),
{
    let t = s.remove(i);
    if i == s.len() - 1 {
        assert(t =~= s.drop_last());
        lemma_entries_model_dom(s.drop_last(), s[i].0@);
        assert(!entries_model(s.drop_last()).contains_key(s[i].0@));
        assert(entries_model(t) =~= entries_model(s).remove(s[i].0@));
    } else {
        lemma_entries_model_remove(s.drop_last(), i);
        assert(t.drop_last() =~= s.drop_last().remove(i));
        assert(t.last() == s.last());
        assert(s.last().0@ != s[i].0@);
        assert(entries_model(t) =~= entries_model(s).remove(s[i].0@));
    }
}

/// With distinct keys, the model has one binding per entry.
pub proof fn lemma_entries_model_len<V>(s: Seq<(String, V)>)
    requires
        forall|p: int, q: int| 0 <= p < q < s.len() ==> s[p].0@ != s[q].0@,
    ensures
        entries_model(s).dom().finite(),
        entries_model(s).dom().len() == s.len(),
    decreases s.len(),
{
    if s.len() > 0 {
        lemma_entries_model_len(s.drop_last());
        lemma_entries_model_dom(s.drop_last(), s.last().0@);
        assert(!entries_model(s.drop_last()).contains_key(s.last().0@));
    }
}

} // verus!
