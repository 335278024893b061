//! `FanTable`: a map from fan ids to values, kept as a list of entries in
//! which no id occurs twice.
use vstd::prelude::*;
use crate::text::str_eq;

verus! {

/// No two entries share an id.
pub open spec fn ids_distinct<V>(e: Seq<(String, V)>) -> bool {
    forall|i: int, j: int| 0 <= i < e.len() && 0 <= j < e.len() && i != j ==> e[i].0@ != e[j].0@
}

/// The map that a list of entries describes (a later entry wins over an
/// earlier one with the same id).
pub open spec fn entries_map<V>(e: Seq<(String, V)>) -> Map<Seq<char>, V>
    decreases e.len(),
{
    if e.len() == 0 {
        Map::empty()
    } else {
        entries_map(e.drop_last()).insert(e.last().0@, e.last().1)
    }
}

/// The index of the entry with id `k`, if any.
pub open spec fn has_id<V>(e: Seq<(String, V)>, k: Seq<char>) -> bool {
    exists|i: int| 0 <= i < e.len() && e[i].0@ == k
}

/// With distinct ids, the map holds exactly the entries' ids, each with the
/// value of its entry.
pub proof fn lemma_entries_map<V>(e: Seq<(String, V)>)
    requires
        ids_distinct(e),
    ensures
        forall|k: Seq<char>| #[trigger] entries_map(e).contains_key(k) <==> has_id(e, k),
        forall|i: int| 0 <= i < e.len() ==> #[trigger] entries_map(e)[e[i].0@] == e[i].1,
        entries_map(e).dom().finite(),
        entries_map(e).len() == e.len(),
    decreases e.len(),
{
    if e.len() > 0 {
        let d = e.drop_last();
        assert(ids_distinct(d));
        lemma_entries_map(d);
        assert forall|k: Seq<char>| #[trigger] entries_map(e).contains_key(k) <==> has_id(e, k) by {
            if has_id(e, k) {
                let i = choose|i: int| 0 <= i < e.len() && e[i].0@ == k;
                if i < d.len() {
                    assert(d[i].0@ == k);
                }
            }
            if entries_map(d).contains_key(k) {
                let i = choose|i: int| 0 <= i < d.len() && d[i].0@ == k;
                assert(e[i].0@ == k);
            }
        }
        assert forall|i: int| 0 <= i < e.len() implies #[trigger] entries_map(e)[e[i].0@] == e[i].1 by {
            if i < d.len() {
                assert(d[i] == e[i]);
                assert(e[i].0@ != e.last().0@);
            }
        }
        assert(!entries_map(d).contains_key(e.last().0@)) by {
            if has_id(d, e.last().0@) {
                let i = choose|i: int| 0 <= i < d.len() && d[i].0@ == e.last().0@;
                assert(e[i].0@ == e[e.len() - 1].0@);
            }
        }
    }
}

/// A map from fan ids to values. The entries keep the order in which ids
/// were first inserted.
#[derive(Debug)]
pub struct FanTable<V> {
    entries: Vec<(String, V)>,
}

impl<V> FanTable<V> {
    #[verifier::type_invariant]
    spec fn distinct(self) -> bool {
        ids_distinct(self.entries@)
    }

    /// The entries, in order.
    pub closed spec fn entry_seq(self) -> Seq<(String, V)> {
        self.entries@
    }

    /// The map from each id's characters to its value.
    pub open spec fn map(self) -> Map<Seq<char>, V> {
        entries_map(self.entry_seq())
    }

    /// An empty table.
    pub fn new() -> (t: Self)
        ensures
            t.entry_seq() == Seq::<(String, V)>::empty(),
            t.map() == Map::<Seq<char>, V>::empty(),
    {
        FanTable { entries: Vec::new() }
    }

    /// Number of entries.
    pub fn len(&self) -> (n: usize)
        ensures
            n == self.entry_seq().len(),
            n == self.map().len(),
            ids_distinct(self.entry_seq()),
    {
        proof {
            use_type_invariant(self);
            lemma_entries_map(self.entries@);
        }
        self.entries.len()
    }

    /// The entry at `index`.
    pub fn entry(&self, index: usize) -> (e: &(String, V))
        requires
            index < self.entry_seq().len(),
        ensures
            *e == self.entry_seq()[index as int],
    {
        &self.entries[index]
    }

    /// Position of the entry for `id`.
    fn find(&self, id: &str) -> (r: Option<usize>)
        ensures
            match r {
                Some(i) => i < self.entries@.len() && self.entries@[i as int].0@ == id@,
                None => !has_id(self.entries@, id@),
            },
    {
        let n = self.entries.len();
        let mut i: usize = 0;
        while i < n
            invariant
                n == self.entries@.len(),
                i <= n,
                forall|k: int| 0 <= k < i ==> self.entries@[k].0@ != id@,
            decreases n - i,
        {
            if str_eq(self.entries[i].0.as_str(), id) {
                return Some(i);
            }
            i = i + 1;
        }
        None
    }

    /// The value stored for `id`.
    pub fn get(&self, id: &str) -> (r: Option<&V>)
        ensures
            match r {
                Some(v) => self.map().contains_key(id@) && *v == self.map()[id@],
                None => !self.map().contains_key(id@),
            },
    {
        proof {
            use_type_invariant(self);
            lemma_entries_map(self.entries@);
        }
        match self.find(id) {
            Some(i) => Some(&self.entries[i].1),
            None => None,
        }
    }

    /// Whether `id` has an entry.
    pub fn contains(&self, id: &str) -> (r: bool)
        ensures
            r == self.map().contains_key(id@),
    {
        proof {
            use_type_invariant(self);
            lemma_entries_map(self.entries@);
        }
        self.find(id).is_some()
    }

    /// Sets the value for `id`, replacing an existing one in place or
    /// appending a new entry.
    pub fn insert(&mut self, id: String, value: V)
        ensures
            final(self).map() == old(self).map().insert(id@, value),
    {
        proof {
            use_type_invariant(&*self);
            lemma_entries_map(self.entries@);
        }
        let ghost old_e = self.entries@;
        let ghost k = id@;
        let found = self.find(id.as_str());
        let mut entries: Vec<(String, V)> = Vec::new();
        std::mem::swap(&mut entries, &mut self.entries);
        match found {
            Some(i) => {
                entries.set(i, (id, value));
                proof {
                    let e = entries@;
                    assert(e == old_e.update(i as int, e[i as int]));
                    assert(ids_distinct(e)) by {
                        assert forall|a: int, b: int|
                            0 <= a < e.len() && 0 <= b < e.len() && a != b implies e[a].0@
                            != e[b].0@ by {
                            if a != i && b != i {
                                assert(e[a] == old_e[a] && e[b] == old_e[b]);
                            } else if a == i {
                                assert(e[b] == old_e[b]);
                            } else {
                                assert(e[a] == old_e[a]);
                            }
                        }
                    }
                    lemma_entries_map(e);
                    let m = entries_map(e);
                    let m2 = entries_map(old_e).insert(k, value);
                    assert forall|x: Seq<char>| m.contains_key(x) <==> m2.contains_key(x) by {
                        if has_id(e, x) {
                            let j = choose|j: int| 0 <= j < e.len() && e[j].0@ == x;
                            if j != i {
                                assert(old_e[j] == e[j]);
                            }
                        }
                        if has_id(old_e, x) {
                            let j = choose|j: int| 0 <= j < old_e.len() && old_e[j].0@ == x;
                            if j != i {
                                assert(old_e[j] == e[j]);
                            }
                        }
                    }
                    assert forall|x: Seq<char>| m.contains_key(x) implies m[x] == m2[x] by {
                        let j = choose|j: int| 0 <= j < e.len() && e[j].0@ == x;
                        assert(m[e[j].0@] == e[j].1);
                        if j != i {
                            assert(old_e[j] == e[j]);
                            assert(entries_map(old_e)[old_e[j].0@] == old_e[j].1);
                        }
                    }
                    assert(m =~= m2);
                }
                self.entries = entries;
            },
            None => {
                entries.push((id, value));
                proof {
                    let e = entries@;
                    assert(e.drop_last() =~= old_e);
                    assert(ids_distinct(e)) by {
                        assert forall|a: int, b: int|
                            0 <= a < e.len() && 0 <= b < e.len() && a != b implies e[a].0@
                            != e[b].0@ by {
                            if a < old_e.len() && b < old_e.len() {
                                assert(e[a] == old_e[a] && e[b] == old_e[b]);
                            } else if a < old_e.len() {
                                assert(e[a] == old_e[a]);
                            } else {
                                assert(e[b] == old_e[b]);
                            }
                        }
                    }
                }
                self.entries = entries;
            },
        }
    }

    /// Removes the entry for `id`, if any, and returns its value.
    pub fn remove(&mut self, id: &str) -> (r: Option<V>)
        ensures
            final(self).map() == old(self).map().remove(id@),
            match r {
                Some(v) => old(self).map().contains_key(id@) && v == old(self).map()[id@],
                None => !old(self).map().contains_key(id@),
            },
    {
        proof {
            use_type_invariant(&*self);
            lemma_entries_map(self.entries@);
        }
        let ghost old_e = self.entries@;
        match self.find(id) {
            Some(i) => {
                let mut entries: Vec<(String, V)> = Vec::new();
                std::mem::swap(&mut entries, &mut self.entries);
                let removed = entries.remove(i);
                proof {
                    let e = entries@;
                    assert(e == old_e.remove(i as int));
                    assert(ids_distinct(e)) by {
                        assert forall|a: int, b: int|
                            0 <= a < e.len() && 0 <= b < e.len() && a != b implies e[a].0@
                            != e[b].0@ by {
                            let oa = if a < i { a } else { a + 1 };
                            let ob = if b < i { b } else { b + 1 };
                            assert(e[a] == old_e[oa] && e[b] == old_e[ob]);
                        }
                    }
                    lemma_entries_map(e);
                    let m = entries_map(e);
                    let m2 = entries_map(old_e).remove(id@);
                    assert forall|x: Seq<char>| m.contains_key(x) <==> m2.contains_key(x) by {
                        if has_id(e, x) {
                            let j = choose|j: int| 0 <= j < e.len() && e[j].0@ == x;
                            let oj = if j < i { j } else { j + 1 };
                            assert(e[j] == old_e[oj]);
                        }
                        if has_id(old_e, x) && x != id@ {
                            let j = choose|j: int| 0 <= j < old_e.len() && old_e[j].0@ == x;
                            if j < i {
                                assert(old_e[j] == e[j]);
                            } else {
                                assert(j != i);
                                assert(old_e[j] == e[j - 1]);
                            }
                        }
                    }
                    assert forall|x: Seq<char>| m.contains_key(x) implies m[x] == m2[x] by {
                        let j = choose|j: int| 0 <= j < e.len() && e[j].0@ == x;
                        let oj = if j < i { j } else { j + 1 };
                        assert(e[j] == old_e[oj]);
                        assert(m[e[j].0@] == e[j].1);
                        assert(entries_map(old_e)[old_e[oj].0@] == old_e[oj].1);
                    }
                    assert(m =~= m2);
                    assert(removed == old_e[i as int]);
                    assert(entries_map(old_e)[old_e[i as int].0@] == old_e[i as int].1);
                }
                self.entries = entries;
                Some(removed.1)
            },
            None => {
                assert(entries_map(old_e).remove(id@) =~= entries_map(old_e));
                None
            },
        }
    }

    /// Removes every entry.
    pub fn clear(&mut self)
        ensures
            final(self).map() == Map::<Seq<char>, V>::empty(),
            final(self).entry_seq() == Seq::<(String, V)>::empty(),
    {
        self.entries = Vec::new();
    }
}

impl<V: Clone> Clone for FanTable<V> {
    /// Same ids in the same order, each value cloned.
    fn clone(&self) -> (t: Self)
        ensures
            t.entry_seq().len() == self.entry_seq().len(),
            forall|i: int|
                0 <= i < self.entry_seq().len() ==> t.entry_seq()[i].0 == self.entry_seq()[i].0
                    && cloned::<V>(self.entry_seq()[i].1, t.entry_seq()[i].1),
    {
        proof {
            use_type_invariant(self);
        }
        let mut entries: Vec<(String, V)> = Vec::new();
        let n = self.entries.len();
        for i in 0..n
            invariant
                n == self.entries@.len(),
                ids_distinct(self.entries@),
                entries@.len() == i,
                forall|k: int|
                    0 <= k < i ==> entries@[k].0 == self.entries@[k].0 && cloned::<V>(
                        self.entries@[k].1,
                        entries@[k].1,
                    ),
        {
            let e = &self.entries[i];
            entries.push((e.0.clone(), e.1.clone()));
        }
        FanTable { entries }
    }
}

} // verus!
