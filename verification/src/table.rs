//! A map from pairs of integers to values, kept as a list of entries.

use vstd::prelude::*;

use crate::collections::{lemma_index_where, position};

verus! {

/// One entry of a [`Table`].
#[derive(Debug)]
pub struct Entry<V> {
    pub key: (u128, u128),
    pub value: V,
}

/// A map from pairs of integers to values.
#[derive(Debug)]
pub struct Table<V> {
    entries: Vec<Entry<V>>,
}

/// No key stands for two values.
pub open spec fn distinct_keys<V>(s: Seq<Entry<V>>) -> bool {
    forall|i: int, j: int|
        0 <= i < j < s.len() ==> (#[trigger] s[i]).key != (#[trigger] s[j]).key
}

/// The map that a list of entries stands for.
pub open spec fn map_of<V>(s: Seq<Entry<V>>) -> Map<(u128, u128), V> {
    Map::new(
        |k: (u128, u128)| exists|i: int| 0 <= i < s.len() && (#[trigger] s[i]).key == k,
        |k: (u128, u128)|
            s[choose|i: int| 0 <= i < s.len() && (#[trigger] s[i]).key == k].value,
    )
}

/// An entry's key maps to its value.
pub proof fn lemma_map_at<V>(s: Seq<Entry<V>>, i: int)
    requires
        distinct_keys(s),
        0 <= i < s.len(),
    ensures
        map_of(s).dom().contains(s[i].key),
        map_of(s)[s[i].key] == s[i].value,
{
    let k = s[i].key;
    let c = choose|c: int| 0 <= c < s.len() && (#[trigger] s[c]).key == k;
    assert(s[i].key == k);
    if c < i {
        assert(s[c].key != s[i].key);
    } else if i < c {
        assert(s[i].key != s[c].key);
    }
}

impl<V> Table<V> {
    /// The entries, in the order in which their keys came.
    pub closed spec fn list(self) -> Seq<Entry<V>> {
        self.entries@
    }

    /// The map.
    pub open spec fn view(self) -> Map<(u128, u128), V> {
        map_of(self.list())
    }

    /// No key stands for two values.
    pub open spec fn wf(self) -> bool {
        distinct_keys(self.list())
    }

    pub fn new() -> (r: Self)
        ensures
            r.wf(),
            r.list() == Seq::<Entry<V>>::empty(),
            r@ == Map::<(u128, u128), V>::empty(),
    {
        let r = Table { entries: Vec::new() };
        assert(r@ =~= Map::<(u128, u128), V>::empty());
        r
    }

    pub fn len(&self) -> (r: usize)
        ensures
            r == self.list().len(),
    {
        self.entries.len()
    }

    /// The entry at a place of the list.
    pub fn at(&self, i: usize) -> (r: &Entry<V>)
        requires
            i < self.list().len(),
        ensures
            *r == self.list()[i as int],
    {
        &self.entries[i]
    }

    fn find(&self, key: (u128, u128)) -> (r: Option<usize>)
        requires
            self.wf(),
        ensures
            match r {
                Some(i) => i < self.list().len() && self.list()[i as int].key == key
                    && self@.dom().contains(key) && self@[key] == self.list()[i as int].value,
                None => !self@.dom().contains(key) && forall|i: int|
                    0 <= i < self.list().len() ==> (#[trigger] self.list()[i]).key != key,
            },
    {
        let same = |e: &Entry<V>| -> (b: bool)
            ensures
                b == (e.key == key),
        { e.key.0 == key.0 && e.key.1 == key.1 };
        let ghost p = |e: Entry<V>| e.key == key;
        let r = position(&self.entries, same, Ghost(p));
        proof {
            lemma_index_where(self.list(), p);
            match r {
                Some(i) => {
                    assert(p(self.list()[i as int]));
                    lemma_map_at(self.list(), i as int);
                },
                None => {
                    assert forall|i: int| 0 <= i < self.list().len() implies (
                    #[trigger] self.list()[i]).key != key by {
                        assert(!p(self.list()[i]));
                    }
                },
            }
        }
        r
    }

    /// The value of a key.
    pub fn get(&self, key: (u128, u128)) -> (r: Option<&V>)
        requires
            self.wf(),
        ensures
            match r {
                Some(v) => self@.dom().contains(key) && *v == self@[key],
                None => !self@.dom().contains(key),
            },
    {
        match self.find(key) {
            Some(i) => Some(&self.entries[i].value),
            None => None,
        }
    }

    /// Sets the value of a key.
    pub fn insert(&mut self, key: (u128, u128), value: V)
        requires
            old(self).wf(),
        ensures
            final(self).wf(),
            final(self)@ == old(self)@.insert(key, value),
    {
        let ghost before = self.entries@;
        match self.find(key) {
            Some(i) => {
                self.entries[i] = Entry { key, value };
                proof {
                    assert forall|a: int, b: int| 0 <= a < b < self.entries@.len() implies (
                    #[trigger] self.entries@[a]).key != (#[trigger] self.entries@[b]).key by {
                        assert(before[a].key != before[b].key);
                    }
                    lemma_map_set(before, self.entries@, i as int);
                }
            },
            None => {
                self.entries.push(Entry { key, value });
                proof {
                    let n = before.len() as int;
                    assert forall|a: int, b: int| 0 <= a < b < self.entries@.len() implies (
                    #[trigger] self.entries@[a]).key != (#[trigger] self.entries@[b]).key by {
                        assert(self.entries@[a] == before[a]);
                        if b < n {
                            assert(self.entries@[b] == before[b]);
                            assert(before[a].key != before[b].key);
                        }
                    }
                    lemma_map_set(before, self.entries@, n);
                }
            },
        }
    }

    /// Removes a key and gives its value back.
    pub fn remove(&mut self, key: (u128, u128)) -> (r: Option<V>)
        requires
            old(self).wf(),
        ensures
            final(self).wf(),
            final(self)@ == old(self)@.remove(key),
            match r {
                Some(v) => old(self)@.dom().contains(key) && v == old(self)@[key],
                None => !old(self)@.dom().contains(key),
            },
    {
        let ghost before = self.entries@;
        match self.find(key) {
            Some(i) => {
                let e = self.entries.remove(i);
                proof {
                    let after = self.entries@;
                    let k = i as int;
                    assert forall|j: int| 0 <= j < after.len() implies #[trigger] after[j] == (
                    if j < k {
                        before[j]
                    } else {
                        before[j + 1]
                    }) by {}
                    assert forall|a: int, b: int| 0 <= a < b < after.len() implies (
                    #[trigger] after[a]).key != (#[trigger] after[b]).key by {
                        let x = if a < k {
                            a
                        } else {
                            a + 1
                        };
                        let y = if b < k {
                            b
                        } else {
                            b + 1
                        };
                        assert(before[x].key != before[y].key);
                    }
                    let m = map_of(before).remove(key);
                    assert forall|q: (u128, u128)| map_of(after).dom().contains(q)
                        <==> m.dom().contains(q) by {
                        if map_of(after).dom().contains(q) {
                            let c = choose|c: int|
                                0 <= c < after.len() && (#[trigger] after[c]).key == q;
                            let x = if c < k {
                                c
                            } else {
                                c + 1
                            };
                            assert(before[x].key == q);
                            if x < k {
                                assert(before[x].key != before[k].key);
                            } else {
                                assert(before[k].key != before[x].key);
                            }
                        }
                        if m.dom().contains(q) {
                            let c = choose|c: int|
                                0 <= c < before.len() && (#[trigger] before[c]).key == q;
                            assert(c != k);
                            let x = if c < k {
                                c
                            } else {
                                c - 1
                            };
                            assert(after[x].key == q);
                        }
                    }
                    assert forall|q: (u128, u128)| map_of(after).dom().contains(q) implies map_of(
                        after,
                    )[q] == m[q] by {
                        let c = choose|c: int|
                            0 <= c < after.len() && (#[trigger] after[c]).key == q;
                        let x = if c < k {
                            c
                        } else {
                            c + 1
                        };
                        lemma_map_at(after, c);
                        lemma_map_at(before, x);
                    }
                    assert(map_of(after) =~= m);
                }
                Some(e.value)
            },
            None => {
                assert(map_of(before).remove(key) =~= map_of(before));
                None
            },
        }
    }
}

proof fn lemma_map_set<V>(before: Seq<Entry<V>>, after: Seq<Entry<V>>, i: int)
    requires
        0 <= i < after.len(),
        after.len() == before.len() || (after.len() == before.len() + 1 && i == before.len()),
        forall|j: int| 0 <= j < after.len() && j != i ==> #[trigger] after[j] == before[j],
        i < before.len() ==> before[i].key == after[i].key,
        distinct_keys(before),
        distinct_keys(after),
    ensures
        map_of(after) == map_of(before).insert(after[i].key, after[i].value),
{
    let key = after[i].key;
    let m = map_of(before).insert(key, after[i].value);
    lemma_map_at(after, i);
    assert forall|k: (u128, u128)| map_of(after).dom().contains(k) <==> m.dom().contains(k) by {
        if map_of(after).dom().contains(k) && k != key {
            let c = choose|c: int| 0 <= c < after.len() && (#[trigger] after[c]).key == k;
            assert(before[c].key == k);
        }
        if map_of(before).dom().contains(k) && k != key {
            let c = choose|c: int| 0 <= c < before.len() && (#[trigger] before[c]).key == k;
            assert(after[c] == before[c]);
        }
    }
    assert forall|k: (u128, u128)| map_of(after).dom().contains(k) implies map_of(after)[k]
        == m[k] by {
        if k != key {
            let c = choose|c: int| 0 <= c < after.len() && (#[trigger] after[c]).key == k;
            lemma_map_at(after, c);
            lemma_map_at(before, c);
        }
    }
    assert(map_of(after) =~= m);
}

} // verus!
