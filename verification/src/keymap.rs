//! A map from `u32` keys kept as a vector sorted by key, so that walking it
//! visits the keys in increasing order.

use vstd::prelude::*;

verus! {

/// Entries strictly increasing by key.
pub open spec fn keys_increasing<V>(s: Seq<(u32, V)>) -> bool {
    forall|i: int, j: int| 0 <= i < j < s.len() ==> #[trigger] s[i].0 < #[trigger] s[j].0
}

/// Some entry of `s` has key `k`.
pub open spec fn has_key<V>(s: Seq<(u32, V)>, k: u32) -> bool {
    exists|i: int| 0 <= i < s.len() && #[trigger] s[i].0 == k
}

/// The map that the entries of `s` describe.
pub open spec fn entries_map<V>(s: Seq<(u32, V)>) -> Map<u32, V> {
    Map::new(
        |k: u32| has_key(s, k),
        |k: u32| s[choose|i: int| 0 <= i < s.len() && #[trigger] s[i].0 == k].1,
    )
}

/// A map from `u32` keys, sorted by key.
pub struct KeyMap<V> {
    pub entries: Vec<(u32, V)>,
}

impl<V> KeyMap<V> {
    /// The entries, in increasing key order.
    pub open spec fn pairs(&self) -> Seq<(u32, V)> {
        self.entries@
    }

    /// The keys are strictly increasing.
    pub open spec fn wf(&self) -> bool {
        keys_increasing(self.entries@)
    }

    /// The map held.
    pub open spec fn map(&self) -> Map<u32, V> {
        entries_map(self.entries@)
    }

    /// An empty map.
    pub fn new() -> (r: Self)
        ensures
            r.wf(),
            r.pairs().len() == 0,
            r.map() == Map::<u32, V>::empty(),
    {
        let r = KeyMap { entries: Vec::new() };
        assert(r.map() =~= Map::<u32, V>::empty());
        r
    }

    /// The number of entries.
    pub fn len(&self) -> (n: usize)
        ensures
            n == self.pairs().len(),
    {
        self.entries.len()
    }

    /// The entries, in increasing key order.
    pub fn entries(&self) -> (r: &Vec<(u32, V)>)
        ensures
            r@ == self.pairs(),
    {
        &self.entries
    }

    /// Where key `k` is, or where it would be inserted.
    fn position(&self, k: u32) -> (r: (bool, usize))
        requires
            self.wf(),
        ensures
            r.1 <= self.pairs().len(),
            forall|i: int| 0 <= i < r.1 ==> #[trigger] self.pairs()[i].0 < k,
            r.0 ==> r.1 < self.pairs().len() && self.pairs()[r.1 as int].0 == k,
            !r.0 ==> forall|i: int| r.1 <= i < self.pairs().len() ==> #[trigger] self.pairs()[i].0 > k,
    {
        let mut i: usize = 0;
        while i < self.entries.len() && self.entries[i].0 < k
            invariant
                i <= self.pairs().len(),
                forall|j: int| 0 <= j < i ==> #[trigger] self.pairs()[j].0 < k,
            decreases self.pairs().len() - i,
        {
            i += 1;
        }
        if i < self.entries.len() && self.entries[i].0 == k {
            (true, i)
        } else {
            assert forall|j: int| i <= j < self.pairs().len() implies #[trigger] self.pairs()[j].0 > k by {
                if j > i {
                    assert(self.pairs()[i as int].0 < self.pairs()[j].0);
                }
            }
            (false, i)
        }
    }

    /// The value at key `k`.
    pub fn get(&self, k: u32) -> (r: Option<&V>)
        requires
            self.wf(),
        ensures
            self.map().contains_key(k) ==> r == Some(&self.map()[k]),
            !self.map().contains_key(k) ==> r is None,
    {
        let (found, i) = self.position(k);
        if found {
            proof {
                lemma_entry_in_map(self.entries@, i as int);
            }
            Some(&self.entries[i].1)
        } else {
            assert(!has_key(self.entries@, k)) by {
                if has_key(self.entries@, k) {
                    let j = choose|j: int| 0 <= j < self.entries@.len() && #[trigger] self.entries@[j].0 == k;
                    if j < i {
                        assert(self.pairs()[j].0 < k);
                    } else {
                        assert(self.pairs()[j].0 > k);
                    }
                }
            }
            None
        }
    }

    /// Removes key `k`, handing back its value.
    pub fn remove(&mut self, k: u32) -> (r: Option<V>)
        requires
            old(self).wf(),
        ensures
            final(self).wf(),
            final(self).map() == old(self).map().remove(k),
            old(self).map().contains_key(k) ==> r == Some(old(self).map()[k]),
            !old(self).map().contains_key(k) ==> r is None,
    {
        let (found, i) = self.position(k);
        let ghost s0 = self.entries@;
        if !found {
            assert(!has_key(s0, k)) by {
                if has_key(s0, k) {
                    let j = choose|j: int| 0 <= j < s0.len() && #[trigger] s0[j].0 == k;
                    if j < i {
                        assert(s0[j].0 < k);
                    } else {
                        assert(s0[j].0 > k);
                    }
                }
            }
            assert(entries_map(s0).remove(k) =~= entries_map(s0));
            return None;
        }
        proof {
            lemma_entry_in_map(s0, i as int);
        }
        let (_, v) = self.entries.remove(i);
        let ghost s1 = self.entries@;
        proof {
            assert(s1 == s0.remove(i as int));
            assert(keys_increasing(s1)) by {
                assert forall|a: int, b: int| 0 <= a < b < s1.len() implies #[trigger] s1[a].0
                    < #[trigger] s1[b].0 by {
                    if b < i {
                        assert(s0[a].0 < s0[b].0);
                    } else if a >= i {
                        assert(s0[a + 1].0 < s0[b + 1].0);
                    } else {
                        assert(s0[a].0 < s0[b + 1].0);
                    }
                }
            }
            let m0 = entries_map(s0);
            let m1 = entries_map(s1);
            assert(m1 =~= m0.remove(k)) by {
                assert forall|key: u32| #[trigger] m1.contains_key(key) <==> m0.remove(k).contains_key(
                    key,
                ) by {
                    if has_key(s1, key) {
                        let j = choose|j: int| 0 <= j < s1.len() && #[trigger] s1[j].0 == key;
                        if j < i {
                            assert(s0[j].0 == key);
                            assert(s0[j].0 < k);
                        } else {
                            assert(s0[j + 1].0 == key);
                            assert(s0[i as int].0 < s0[j + 1].0);
                        }
                    }
                    if key != k && has_key(s0, key) {
                        let j = choose|j: int| 0 <= j < s0.len() && #[trigger] s0[j].0 == key;
                        assert(j != i);
                        if j < i {
                            assert(s1[j].0 == key);
                        } else {
                            assert(s1[j - 1].0 == key);
                        }
                    }
                }
                assert forall|key: u32| #[trigger] m1.contains_key(key) implies m1[key] == m0.remove(
                    k,
                )[key] by {
                    let j = choose|j: int| 0 <= j < s1.len() && #[trigger] s1[j].0 == key;
                    lemma_entry_in_map(s1, j);
                    if j < i {
                        lemma_entry_in_map(s0, j);
                    } else {
                        lemma_entry_in_map(s0, j + 1);
                    }
                }
            }
        }
        Some(v)
    }

    /// Sets the value at key `k` to `v`.
    pub fn insert(&mut self, k: u32, v: V)
        requires
            old(self).wf(),
        ensures
            final(self).wf(),
            final(self).map() == old(self).map().insert(k, v),
    {
        let (found, i) = self.position(k);
        let ghost s0 = self.entries@;
        if found {
            self.entries[i] = (k, v);
        } else {
            self.entries.insert(i, (k, v));
        }
        let ghost s1 = self.entries@;
        proof {
            if found {
                assert(s1 == s0.update(i as int, (k, v)));
            } else {
                assert(s1 == s0.insert(i as int, (k, v)));
            }
            assert(keys_increasing(s1)) by {
                assert forall|a: int, b: int| 0 <= a < b < s1.len() implies #[trigger] s1[a].0
                    < #[trigger] s1[b].0 by {
                    if found {
                        if a != i && b != i {
                            assert(s0[a].0 < s0[b].0);
                        } else if a == i {
                            assert(s0[a].0 < s0[b].0);
                        } else {
                            assert(s0[a].0 < s0[b].0);
                        }
                    } else {
                        if b < i {
                            assert(s0[a].0 < s0[b].0);
                        } else if a > i {
                            assert(s0[a - 1].0 < s0[b - 1].0);
                        } else if a == i {
                            assert(s1[b] == s0[b - 1]);
                            assert(s0[b - 1].0 > k);
                        } else if b == i {
                            assert(s0[a].0 < k);
                        } else {
                            assert(a < i && b > i);
                            assert(s0[a].0 < k);
                            assert(s0[b - 1].0 > k);
                        }
                    }
                }
            }
            let m0 = entries_map(s0);
            let m1 = entries_map(s1);
            assert(m1 =~= m0.insert(k, v)) by {
                assert forall|key: u32| #[trigger] m1.contains_key(key) <==> m0.insert(
                    k,
                    v,
                ).contains_key(key) by {
                    if has_key(s1, key) {
                        let j = choose|j: int| 0 <= j < s1.len() && #[trigger] s1[j].0 == key;
                        if key != k {
                            if found {
                                assert(s0[j].0 == key);
                            } else if j < i {
                                assert(s0[j].0 == key);
                            } else {
                                assert(j != i);
                                assert(s0[j - 1].0 == key);
                            }
                        }
                    }
                    if key == k {
                        assert(s1[i as int].0 == k);
                    } else if has_key(s0, key) {
                        let j = choose|j: int| 0 <= j < s0.len() && #[trigger] s0[j].0 == key;
                        if found {
                            assert(s1[j].0 == key);
                        } else if j < i {
                            assert(s1[j].0 == key);
                        } else {
                            assert(s1[j + 1].0 == key);
                        }
                    }
                }
                assert forall|key: u32| #[trigger] m1.contains_key(key) implies m1[key] == m0.insert(
                    k,
                    v,
                )[key] by {
                    lemma_map_value(s1, key);
                    if key == k {
                        assert(s1[i as int].0 == k);
                        lemma_entry_in_map(s1, i as int);
                    } else {
                        let j = choose|j: int| 0 <= j < s1.len() && #[trigger] s1[j].0 == key;
                        lemma_entry_in_map(s1, j);
                        if found {
                            assert(s0[j] == s1[j]);
                            lemma_entry_in_map(s0, j);
                        } else if j < i {
                            assert(s0[j] == s1[j]);
                            lemma_entry_in_map(s0, j);
                        } else {
                            assert(s0[j - 1] == s1[j]);
                            lemma_entry_in_map(s0, j - 1);
                        }
                    }
                }
            }
        }
    }
}

/// In a key-increasing sequence, entry `i` is the map's value at its key.
pub proof fn lemma_entry_in_map<V>(s: Seq<(u32, V)>, i: int)
    requires
        keys_increasing(s),
        0 <= i < s.len(),
    ensures
        entries_map(s).contains_key(s[i].0),
        entries_map(s)[s[i].0] == s[i].1,
{
    assert(has_key(s, s[i].0));
    let j = choose|j: int| 0 <= j < s.len() && #[trigger] s[j].0 == s[i].0;
    if j != i {
        if j < i {
            assert(s[j].0 < s[i].0);
        } else {
            assert(s[i].0 < s[j].0);
        }
    }
}

proof fn lemma_map_value<V>(s: Seq<(u32, V)>, key: u32)
    requires
        keys_increasing(s),
        has_key(s, key),
    ensures
        entries_map(s).contains_key(key),
{
}

} // verus!
