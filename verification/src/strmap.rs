//! A map keyed by strings, held as a list of entries with distinct keys.

use vstd::prelude::*;

verus! {

/// The entries of a string-keyed map, each key taken by its characters.
pub struct StrMap<V> {
    entries: Vec<(String, V)>,
}

/// The first index of an entry with key `k`, where one exists.
pub open spec fn index_of<V>(pairs: Seq<(Seq<char>, V)>, k: Seq<char>) -> int {
    choose|i: int| 0 <= i < pairs.len() && pairs[i].0 == k
}

/// The map that a list of entries with distinct keys stands for.
pub open spec fn map_of<V>(pairs: Seq<(Seq<char>, V)>) -> Map<Seq<char>, V> {
    Map::new(
        |k: Seq<char>| exists|i: int| 0 <= i < pairs.len() && pairs[i].0 == k,
        |k: Seq<char>| pairs[index_of(pairs, k)].1,
    )
}

/// No two entries share a key.
pub open spec fn keys_distinct<V>(pairs: Seq<(Seq<char>, V)>) -> bool {
    forall|i: int, j: int| 0 <= i < pairs.len() && 0 <= j < pairs.len() && i != j ==> pairs[i].0 != pairs[j].0
}

/// With distinct keys, the entry at `i` is the one the map reads for its key.
pub proof fn lemma_map_of_at<V>(pairs: Seq<(Seq<char>, V)>, i: int)
    requires
        keys_distinct(pairs),
        0 <= i < pairs.len(),
    ensures
        map_of(pairs).dom().contains(pairs[i].0),
        map_of(pairs)[pairs[i].0] == pairs[i].1,
        index_of(pairs, pairs[i].0) == i,
{
    let k = pairs[i].0;
    assert(exists|j: int| 0 <= j < pairs.len() && pairs[j].0 == k);
    let j = index_of(pairs, k);
    assert(pairs[j].0 == k);
}

/// With distinct keys, the map has one key per entry.
pub proof fn lemma_map_of_len<V>(pairs: Seq<(Seq<char>, V)>)
    requires
        keys_distinct(pairs),
    ensures
        map_of(pairs).dom().finite(),
        map_of(pairs).dom().len() == pairs.len(),
{
    let keys = pairs.map_values(|p: (Seq<char>, V)| p.0);
    assert(keys.no_duplicates()) by {
        assert forall|i: int, j: int| 0 <= i < keys.len() && 0 <= j < keys.len() && i != j implies keys[i] != keys[j] by {
            assert(keys[i] == pairs[i].0);
            assert(keys[j] == pairs[j].0);
        }
    }
    keys.unique_seq_to_set();
    assert(map_of(pairs).dom() =~= keys.to_set()) by {
        assert forall|k: Seq<char>| #[trigger] map_of(pairs).dom().contains(k) implies keys.to_set().contains(k) by {
            let i = choose|i: int| 0 <= i < pairs.len() && pairs[i].0 == k;
            assert(keys[i] == k);
        }
        assert forall|k: Seq<char>| #[trigger] keys.to_set().contains(k) implies map_of(pairs).dom().contains(k) by {
            let i = choose|i: int| 0 <= i < keys.len() && keys[i] == k;
            assert(pairs[i].0 == k);
        }
    }
}

impl<V> StrMap<V> {
    /// The entries, each key taken by its characters.
    pub closed spec fn pairs(&self) -> Seq<(Seq<char>, V)> {
        Seq::new(self.entries@.len(), |i: int| (self.entries@[i].0@, self.entries@[i].1))
    }

    /// Keys are distinct.
    pub open spec fn wf(&self) -> bool {
        keys_distinct(self.pairs())
    }

    /// The map from keys to values.
    pub open spec fn map(&self) -> Map<Seq<char>, V> {
        map_of(self.pairs())
    }

    /// The number of entries.
    pub open spec fn count(&self) -> nat {
        self.pairs().len()
    }

    pub fn new() -> (r: Self)
        ensures
            r.wf(),
            r.pairs() == Seq::<(Seq<char>, V)>::empty(),
            r.map() == Map::<Seq<char>, V>::empty(),
    {
        let r = StrMap { entries: Vec::new() };
        assert(r.pairs() =~= Seq::<(Seq<char>, V)>::empty());
        assert(r.map() =~= Map::<Seq<char>, V>::empty());
        r
    }

    pub fn len(&self) -> (r: usize)
        ensures
            r == self.count(),
    {
        self.entries.len()
    }

    /// The key of the entry at `i`.
    pub fn key_at(&self, i: usize) -> (r: &String)
        requires
            i < self.count(),
        ensures
            r@ == self.pairs()[i as int].0,
    {
        &self.entries[i].0
    }

    /// The value of the entry at `i`.
    pub fn value_at(&self, i: usize) -> (r: &V)
        requires
            i < self.count(),
        ensures
            *r == self.pairs()[i as int].1,
    {
        &self.entries[i].1
    }

    /// The index of the entry with key `k`, if there is one.
    pub fn find(&self, k: &String) -> (r: Option<usize>)
        requires
            self.wf(),
        ensures
            r is None <==> !self.map().dom().contains(k@),
            r matches Some(i) ==> i < self.count() && self.pairs()[i as int].0 == k@
                && self.map()[k@] == self.pairs()[i as int].1,
    {
        let mut i: usize = 0;
        while i < self.entries.len()
            invariant
                i <= self.entries.len(),
                self.wf(),
                self.pairs().len() == self.entries@.len(),
                forall|j: int| 0 <= j < i ==> self.pairs()[j].0 != k@,
            decreases self.entries.len() - i,
        {
            if self.entries[i].0 == *k {
                proof {
                    lemma_map_of_at(self.pairs(), i as int);
                }
                return Some(i);
            }
            i = i + 1;
        }
        None
    }

    /// The value stored under `k`, if any.
    pub fn get(&self, k: &String) -> (r: Option<&V>)
        requires
            self.wf(),
        ensures
            r is Some <==> self.map().dom().contains(k@),
            r matches Some(v) ==> *v == self.map()[k@],
    {
        match self.find(k) {
            Some(i) => Some(&self.entries[i].1),
            None => None,
        }
    }

    /// Stores `v` under `k`, replacing what was there.
    pub fn insert(&mut self, k: String, v: V)
        requires
            old(self).wf(),
        ensures
            final(self).wf(),
            final(self).map() == old(self).map().insert(k@, v),
            final(self).count() == old(self).count() + if old(self).map().dom().contains(k@) { 0int } else { 1int },
            old(self).map().dom().contains(k@) ==> final(self).pairs()
                == old(self).pairs().update(index_of(old(self).pairs(), k@), (k@, v)),
            !old(self).map().dom().contains(k@) ==> final(self).pairs() == old(self).pairs().push((k@, v)),
    {
        let ghost kv = k@;
        let ghost old_pairs = self.pairs();
        match self.find(&k) {
            Some(i) => {
                proof {
                    lemma_map_of_at(old_pairs, i as int);
                }
                self.entries.set(i, (k, v));
                assert(self.pairs() =~= old_pairs.update(i as int, (kv, v)));
                assert(self.map() =~= map_of(old_pairs).insert(kv, v)) by {
                    let ghost np = self.pairs();
                    assert forall|key: Seq<char>| #[trigger] self.map().dom().contains(key) implies map_of(old_pairs).insert(kv, v).dom().contains(key) by {
                        let j = choose|j: int| 0 <= j < np.len() && np[j].0 == key;
                        if j != i {
                            assert(old_pairs[j].0 == key);
                        }
                    }
                    assert forall|key: Seq<char>| #[trigger] map_of(old_pairs).insert(kv, v).dom().contains(key) implies self.map().dom().contains(key) && self.map()[key] == map_of(old_pairs).insert(kv, v)[key] by {
                        if key == kv {
                            lemma_map_of_at(np, i as int);
                        } else {
                            let j = choose|j: int| 0 <= j < old_pairs.len() && old_pairs[j].0 == key;
                            lemma_map_of_at(old_pairs, j);
                            assert(np[j].0 == key);
                            lemma_map_of_at(np, j);
                        }
                    }
                }
            },
            None => {
                self.entries.push((k, v));
                let ghost np = self.pairs();
                assert(np =~= old_pairs.push((kv, v)));
                assert(keys_distinct(np)) by {
                    assert forall|a: int, b: int| 0 <= a < np.len() && 0 <= b < np.len() && a != b implies np[a].0 != np[b].0 by {
                        if a == old_pairs.len() {
                            assert(!map_of(old_pairs).dom().contains(kv));
                        } else if b == old_pairs.len() {
                            assert(!map_of(old_pairs).dom().contains(kv));
                        }
                    }
                }
                assert(self.map() =~= map_of(old_pairs).insert(kv, v)) by {
                    assert forall|key: Seq<char>| #[trigger] self.map().dom().contains(key) implies map_of(old_pairs).insert(kv, v).dom().contains(key) by {
                        let j = choose|j: int| 0 <= j < np.len() && np[j].0 == key;
                        if j < old_pairs.len() {
                            assert(old_pairs[j].0 == key);
                        }
                    }
                    assert forall|key: Seq<char>| #[trigger] map_of(old_pairs).insert(kv, v).dom().contains(key) implies self.map().dom().contains(key) && self.map()[key] == map_of(old_pairs).insert(kv, v)[key] by {
                        if key == kv {
                            lemma_map_of_at(np, old_pairs.len() as int);
                        } else {
                            let j = choose|j: int| 0 <= j < old_pairs.len() && old_pairs[j].0 == key;
                            lemma_map_of_at(old_pairs, j);
                            assert(np[j].0 == key);
                            lemma_map_of_at(np, j);
                        }
                    }
                }
            },
        }
    }
}

impl StrMap<u128> {
    /// Keeps only the entries whose value is at least `cutoff`.
    pub fn retain_at_least(&mut self, cutoff: u128)
        requires
            old(self).wf(),
        ensures
            final(self).wf(),
            final(self).count() <= old(self).count(),
            final(self).map() == Map::new(
                |k: Seq<char>| old(self).map().dom().contains(k) && old(self).map()[k] >= cutoff,
                |k: Seq<char>| old(self).map()[k],
            ),
    {
        let ghost op = self.pairs();
        let mut kept: Vec<(String, u128)> = Vec::new();
        let ghost mut idx: Seq<int> = seq![];
        let n = self.entries.len();
        let mut i: usize = 0;
        while i < n
            invariant
                n == self.entries@.len(),
                op == self.pairs(),
                keys_distinct(op),
                i <= n,
                kept@.len() == idx.len(),
                idx.len() <= i,
                forall|p: int| #![trigger idx[p]] 0 <= p < idx.len() ==> 0 <= idx[p] < i
                    && kept@[p].0@ == op[idx[p]].0 && kept@[p].1 == op[idx[p]].1 && op[idx[p]].1 >= cutoff,
                forall|p: int, q: int| 0 <= p < q < idx.len() ==> idx[p] < idx[q],
                forall|j: int| 0 <= j < i && op[j].1 >= cutoff ==> exists|p: int| 0 <= p < idx.len() && idx[p] == j,
            decreases n - i,
        {
            if self.entries[i].1 >= cutoff {
                let key = self.entries[i].0.clone();
                kept.push((key, self.entries[i].1));
                proof {
                    let ghost prev = idx;
                    idx = idx.push(i as int);
                    assert(idx[idx.len() - 1] == i);
                    assert forall|j: int| 0 <= j < i + 1 && op[j].1 >= cutoff implies exists|p: int| 0 <= p < idx.len() && idx[p] == j by {
                        if j < i {
                            let p = choose|p: int| 0 <= p < prev.len() && prev[p] == j;
                            assert(idx[p] == j);
                        } else {
                            assert(idx[idx.len() - 1] == j);
                        }
                    }
                }
            }
            i = i + 1;
        }
        self.entries = kept;
        let ghost np = self.pairs();
        assert(keys_distinct(np)) by {
            assert forall|a: int, b: int| 0 <= a < np.len() && 0 <= b < np.len() && a != b implies np[a].0 != np[b].0 by {
                assert(idx[a] != idx[b]) by {
                    if a < b {
                        assert(idx[a] < idx[b]);
                    } else {
                        assert(idx[b] < idx[a]);
                    }
                }
            }
        }
        let ghost target = Map::new(
            |k: Seq<char>| map_of(op).dom().contains(k) && map_of(op)[k] >= cutoff,
            |k: Seq<char>| map_of(op)[k],
        );
        assert(self.map() =~= target) by {
            assert forall|key: Seq<char>| #[trigger] self.map().dom().contains(key) implies target.dom().contains(key) && self.map()[key] == target[key] by {
                let p = choose|p: int| 0 <= p < np.len() && np[p].0 == key;
                lemma_map_of_at(np, p);
                lemma_map_of_at(op, idx[p]);
            }
            assert forall|key: Seq<char>| #[trigger] target.dom().contains(key) implies self.map().dom().contains(key) by {
                let j = choose|j: int| 0 <= j < op.len() && op[j].0 == key;
                lemma_map_of_at(op, j);
                let p = choose|p: int| 0 <= p < idx.len() && idx[p] == j;
                assert(np[p].0 == key);
            }
        }
    }
}

} // verus!
