//! A small keyed store: a vector of entries whose keys are pairwise distinct,
//! seen from outside as a finite map from key views to values.
use vstd::prelude::*;

verus! {

/// A key that can be compared and copied by its view.
pub trait MapKey: View + Sized {
    fn same_key(&self, other: &Self) -> (r: bool)
        ensures
            r == (self@ == other@),
    ;

    fn copy_key(&self) -> (r: Self)
        ensures
            r@ == self@,
    ;
}

/// Entry `i` of `e` exists and carries key `k`.
pub open spec fn key_at<K: View, V>(e: Seq<(K, V)>, i: int, k: K::V) -> bool {
    0 <= i < e.len() && e[i].0@ == k
}

/// The map that a list of entries with distinct keys stands for.
pub open spec fn entries_map<K: View, V>(e: Seq<(K, V)>) -> Map<K::V, V> {
    Map::new(
        |k: K::V| exists|i: int| #[trigger] key_at(e, i, k),
        |k: K::V| e[choose|i: int| #[trigger] key_at(e, i, k)].1,
    )
}

/// No key occurs twice in `e`.
pub open spec fn keys_distinct<K: View, V>(e: Seq<(K, V)>) -> bool {
    forall|i: int, j: int|
        0 <= i < e.len() && 0 <= j < e.len() && i != j ==> #[trigger] e[i].0@ != #[trigger] e[j].0@
}

/// In a list with distinct keys, the map holds each entry's value.
pub proof fn lemma_entries_lookup<K: View, V>(e: Seq<(K, V)>, i: int)
    requires
        keys_distinct(e),
        0 <= i < e.len(),
    ensures
        entries_map(e).contains_key(e[i].0@),
        entries_map(e)[e[i].0@] == e[i].1,
{
    let k = e[i].0@;
    assert(key_at(e, i, k));
    let j = choose|j: int| #[trigger] key_at(e, j, k);
    assert(key_at(e, j, k));
    assert(i == j);
}

/// Every value that the map holds sits in some entry.
pub proof fn lemma_entries_value<K: View, V>(e: Seq<(K, V)>, k: K::V)
    requires
        entries_map(e).contains_key(k),
    ensures
        exists|i: int| 0 <= i < e.len() && e[i].0@ == k && entries_map(e)[k] == e[i].1,
{
    let j = choose|j: int| #[trigger] key_at(e, j, k);
    assert(key_at(e, j, k));
}

/// Entries with pairwise distinct keys.
pub struct AssocMap<K, V> {
    entries: Vec<(K, V)>,
}

impl<K: MapKey, V> View for AssocMap<K, V> {
    type V = Map<K::V, V>;

    closed spec fn view(&self) -> Map<K::V, V> {
        entries_map(self.entries@)
    }
}

impl<K: MapKey, V> AssocMap<K, V> {
    /// No key occurs twice.
    pub closed spec fn wf(&self) -> bool {
        keys_distinct(self.entries@)
    }

    pub fn new() -> (m: Self)
        ensures
            m.wf(),
            m@ == Map::<K::V, V>::empty(),
    {
        let m = AssocMap { entries: Vec::new() };
        assert(m@ =~= Map::<K::V, V>::empty());
        m
    }

    fn find(&self, k: &K) -> (r: Option<usize>)
        requires
            self.wf(),
        ensures
            match r {
                Some(i) => i < self.entries@.len() && self.entries@[i as int].0@ == k@
                    && self@.contains_key(k@) && self@[k@] == self.entries@[i as int].1,
                None => !self@.contains_key(k@),
            },
    {
        let n = self.entries.len();
        let mut i: usize = 0;
        while i < n
            invariant
                self.wf(),
                n == self.entries@.len(),
                i <= n,
                forall|j: int| 0 <= j < i ==> self.entries@[j].0@ != k@,
            decreases n - i,
        {
            if self.entries[i].0.same_key(k) {
                proof {
                    lemma_entries_lookup(self.entries@, i as int);
                }
                return Some(i);
            }
            i = i + 1;
        }
        proof {
            if self@.contains_key(k@) {
                let j = choose|j: int| #[trigger] key_at(self.entries@, j, k@);
                assert(key_at(self.entries@, j, k@));
            }
        }
        None
    }

    /// The value stored under `k`, if any.
    pub fn get(&self, k: &K) -> (r: Option<&V>)
        requires
            self.wf(),
        ensures
            match r {
                Some(v) => self@.contains_key(k@) && *v == self@[k@],
                None => !self@.contains_key(k@),
            },
    {
        match self.find(k) {
            Some(i) => Some(&self.entries[i].1),
            None => None,
        }
    }

    /// Whether a value is stored under `k`.
    pub fn contains(&self, k: &K) -> (r: bool)
        requires
            self.wf(),
        ensures
            r == self@.contains_key(k@),
    {
        self.find(k).is_some()
    }

    /// Stores `v` under `k`, replacing any earlier value.
    pub fn insert(&mut self, k: K, v: V)
        requires
            old(self).wf(),
        ensures
            final(self).wf(),
            final(self)@ == old(self)@.insert(k@, v),
    {
        let ghost old_map = self@;
        let ghost kv = k@;
        match self.find(&k) {
            Some(i) => {
                let ghost prev = self.entries@;
                self.entries.set(i, (k, v));
                assert(self.wf()) by {
                    assert forall|a: int, b: int|
                        0 <= a < self.entries@.len() && 0 <= b < self.entries@.len() && a != b
                            implies #[trigger] self.entries@[a].0@ != #[trigger] self.entries@[b].0@ by {
                        assert(prev[a].0@ != prev[b].0@);
                    }
                }
                assert forall|x: K::V| #[trigger] self@.contains_key(x) == old_map.insert(kv, v).contains_key(x) by {
                    if x == kv {
                        assert(key_at(self.entries@, i as int, x));
                    } else if old_map.contains_key(x) {
                        let j = choose|j: int| #[trigger] key_at(old(self).entries@, j, x);
                        assert(key_at(self.entries@, j, x));
                    } else if self@.contains_key(x) {
                        let j = choose|j: int| #[trigger] key_at(self.entries@, j, x);
                        assert(prev[j].0@ == x);
                        assert(key_at(old(self).entries@, j, x));
                    }
                }
                assert forall|x: K::V| #[trigger] self@.contains_key(x) implies self@[x] == old_map.insert(kv, v)[x] by {
                    let j = choose|j: int| #[trigger] key_at(self.entries@, j, x);
                    assert(key_at(self.entries@, j, x));
                    lemma_entries_lookup(self.entries@, j);
                    if x == kv {
                        assert(self.entries@[i as int].0@ == self.entries@[j].0@);
                    } else {
                        assert(j != i);
                        assert(key_at(old(self).entries@, j, x));
                        lemma_entries_lookup(old(self).entries@, j);
                    }
                }
                assert(self@ =~= old_map.insert(kv, v));
            },
            None => {
                let ghost prev = self.entries@;
                self.entries.push((k, v));
                let ghost last = prev.len() as int;
                assert(self.wf()) by {
                    assert forall|a: int, b: int|
                        0 <= a < self.entries@.len() && 0 <= b < self.entries@.len() && a != b
                            implies #[trigger] self.entries@[a].0@ != #[trigger] self.entries@[b].0@ by {
                        if a < last && b < last {
                            assert(prev[a].0@ != prev[b].0@);
                        } else if a < last {
                            assert(key_at(old(self).entries@, a, prev[a].0@));
                        } else {
                            assert(key_at(old(self).entries@, b, prev[b].0@));
                        }
                    }
                }
                assert forall|x: K::V| #[trigger] self@.contains_key(x) == old_map.insert(kv, v).contains_key(x) by {
                    if x == kv {
                        assert(key_at(self.entries@, last, x));
                    } else if old_map.contains_key(x) {
                        let j = choose|j: int| #[trigger] key_at(old(self).entries@, j, x);
                        assert(key_at(self.entries@, j, x));
                    } else if self@.contains_key(x) {
                        let j = choose|j: int| #[trigger] key_at(self.entries@, j, x);
                        assert(key_at(old(self).entries@, j, x));
                    }
                }
                assert forall|x: K::V| #[trigger] self@.contains_key(x) implies self@[x] == old_map.insert(kv, v)[x] by {
                    let j = choose|j: int| #[trigger] key_at(self.entries@, j, x);
                    assert(key_at(self.entries@, j, x));
                    lemma_entries_lookup(self.entries@, j);
                    if x == kv {
                        assert(self.entries@[last].0@ == self.entries@[j].0@);
                    } else {
                        assert(j != last);
                        assert(key_at(old(self).entries@, j, x));
                        lemma_entries_lookup(old(self).entries@, j);
                    }
                }
                assert(self@ =~= old_map.insert(kv, v));
            },
        }
    }

    /// Removes and returns whatever is stored under `k`.
    pub fn take(&mut self, k: &K) -> (r: Option<V>)
        requires
            old(self).wf(),
        ensures
            final(self).wf(),
            final(self)@ == old(self)@.remove(k@),
            match r {
                Some(v) => old(self)@.contains_key(k@) && v == old(self)@[k@],
                None => !old(self)@.contains_key(k@),
            },
    {
        let ghost old_map = self@;
        match self.find(k) {
            Some(i) => {
                let ghost prev = self.entries@;
                let (_, taken) = self.entries.remove(i);
                let ghost ii = i as int;
                assert forall|a: int| 0 <= a < self.entries@.len() implies #[trigger] self.entries@[a]
                    == prev[if a < ii { a } else { a + 1 }] by {}
                assert(self.wf()) by {
                    assert forall|a: int, b: int|
                        0 <= a < self.entries@.len() && 0 <= b < self.entries@.len() && a != b
                            implies #[trigger] self.entries@[a].0@ != #[trigger] self.entries@[b].0@ by {
                        let pa = if a < ii { a } else { a + 1 };
                        let pb = if b < ii { b } else { b + 1 };
                        assert(self.entries@[a] == prev[pa]);
                        assert(self.entries@[b] == prev[pb]);
                        assert(prev[pa].0@ != prev[pb].0@);
                    }
                }
                assert forall|x: K::V| #[trigger] self@.contains_key(x) == old_map.remove(k@).contains_key(x) by {
                    if self@.contains_key(x) {
                        let j = choose|j: int| #[trigger] key_at(self.entries@, j, x);
                        let pj = if j < ii { j } else { j + 1 };
                        assert(self.entries@[j] == prev[pj]);
                        assert(key_at(old(self).entries@, pj, x));
                        assert(pj != ii);
                        assert(prev[pj].0@ != prev[ii].0@);
                    } else if old_map.contains_key(x) && x != k@ {
                        let j = choose|j: int| #[trigger] key_at(old(self).entries@, j, x);
                        assert(j != ii);
                        let nj = if j < ii { j } else { j - 1 };
                        assert(self.entries@[nj] == prev[j]);
                        assert(key_at(self.entries@, nj, x));
                    }
                }
                assert forall|x: K::V| #[trigger] self@.contains_key(x) implies self@[x] == old_map.remove(k@)[x] by {
                    let j = choose|j: int| #[trigger] key_at(self.entries@, j, x);
                    assert(key_at(self.entries@, j, x));
                    lemma_entries_lookup(self.entries@, j);
                    let pj = if j < ii { j } else { j + 1 };
                    assert(self.entries@[j] == prev[pj]);
                    lemma_entries_lookup(old(self).entries@, pj);
                }
                assert(self@ =~= old_map.remove(k@));
                Some(taken)
            },
            None => {
                assert(self@ =~= old_map.remove(k@));
                None
            },
        }
    }

    /// The entries, for storage elsewhere.
    pub fn into_entries(self) -> (r: Vec<(K, V)>)
        requires
            self.wf(),
        ensures
            keys_distinct(r@),
            entries_map(r@) == self@,
    {
        self.entries
    }

    /// Rebuilds a map from stored entries; `None` when a key occurs twice.
    pub fn from_entries(entries: Vec<(K, V)>) -> (r: Option<Self>)
        ensures
            r is Some <==> keys_distinct(entries@),
            r matches Some(m) ==> m.wf() && m@ == entries_map(entries@),
    {
        let n = entries.len();
        let mut i: usize = 0;
        while i < n
            invariant
                n == entries@.len(),
                i <= n,
                forall|a: int, b: int|
                    0 <= a < i && 0 <= b < n && a != b ==> #[trigger] entries@[a].0@
                        != #[trigger] entries@[b].0@,
            decreases n - i,
        {
            let mut j: usize = 0;
            while j < n
                invariant
                    n == entries@.len(),
                    i < n,
                    j <= n,
                    forall|a: int, b: int|
                        0 <= a < i && 0 <= b < n && a != b ==> #[trigger] entries@[a].0@
                            != #[trigger] entries@[b].0@,
                    forall|b: int| 0 <= b < j && b != i ==> entries@[i as int].0@ != #[trigger] entries@[b].0@,
                decreases n - j,
            {
                if j != i && entries[i].0.same_key(&entries[j].0) {
                    assert(!keys_distinct(entries@)) by {
                        assert(entries@[i as int].0@ == entries@[j as int].0@);
                    }
                    return None;
                }
                j = j + 1;
            }
            i = i + 1;
        }
        assert(keys_distinct(entries@)) by {
            assert forall|a: int, b: int|
                0 <= a < entries@.len() && 0 <= b < entries@.len() && a != b implies #[trigger] entries@[a].0@
                    != #[trigger] entries@[b].0@ by {}
        }
        Some(AssocMap { entries })
    }
}

} // verus!
