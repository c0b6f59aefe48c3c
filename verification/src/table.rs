//! A small string-keyed table: a vector of entries whose keys are pairwise
//! distinct, viewed as a finite map from key text to value.
use vstd::prelude::*;

verus! {

/// Keys of `s` are pairwise distinct (compared by their text).
pub open spec fn distinct_keys<V>(s: Seq<(String, V)>) -> bool {
    forall|i: int, j: int|
        0 <= i < s.len() && 0 <= j < s.len() && i != j ==> #[trigger] s[i].0@ != #[trigger] s[j].0@
}

/// Some entry of `s` has key text `k`.
pub open spec fn seq_has_key<V>(s: Seq<(String, V)>, k: Seq<char>) -> bool {
    exists|i: int| 0 <= i < s.len() && #[trigger] s[i].0@ == k
}

/// The position of the entry with key text `k` (meaningful when there is one).
pub open spec fn seq_key_index<V>(s: Seq<(String, V)>, k: Seq<char>) -> int {
    choose|i: int| 0 <= i < s.len() && #[trigger] s[i].0@ == k
}

/// The map that a sequence of entries stands for.
pub open spec fn seq_to_map<V>(s: Seq<(String, V)>) -> Map<Seq<char>, V> {
    Map::new(|k: Seq<char>| seq_has_key(s, k), |k: Seq<char>| s[seq_key_index(s, k)].1)
}

/// With distinct keys, the entry at `i` is what the map holds for its key.
pub proof fn lemma_entry_in_map<V>(s: Seq<(String, V)>, i: int)
    requires
        distinct_keys(s),
        0 <= i < s.len(),
    ensures
        seq_to_map(s).contains_key(s[i].0@),
        seq_to_map(s)[s[i].0@] == s[i].1,
        seq_key_index(s, s[i].0@) == i,
{
    let k = s[i].0@;
    assert(seq_has_key(s, k));
    let j = seq_key_index(s, k);
    assert(s[j].0@ == k);
    assert(j == i);
}

/// A string-keyed table with pairwise distinct keys.
pub struct Table<V> {
    entries: Vec<(String, V)>,
}

impl<V> View for Table<V> {
    type V = Map<Seq<char>, V>;

    closed spec fn view(&self) -> Map<Seq<char>, V> {
        seq_to_map(self.entries@)
    }
}

impl<V> Table<V> {
    /// The table's entries are well formed: no key occurs twice.
    pub closed spec fn wf(self) -> bool {
        distinct_keys(self.entries@)
    }

    /// An empty table.
    pub fn new() -> (t: Self)
        ensures
            t.wf(),
            t@ == Map::<Seq<char>, V>::empty(),
    {
        let t = Table { entries: Vec::new() };
        assert(t@ =~= Map::<Seq<char>, V>::empty());
        t
    }

    /// The position of the entry whose key is `key`, if any.
    fn find(&self, key: &String) -> (r: Option<usize>)
        requires
            self.wf(),
        ensures
            match r {
                Some(i) => i < self.entries@.len() && self.entries@[i as int].0@ == key@,
                None => !self@.contains_key(key@),
            },
    {
        let n = self.entries.len();
        let mut i: usize = 0;
        while i < n
            invariant
                n == self.entries@.len(),
                i <= n,
                forall|j: int| 0 <= j < i ==> #[trigger] self.entries@[j].0@ != key@,
            decreases n - i,
        {
            if self.entries[i].0 == *key {
                return Some(i);
            }
            i = i + 1;
        }
        None
    }

    /// The value stored under `key`, if any.
    pub fn get(&self, key: &String) -> (r: Option<&V>)
        requires
            self.wf(),
        ensures
            match r {
                Some(v) => self@.contains_key(key@) && *v == self@[key@],
                None => !self@.contains_key(key@),
            },
    {
        match self.find(key) {
            Some(i) => {
                proof {
                    lemma_entry_in_map(self.entries@, i as int);
                }
                Some(&self.entries[i].1)
            },
            None => None,
        }
    }

    /// Store `value` under `key`, replacing any value stored there before.
    pub fn insert(&mut self, key: String, value: V)
        requires
            old(self).wf(),
        ensures
            final(self).wf(),
            final(self)@ == old(self)@.insert(key@, value),
    {
        let ghost old_s = self.entries@;
        let ghost k = key@;
        match self.find(&key) {
            Some(i) => {
                self.entries.set(i, (key, value));
                let ghost s = self.entries@;
                assert(distinct_keys(s)) by {
                    assert forall|a: int, b: int|
                        0 <= a < s.len() && 0 <= b < s.len() && a != b implies #[trigger] s[a].0@
                        != #[trigger] s[b].0@ by {
                        assert(old_s[a].0@ != old_s[b].0@);
                    }
                }
                assert forall|kk: Seq<char>| #[trigger] seq_has_key(s, kk) == seq_has_key(old_s, kk) by {
                    if seq_has_key(old_s, kk) {
                        let j = seq_key_index(old_s, kk);
                        assert(s[j].0@ == kk);
                    }
                    if seq_has_key(s, kk) {
                        let j = seq_key_index(s, kk);
                        assert(old_s[j].0@ == kk);
                    }
                }
                assert forall|kk: Seq<char>| seq_has_key(s, kk) && kk != k implies #[trigger] seq_to_map(s)[kk]
                    == seq_to_map(old_s)[kk] by {
                    let j = seq_key_index(s, kk);
                    lemma_entry_in_map(s, j);
                    lemma_entry_in_map(old_s, j);
                }
                proof {
                    lemma_entry_in_map(s, i as int);
                }
                assert(seq_to_map(s) =~= seq_to_map(old_s).insert(k, value));
            },
            None => {
                self.entries.push((key, value));
                let ghost s = self.entries@;
                let ghost n = old_s.len() as int;
                assert(distinct_keys(s)) by {
                    assert forall|a: int, b: int|
                        0 <= a < s.len() && 0 <= b < s.len() && a != b implies #[trigger] s[a].0@
                        != #[trigger] s[b].0@ by {
                        if a < n && b < n {
                            assert(old_s[a].0@ != old_s[b].0@);
                        } else if a == n {
                            assert(seq_to_map(old_s).contains_key(old_s[b].0@)) by {
                                assert(seq_has_key(old_s, old_s[b].0@));
                            }
                        } else {
                            assert(seq_to_map(old_s).contains_key(old_s[a].0@)) by {
                                assert(seq_has_key(old_s, old_s[a].0@));
                            }
                        }
                    }
                }
                assert forall|kk: Seq<char>| #[trigger] seq_has_key(s, kk) == (seq_has_key(old_s, kk) || kk == k) by {
                    if seq_has_key(old_s, kk) {
                        let j = seq_key_index(old_s, kk);
                        assert(s[j].0@ == kk);
                    }
                    if seq_has_key(s, kk) {
                        let j = seq_key_index(s, kk);
                        if j < n {
                            assert(old_s[j].0@ == kk);
                        }
                    }
                    if kk == k {
                        assert(s[n].0@ == kk);
                    }
                }
                assert forall|kk: Seq<char>| seq_has_key(s, kk) && kk != k implies #[trigger] seq_to_map(s)[kk]
                    == seq_to_map(old_s)[kk] by {
                    let j = seq_key_index(s, kk);
                    lemma_entry_in_map(s, j);
                    assert(j < n);
                    lemma_entry_in_map(old_s, j);
                }
                proof {
                    lemma_entry_in_map(s, n);
                }
                assert(seq_to_map(s) =~= seq_to_map(old_s).insert(k, value));
            },
        }
    }

    /// Remove the entry at position `i`; the last entry takes its place.
    fn remove_at(&mut self, i: usize) -> (e: (String, V))
        requires
            old(self).wf(),
            i < old(self).entries@.len(),
        ensures
            final(self).wf(),
            e == old(self).entries@[i as int],
            final(self).entries@ == old(self).entries@.update(i as int, old(self).entries@.last()).drop_last(),
            old(self)@.contains_key(e.0@),
            old(self)@[e.0@] == e.1,
            final(self)@ == old(self)@.remove(e.0@),
    {
        let ghost old_s = self.entries@;
        proof {
            lemma_entry_in_map(old_s, i as int);
        }
        let e = self.entries.swap_remove(i);
        let ghost k = e.0@;
        let ghost s = self.entries@;
        let ghost n = old_s.len() as int;
        assert forall|a: int| 0 <= a < s.len() implies #[trigger] s[a] == (if a == i {
            old_s[n - 1]
        } else {
            old_s[a]
        }) by {}
        assert(distinct_keys(s)) by {
            assert forall|a: int, b: int|
                0 <= a < s.len() && 0 <= b < s.len() && a != b implies #[trigger] s[a].0@
                != #[trigger] s[b].0@ by {
                let oa = if a == i { n - 1 } else { a };
                let ob = if b == i { n - 1 } else { b };
                assert(s[a] == old_s[oa]);
                assert(s[b] == old_s[ob]);
                assert(old_s[oa].0@ != old_s[ob].0@);
            }
        }
        assert forall|kk: Seq<char>| #[trigger] seq_has_key(s, kk) == (seq_has_key(old_s, kk) && kk != k) by {
            if seq_has_key(old_s, kk) && kk != k {
                let j = seq_key_index(old_s, kk);
                assert(j != i);
                if j == n - 1 {
                    assert(s[i as int] == old_s[j]);
                } else {
                    assert(s[j] == old_s[j]);
                }
            }
            if seq_has_key(s, kk) {
                let j = seq_key_index(s, kk);
                let oj = if j == i { n - 1 } else { j };
                assert(s[j] == old_s[oj]);
                assert(oj != i);
                assert(old_s[oj].0@ != old_s[i as int].0@);
                assert(old_s[oj].0@ == kk);
            }
        }
        assert forall|kk: Seq<char>| seq_has_key(s, kk) implies #[trigger] seq_to_map(s)[kk]
            == seq_to_map(old_s)[kk] by {
            let j = seq_key_index(s, kk);
            lemma_entry_in_map(s, j);
            let oj = if j == i { n - 1 } else { j };
            assert(s[j] == old_s[oj]);
            lemma_entry_in_map(old_s, oj);
        }
        assert(seq_to_map(s) =~= seq_to_map(old_s).remove(k));
        e
    }

    /// Take the value stored under `key` out of the table, if there is one.
    pub fn remove(&mut self, key: &String) -> (r: Option<V>)
        requires
            old(self).wf(),
        ensures
            final(self).wf(),
            final(self)@ == old(self)@.remove(key@),
            match r {
                Some(v) => old(self)@.contains_key(key@) && v == old(self)@[key@],
                None => !old(self)@.contains_key(key@),
            },
    {
        match self.find(key) {
            Some(i) => {
                let e = self.remove_at(i);
                Some(e.1)
            },
            None => {
                assert(self@ =~= self@.remove(key@));
                None
            },
        }
    }

    /// Keep only the entries whose value satisfies `keep` (whose meaning is `p`).
    pub(crate) fn retain<F: Fn(&V) -> bool>(&mut self, keep: F, Ghost(p): Ghost<spec_fn(V) -> bool>)
        requires
            old(self).wf(),
            forall|v: &V| #[trigger] keep.requires((v,)),
            forall|v: &V, b: bool| keep.ensures((v,), b) ==> b == p(*v),
        ensures
            final(self).wf(),
            final(self)@ == keep_where(old(self)@, p),
    {
        let ghost m0 = self@;
        let mut i: usize = 0;
        while i < self.entries.len()
            invariant
                self.wf(),
                i <= self.entries@.len(),
                forall|v: &V| #[trigger] keep.requires((v,)),
                forall|v: &V, b: bool| keep.ensures((v,), b) ==> b == p(*v),
                forall|k: Seq<char>| #[trigger] self@.contains_key(k) ==> m0.contains_key(k) && self@[k] == m0[k],
                forall|k: Seq<char>| #[trigger] m0.contains_key(k) && p(m0[k]) ==> self@.contains_key(k),
                forall|a: int| 0 <= a < i ==> #[trigger] p(self.entries@[a].1),
            decreases self.entries@.len() - i,
        {
            if keep(&self.entries[i].1) {
                i = i + 1;
            } else {
                let ghost before = self.entries@;
                self.remove_at(i);
                assert forall|a: int| 0 <= a < i implies #[trigger] p(self.entries@[a].1) by {
                    assert(self.entries@[a] == before[a]);
                }
            }
        }
        assert forall|k: Seq<char>| #[trigger] self@.contains_key(k) implies p(m0[k]) by {
            let j = seq_key_index(self.entries@, k);
            lemma_entry_in_map(self.entries@, j);
        }
        assert(self@ =~= keep_where(m0, p));
    }
}

/// The part of `m` whose values satisfy `p`.
pub open spec fn keep_where<V>(m: Map<Seq<char>, V>, p: spec_fn(V) -> bool) -> Map<Seq<char>, V> {
    Map::new(|k: Seq<char>| m.contains_key(k) && p(m[k]), |k: Seq<char>| m[k])
}

} // verus!
