//! Association maps keyed by 128-bit identifiers.
//!
//! The engine owns several maps keyed by opaque 128-bit ids (players,
//! lobbies, running game servers). They are stored as parallel vectors so
//! that iteration order is the insertion order, which the contracts of the
//! engine rely on when they describe broadcast and listing order.

use vstd::prelude::*;

verus! {

/// The mathematical contents of a key vector / value vector pair.
pub open spec fn kv_map<W>(keys: Seq<u128>, vals: Seq<W>) -> Map<u128, W>
    decreases keys.len(),
{
    if keys.len() == 0 || vals.len() == 0 {
        Map::empty()
    } else {
        kv_map(keys.drop_last(), vals.drop_last()).insert(keys.last(), vals.last())
    }
}

/// First position of `k` in `keys` (meaningful only when `k` occurs).
pub open spec fn find_key(keys: Seq<u128>, k: u128) -> int
    decreases keys.len(),
{
    if keys.len() == 0 {
        0
    } else if keys[0] == k {
        0
    } else {
        1 + find_key(keys.drop_first(), k)
    }
}

pub open spec fn unique_keys(keys: Seq<u128>) -> bool {
    forall|i: int, j: int| 0 <= i < j < keys.len() ==> keys[i] != keys[j]
}

pub proof fn lemma_kv_dom<W>(keys: Seq<u128>, vals: Seq<W>, k: u128)
    requires
        keys.len() == vals.len(),
    ensures
        kv_map(keys, vals).contains_key(k) <==> keys.contains(k),
    decreases keys.len(),
{
    if keys.len() > 0 {
        lemma_kv_dom(keys.drop_last(), vals.drop_last(), k);
        assert(keys.contains(k) <==> keys.drop_last().contains(k) || keys.last() == k) by {
            if keys.contains(k) {
                let i = choose|i: int| 0 <= i < keys.len() && keys[i] == k;
                if i < keys.len() - 1 {
                    assert(keys.drop_last()[i] == k);
                }
            }
            if keys.drop_last().contains(k) {
                let i = choose|i: int| 0 <= i < keys.drop_last().len() && keys.drop_last()[i] == k;
                assert(keys[i] == k);
            }
        }
    }
}

pub proof fn lemma_kv_index<W>(keys: Seq<u128>, vals: Seq<W>, i: int)
    requires
        keys.len() == vals.len(),
        unique_keys(keys),
        0 <= i < keys.len(),
    ensures
        kv_map(keys, vals).contains_key(keys[i]),
        kv_map(keys, vals)[keys[i]] == vals[i],
    decreases keys.len(),
{
    if i == keys.len() - 1 {
    } else {
        assert(unique_keys(keys.drop_last()));
        lemma_kv_index(keys.drop_last(), vals.drop_last(), i);
        assert(keys.last() != keys[i]);
    }
}

pub proof fn lemma_kv_update<W>(keys: Seq<u128>, vals: Seq<W>, i: int, w: W)
    requires
        keys.len() == vals.len(),
        unique_keys(keys),
        0 <= i < keys.len(),
    ensures
        kv_map(keys, vals.update(i, w)) == kv_map(keys, vals).insert(keys[i], w),
    decreases keys.len(),
{
    let n = keys.len() as int;
    if i == n - 1 {
        assert(vals.update(i, w).drop_last() =~= vals.drop_last());
        assert(vals.update(i, w).last() == w);
        assert(kv_map(keys, vals.update(i, w)) =~= kv_map(keys, vals).insert(keys[i], w));
    } else {
        assert(unique_keys(keys.drop_last()));
        assert(vals.update(i, w).drop_last() =~= vals.drop_last().update(i, w));
        lemma_kv_update(keys.drop_last(), vals.drop_last(), i, w);
        assert(keys.drop_last()[i] == keys[i]);
        assert(keys.last() != keys[i]);
        assert(kv_map(keys, vals.update(i, w)) =~= kv_map(keys, vals).insert(keys[i], w));
    }
}

pub proof fn lemma_kv_push<W>(keys: Seq<u128>, vals: Seq<W>, k: u128, w: W)
    requires
        keys.len() == vals.len(),
        !keys.contains(k),
    ensures
        kv_map(keys.push(k), vals.push(w)) == kv_map(keys, vals).insert(k, w),
{
    assert(keys.push(k).drop_last() =~= keys);
    assert(vals.push(w).drop_last() =~= vals);
    assert(keys.push(k).last() == k);
    assert(kv_map(keys.push(k), vals.push(w)) =~= kv_map(keys, vals).insert(k, w));
}

pub proof fn lemma_kv_remove<W>(keys: Seq<u128>, vals: Seq<W>, i: int)
    requires
        keys.len() == vals.len(),
        unique_keys(keys),
        0 <= i < keys.len(),
    ensures
        kv_map(keys.remove(i), vals.remove(i)) == kv_map(keys, vals).remove(keys[i]),
    decreases keys.len(),
{
    let n = keys.len() as int;
    if i == n - 1 {
        assert(keys.remove(i) =~= keys.drop_last());
        assert(vals.remove(i) =~= vals.drop_last());
        lemma_kv_dom(keys.drop_last(), vals.drop_last(), keys[i]);
        assert(!keys.drop_last().contains(keys[i])) by {
            if keys.drop_last().contains(keys[i]) {
                let j = choose|j: int|
                    0 <= j < keys.drop_last().len() && keys.drop_last()[j] == keys[i];
                assert(keys[j] == keys[i]);
            }
        }
        assert(kv_map(keys.remove(i), vals.remove(i)) =~= kv_map(keys, vals).remove(keys[i]));
    } else {
        assert(unique_keys(keys.drop_last()));
        lemma_kv_remove(keys.drop_last(), vals.drop_last(), i);
        assert(keys.remove(i).drop_last() =~= keys.drop_last().remove(i));
        assert(vals.remove(i).drop_last() =~= vals.drop_last().remove(i));
        assert(keys.remove(i).last() == keys.last());
        assert(vals.remove(i).last() == vals.last());
        assert(keys.drop_last()[i] == keys[i]);
        assert(keys.last() != keys[i]);
        assert(kv_map(keys.remove(i), vals.remove(i)) =~= kv_map(keys, vals).remove(keys[i]));
    }
}

/// An insertion-ordered map from 128-bit ids to values.
#[derive(Debug, PartialEq)]
pub struct IdMap<V> {
    pub ks: Vec<u128>,
    pub vs: Vec<V>,
}

impl<V: DeepView> DeepView for IdMap<V> {
    type V = Map<u128, V::V>;

    open spec fn deep_view(&self) -> Map<u128, V::V> {
        kv_map(self.ks@, self.vs.deep_view())
    }
}

impl<V: DeepView> IdMap<V> {
    /// Representation invariant: parallel vectors of the same length with
    /// pairwise-distinct keys.
    pub open spec fn wf(self) -> bool {
        &&& self.ks@.len() == self.vs@.len()
        &&& unique_keys(self.ks@)
    }

    pub open spec fn key_seq(self) -> Seq<u128> {
        self.ks@
    }

    pub proof fn lemma_dom(self, k: u128)
        requires
            self.wf(),
        ensures
            self.deep_view().contains_key(k) <==> self.ks@.contains(k),
    {
        assert(self.vs.deep_view().len() == self.vs@.len());
        lemma_kv_dom(self.ks@, self.vs.deep_view(), k);
    }

    pub proof fn lemma_at(self, i: int)
        requires
            self.wf(),
            0 <= i < self.ks@.len(),
        ensures
            self.deep_view().contains_key(self.ks@[i]),
            self.deep_view()[self.ks@[i]] == self.vs@[i].deep_view(),
    {
        assert(self.vs.deep_view().len() == self.vs@.len());
        lemma_kv_index(self.ks@, self.vs.deep_view(), i);
    }

    pub fn new() -> (r: Self)
        ensures
            r.wf(),
            r.deep_view() == Map::<u128, V::V>::empty(),
            r.key_seq() == Seq::<u128>::empty(),
    {
        IdMap { ks: Vec::new(), vs: Vec::new() }
    }

    pub fn len(&self) -> (r: usize)
        ensures
            r == self.ks@.len(),
    {
        self.ks.len()
    }

    pub fn key_at(&self, i: usize) -> (r: u128)
        requires
            i < self.ks@.len(),
        ensures
            r == self.ks@[i as int],
    {
        self.ks[i]
    }

    pub fn val_at(&self, i: usize) -> (r: &V)
        requires
            self.wf(),
            i < self.ks@.len(),
        ensures
            *r == self.vs@[i as int],
            self.deep_view().contains_key(self.ks@[i as int]),
            r.deep_view() == self.deep_view()[self.ks@[i as int]],
    {
        proof {
            self.lemma_at(i as int);
        }
        &self.vs[i]
    }

    /// Position of key `k`, if it is present.
    pub fn index_of(&self, k: u128) -> (r: Option<usize>)
        requires
            self.wf(),
        ensures
            match r {
                Some(i) => i < self.ks@.len() && self.ks@[i as int] == k
                    && i == find_key(self.ks@, k) && self.deep_view().contains_key(k)
                    && self.deep_view()[k] == self.vs@[i as int].deep_view(),
                None => !self.deep_view().contains_key(k) && !self.ks@.contains(k),
            },
    {
        let n = self.ks.len();
        let mut i: usize = 0;
        while i < n
            invariant
                self.wf(),
                n == self.ks@.len(),
                i <= n,
                forall|j: int| 0 <= j < i ==> self.ks@[j] != k,
            decreases n - i,
        {
            if self.ks[i] == k {
                proof {
                    lemma_find_key_at(self.ks@, k, i as int);
                    self.lemma_at(i as int);
                }
                return Some(i);
            }
            i += 1;
        }
        proof {
            assert(!self.ks@.contains(k));
            self.lemma_dom(k);
        }
        None
    }

    pub fn contains(&self, k: u128) -> (r: bool)
        requires
            self.wf(),
        ensures
            r == self.deep_view().contains_key(k),
    {
        self.index_of(k).is_some()
    }

    pub fn get(&self, k: u128) -> (r: Option<&V>)
        requires
            self.wf(),
        ensures
            match r {
                Some(v) => self.deep_view().contains_key(k)
                    && v.deep_view() == self.deep_view()[k]
                    && *v == self.vs@[find_key(self.ks@, k)]
                    && 0 <= find_key(self.ks@, k) < self.ks@.len()
                    && self.ks@[find_key(self.ks@, k)] == k,
                None => !self.deep_view().contains_key(k),
            },
    {
        match self.index_of(k) {
            Some(i) => Some(&self.vs[i]),
            None => None,
        }
    }

    /// A key that is not in the map: the candidate if it is free, else the
    /// lowest free small number — the map is finite, so one exists.
    pub fn fresh_key(&self, candidate: u128) -> (r: u128)
        requires
            self.wf(),
        ensures
            !self.deep_view().contains_key(r),
    {
        if !self.contains(candidate) {
            return candidate;
        }
        let n = self.ks.len();
        let mut i: u128 = 0;
        while i <= n as u128
            invariant
                self.wf(),
                n == self.ks@.len(),
                i <= n as u128 + 1,
                forall|j: int| 0 <= j < i ==> self.deep_view().contains_key(#[trigger] (
                j as u128)),
            decreases n as u128 + 1 - i,
        {
            if !self.contains(i) {
                return i;
            }
            i += 1;
        }
        proof {
            let ids = Seq::new((n + 1) as nat, |j: int| j as u128);
            assert(unique_keys(ids));
            assert forall|j: int| 0 <= j < ids.len() implies self.ks@.contains(
                #[trigger] ids[j],
            ) by {
                assert(self.deep_view().contains_key(j as u128));
                self.lemma_dom(j as u128);
            }
            lemma_distinct_contained(ids, self.ks@);
            assert(false);
        }
        candidate
    }

    /// Insert or replace. Replacing keeps the key's position; a new key goes
    /// to the end.
    pub fn insert(&mut self, k: u128, v: V)
        requires
            old(self).wf(),
        ensures
            final(self).wf(),
            final(self).deep_view() == old(self).deep_view().insert(k, v.deep_view()),
            old(self).deep_view().contains_key(k) ==> final(self).key_seq() == old(
                self,
            ).key_seq() && final(self).vs@ == old(self).vs@.update(
                find_key(old(self).ks@, k),
                v,
            ),
            !old(self).deep_view().contains_key(k) ==> final(self).key_seq() == old(
                self,
            ).key_seq().push(k) && final(self).vs@ == old(self).vs@.push(v),
    {
        match self.index_of(k) {
            Some(i) => {
                self.vs[i] = v;
                proof {
                    assert(self.vs.deep_view() =~= old(self).vs.deep_view().update(
                        i as int,
                        v.deep_view(),
                    )) by {
                        assert(forall|j: int|
                            0 <= j < self.vs@.len() && j != i ==> self.vs@[j]
                                == old(self).vs@[j]);
                    }
                    lemma_kv_update(self.ks@, old(self).vs.deep_view(), i as int, v.deep_view());
                }
            },
            None => {
                self.ks.push(k);
                self.vs.push(v);
                proof {
                    assert(self.vs.deep_view() =~= old(self).vs.deep_view().push(v.deep_view()));
                    lemma_kv_push(old(self).ks@, old(self).vs.deep_view(), k, v.deep_view());
                    assert(unique_keys(self.ks@)) by {
                        assert(forall|j: int|
                            0 <= j < old(self).ks@.len() ==> old(self).ks@[j] != k);
                    }
                }
            },
        }
    }

    /// Remove a key, keeping the relative order of the other entries.
    pub fn remove(&mut self, k: u128) -> (r: Option<V>)
        requires
            old(self).wf(),
        ensures
            final(self).wf(),
            final(self).deep_view() == old(self).deep_view().remove(k),
            match r {
                Some(v) => old(self).deep_view().contains_key(k)
                    && v.deep_view() == old(self).deep_view()[k]
                    && final(self).key_seq() == old(self).key_seq().remove(
                    find_key(old(self).key_seq(), k),
                ) && final(self).vs@ == old(self).vs@.remove(find_key(old(self).key_seq(), k))
                    && v == old(self).vs@[find_key(old(self).key_seq(), k)],
                None => !old(self).deep_view().contains_key(k) && *final(self) == *old(self),
            },
    {
        match self.index_of(k) {
            Some(i) => {
                let v = self.vs.remove(i);
                self.ks.remove(i);
                proof {
                    assert(self.vs.deep_view() =~= old(self).vs.deep_view().remove(i as int));
                    lemma_kv_remove(old(self).ks@, old(self).vs.deep_view(), i as int);
                    assert(unique_keys(self.ks@)) by {
                        let ks0 = old(self).ks@;
                        assert(forall|a: int, b: int|
                            0 <= a < b < self.ks@.len() ==> self.ks@[a] != self.ks@[b]) by {
                            assert(forall|a: int|
                                0 <= a < self.ks@.len() ==> #[trigger] self.ks@[a] == if a < i {
                                    ks0[a]
                                } else {
                                    ks0[a + 1]
                                });
                        }
                    }
                }
                Some(v)
            },
            None => {
                proof {
                    assert(old(self).deep_view().remove(k) =~= old(self).deep_view());
                }
                None
            },
        }
    }
}

/// Pigeonhole: pairwise-distinct values all drawn from `keys` cannot
/// outnumber `keys`.
pub proof fn lemma_distinct_contained(ids: Seq<u128>, keys: Seq<u128>)
    requires
        unique_keys(ids),
        forall|j: int| 0 <= j < ids.len() ==> keys.contains(#[trigger] ids[j]),
    ensures
        ids.len() <= keys.len(),
    decreases ids.len(),
{
    if ids.len() > 0 {
        let v = ids.last();
        assert(keys.contains(v));
        let p = choose|p: int| 0 <= p < keys.len() && keys[p] == v;
        let keys2 = keys.remove(p);
        assert forall|j: int|
            0 <= j < ids.drop_last().len() implies keys2.contains(
            #[trigger] ids.drop_last()[j],
        ) by {
            let w = ids.drop_last()[j];
            assert(w == ids[j]);
            assert(keys.contains(w));
            let q = choose|q: int| 0 <= q < keys.len() && keys[q] == w;
            assert(w != v);
            assert(q != p);
            if q < p {
                assert(keys2[q] == w);
            } else {
                assert(keys2[q - 1] == w);
            }
        }
        assert(unique_keys(ids.drop_last()));
        lemma_distinct_contained(ids.drop_last(), keys2);
    }
}

pub proof fn lemma_find_key_at(keys: Seq<u128>, k: u128, i: int)
    requires
        0 <= i < keys.len(),
        keys[i] == k,
        forall|j: int| 0 <= j < i ==> keys[j] != k,
    ensures
        find_key(keys, k) == i,
    decreases keys.len(),
{
    if keys[0] == k {
    } else {
        lemma_find_key_at(keys.drop_first(), k, i - 1);
    }
}

} // verus!
