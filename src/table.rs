//! A table keyed by asset identifier: the engine's per-asset records.

use vstd::prelude::*;
use crate::ids::AssetId;

verus! {

/// Per-asset records, one value per identifier.
#[derive(Clone)]
pub struct IdTable<V> {
    keys: Vec<AssetId>,
    vals: Vec<V>,
}

impl<V: Copy> IdTable<V> {
    /// Keys and values pair up and no key appears twice.
    pub closed spec fn wf(&self) -> bool {
        &&& self.keys@.len() == self.vals@.len()
        &&& self.keys@.no_duplicates()
    }

    /// The position of `k` among the keys, where it is present.
    pub closed spec fn pos(&self, k: AssetId) -> int {
        choose|i: int| 0 <= i < self.keys@.len() && self.keys@[i] == k
    }

    /// The records as a map from identifier to value.
    pub closed spec fn view(&self) -> Map<AssetId, V> {
        Map::new(|k: AssetId| self.keys@.contains(k), |k: AssetId| self.vals@[self.pos(k)])
    }

    /// An empty table.
    pub fn new() -> (r: Self)
        ensures
            r.wf(),
            r@ == Map::<AssetId, V>::empty(),
    {
        let r = IdTable { keys: Vec::new(), vals: Vec::new() };
        assert(r@ =~= Map::<AssetId, V>::empty());
        r
    }

    fn find(&self, k: &AssetId) -> (r: Option<usize>)
        requires
            self.wf(),
        ensures
            r is None ==> !self.keys@.contains(*k),
            r is Some ==> r->0 < self.keys@.len() && self.keys@[r->0 as int] == *k
                && self.pos(*k) == r->0 as int,
    {
        let mut i: usize = 0;
        while i < self.keys.len()
            invariant
                self.wf(),
                i <= self.keys@.len(),
                forall|j: int| 0 <= j < i ==> self.keys@[j] != *k,
            decreases self.keys@.len() - i,
        {
            if self.keys[i] == *k {
                proof {
                    let p = self.pos(*k);
                    assert(0 <= p < self.keys@.len() && self.keys@[p] == *k);
                    if p != i as int {
                        assert(self.keys@[p] != self.keys@[i as int]);
                    }
                }
                return Some(i);
            }
            i = i + 1;
        }
        None
    }

    /// A separate table with the same records.
    pub fn duplicate(&self) -> (r: Self)
        requires
            self.wf(),
        ensures
            r.wf(),
            r@ == self@,
    {
        let mut keys: Vec<AssetId> = Vec::new();
        let mut vals: Vec<V> = Vec::new();
        let mut i: usize = 0;
        while i < self.keys.len()
            invariant
                self.wf(),
                i <= self.keys@.len(),
                keys@ == self.keys@.subrange(0, i as int),
                vals@ == self.vals@.subrange(0, i as int),
            decreases self.keys@.len() - i,
        {
            keys.push(self.keys[i]);
            vals.push(self.vals[i]);
            i = i + 1;
            proof {
                assert(keys@ =~= self.keys@.subrange(0, i as int));
                assert(vals@ =~= self.vals@.subrange(0, i as int));
            }
        }
        let r = IdTable { keys, vals };
        proof {
            assert(r.keys@ =~= self.keys@);
            assert(r.vals@ =~= self.vals@);
            assert(r@ =~= self@);
        }
        r
    }

    /// The value recorded for `k`, if any.
    pub fn get(&self, k: &AssetId) -> (r: Option<V>)
        requires
            self.wf(),
        ensures
            r == (if self@.contains_key(*k) { Some(self@[*k]) } else { None::<V> }),
    {
        match self.find(k) {
            Some(i) => Some(self.vals[i]),
            None => None,
        }
    }

    /// Records `v` for `k`, replacing any earlier value.
    pub fn set(&mut self, k: &AssetId, v: V)
        requires
            old(self).wf(),
        ensures
            final(self).wf(),
            final(self)@ == old(self)@.insert(*k, v),
    {
        let ghost pre = *self;
        match self.find(k) {
            Some(i) => {
                self.vals.set(i, v);
                proof {
                    assert forall|q: AssetId| self.keys@.contains(q) implies
                        #[trigger] self.pos(q) == pre.pos(q) by {
                        let a = self.pos(q);
                        let b = pre.pos(q);
                        assert(self.keys@[a] == q && self.keys@[b] == q);
                    }
                    assert(self@ =~= pre@.insert(*k, v));
                }
            },
            None => {
                self.keys.push(*k);
                self.vals.push(v);
                proof {
                    let n = pre.keys@.len() as int;
                    assert(self.keys@ =~= pre.keys@.push(*k));
                    assert(self.vals@ =~= pre.vals@.push(v));
                    assert(self.keys@[n] == *k);
                    assert forall|q: AssetId| #[trigger] self.keys@.contains(q) <==> (pre.keys@.contains(q) || q == *k) by {
                        if self.keys@.contains(q) && q != *k {
                            let a = choose|a: int| 0 <= a < self.keys@.len() && self.keys@[a] == q;
                            assert(pre.keys@[a] == q);
                        }
                        if pre.keys@.contains(q) {
                            let a = choose|a: int| 0 <= a < pre.keys@.len() && pre.keys@[a] == q;
                            assert(self.keys@[a] == q);
                        }
                    }
                    assert forall|q: AssetId| self.keys@.contains(q) implies
                        (if q == *k { #[trigger] self.pos(q) == n } else { self.pos(q) == pre.pos(q) }) by {
                        let a = self.pos(q);
                        assert(self.keys@[a] == q);
                        if q != *k {
                            assert(pre.keys@.contains(q)) by {
                                assert(a < n);
                                assert(pre.keys@[a] == q);
                            }
                            let b = pre.pos(q);
                            assert(self.keys@[b] == q);
                            if a != b {
                                assert(self.keys@[a] != self.keys@[b]);
                            }
                        } else {
                            if a != n {
                                assert(pre.keys@[a] == q);
                            }
                        }
                    }
                    assert(self@ =~= pre@.insert(*k, v));
                }
            },
        }
    }
}

} // verus!
