//! The custodial swap pool: a slot arena of deposited assets, dispensed in
//! deposit order. Dispensed slots are emptied, never compacted.

use vstd::prelude::*;
use crate::ids::AssetId;

verus! {

/// The assets held in a run of slots, in slot order, skipping empty slots.
pub open spec fn filled_ids(s: Seq<Option<AssetId>>) -> Seq<AssetId>
    decreases s.len(),
{
    if s.len() == 0 {
        Seq::empty()
    } else {
        let rest = filled_ids(s.drop_last());
        match s.last() {
            Some(a) => rest.push(a),
            None => rest,
        }
    }
}

/// Filling slots one after the other keeps their order.
pub proof fn lemma_filled_concat(a: Seq<Option<AssetId>>, b: Seq<Option<AssetId>>)
    ensures
        filled_ids(a + b) == filled_ids(a) + filled_ids(b),
    decreases b.len(),
{
    if b.len() == 0 {
        assert(a + b =~= a);
        assert(filled_ids(a) + filled_ids(b) =~= filled_ids(a));
    } else {
        lemma_filled_concat(a, b.drop_last());
        assert((a + b).drop_last() =~= a + b.drop_last());
        assert((a + b).last() == b.last());
        match b.last() {
            Some(x) => {
                assert(filled_ids(a) + filled_ids(b.drop_last()).push(x)
                    =~= (filled_ids(a) + filled_ids(b.drop_last())).push(x));
            },
            None => {},
        }
    }
}

/// Slots that are all filled hold exactly the given assets.
pub proof fn lemma_filled_all(ids: Seq<AssetId>)
    ensures
        filled_ids(ids.map_values(|a: AssetId| Some(a))) == ids,
    decreases ids.len(),
{
    let s = ids.map_values(|a: AssetId| Some(a));
    if ids.len() > 0 {
        lemma_filled_all(ids.drop_last());
        assert(s.drop_last() =~= ids.drop_last().map_values(|a: AssetId| Some(a)));
        assert(ids.drop_last().push(ids.last()) =~= ids);
    } else {
        assert(filled_ids(s) =~= ids);
    }
}

/// `post` is `pre` after handing out its first `n` assets: the queue lost
/// them, the retrieve index moved just past the `n`-th filled slot (or stayed
/// where `n` is zero), and the slots passed over are empty.
pub open spec fn dispensed(pre: SwapPool, post: SwapPool, n: int) -> bool {
    let r0 = pre.retrieve_index() as int;
    let r1 = post.retrieve_index() as int;
    &&& post.queue() == pre.queue().skip(n)
    &&& r0 <= r1 <= pre.slots().len()
    &&& filled_ids(pre.slots().subrange(r0, r1)) == pre.queue().take(n)
    &&& n > 0 ==> pre.slots()[r1 - 1] is Some
    &&& n == 0 ==> r1 == r0
    &&& post.slots().len() == pre.slots().len()
    &&& forall|j: int|
        0 <= j < pre.slots().len() ==> #[trigger] post.slots()[j] == (if r0 <= j < r1 {
            None::<AssetId>
        } else {
            pre.slots()[j]
        })
}

/// The custodial pool: `slots[retrieve..]` holds what is still to be dispensed.
#[derive(Clone)]
pub struct SwapPool {
    slots: Vec<Option<AssetId>>,
    retrieve: usize,
    balance: u128,
}

impl SwapPool {
    /// The custodied assets in the order they will be dispensed.
    pub closed spec fn queue(&self) -> Seq<AssetId> {
        filled_ids(self.slots@.subrange(self.retrieve as int, self.slots@.len() as int))
    }

    /// Every slot ever filled, emptied or not.
    pub closed spec fn slots(&self) -> Seq<Option<AssetId>> {
        self.slots@
    }

    /// The next slot to dispense from.
    pub closed spec fn retrieve_index(&self) -> nat {
        self.retrieve as nat
    }

    /// The retrieve index never passes the deposit index, and the balance
    /// counts the filled slots between them.
    pub closed spec fn wf(&self) -> bool {
        &&& self.retrieve <= self.slots@.len()
        &&& self.balance == self.queue().len()
    }

    /// An empty pool.
    pub fn new() -> (r: Self)
        ensures
            r.wf(),
            r.queue() == Seq::<AssetId>::empty(),
            r.slots() == Seq::<Option<AssetId>>::empty(),
            r.retrieve_index() == 0,
    {
        let r = SwapPool { slots: Vec::new(), retrieve: 0, balance: 0 };
        assert(r.queue() =~= Seq::<AssetId>::empty());
        r
    }

    /// The count of custodied assets.
    pub fn balance(&self) -> (r: u128)
        requires
            self.wf(),
        ensures
            r == self.queue().len(),
    {
        self.balance
    }

    /// The next free slot.
    pub fn deposit_index(&self) -> (r: u128)
        ensures
            r == self.slots().len(),
    {
        self.slots.len() as u128
    }

    /// The next slot to dispense from.
    pub fn next_swap_index(&self) -> (r: u128)
        ensures
            r == self.retrieve_index(),
    {
        self.retrieve as u128
    }

    /// The asset held in slot `index`, if that slot is filled.
    pub fn stored_at(&self, index: u128) -> (r: Option<AssetId>)
        ensures
            r == (if index < self.slots().len() { self.slots()[index as int] } else { None::<AssetId> }),
    {
        if index < self.slots.len() as u128 {
            self.slots[index as usize]
        } else {
            None
        }
    }

    /// Appends each asset in its own slot, after every earlier deposit.
    pub fn deposit(&mut self, ids: &Vec<AssetId>)
        requires
            old(self).wf(),
        ensures
            final(self).wf(),
            final(self).queue() == old(self).queue() + ids@,
            final(self).slots() == old(self).slots() + ids@.map_values(|a: AssetId| Some(a)),
            final(self).retrieve_index() == old(self).retrieve_index(),
    {
        let ghost pre = *self;
        let n0 = self.slots.len();
        let n1 = ids.len();
        let mut i: usize = 0;
        while i < ids.len()
            invariant
                i <= ids@.len(),
                n0 == pre.slots@.len(),
                n1 == ids@.len(),
                self.retrieve == pre.retrieve,
                self.balance == pre.balance + i,
                pre.wf(),
                self.slots@ == pre.slots@ + ids@.subrange(0, i as int).map_values(|a: AssetId| Some(a)),
            decreases ids@.len() - i,
        {
            proof {
                assert(ids@.subrange(0, i as int + 1).map_values(|a: AssetId| Some(a))
                    =~= ids@.subrange(0, i as int).map_values(|a: AssetId| Some(a)).push(Some(ids@[i as int])));
                assert(self.balance < pre.slots@.len() + ids@.len() + 1) by {
                    let q = pre.slots@.subrange(pre.retrieve as int, pre.slots@.len() as int);
                    lemma_filled_len(q);
                }
            }
            self.slots.push(Some(ids[i]));
            self.balance = self.balance + 1;
            i = i + 1;
        }
        proof {
            let n = pre.slots@.len() as int;
            let r = pre.retrieve as int;
            let added = ids@.map_values(|a: AssetId| Some(a));
            assert(ids@.subrange(0, ids@.len() as int) =~= ids@);
            assert(self.slots@.subrange(r, self.slots@.len() as int)
                =~= pre.slots@.subrange(r, n) + added);
            lemma_filled_concat(pre.slots@.subrange(r, n), added);
            lemma_filled_all(ids@);
        }
    }

    /// Hands out the first `n` custodied assets in deposit order. Scanning
    /// starts at the retrieve index, passes over empty slots, empties each
    /// slot it dispenses, and stops just after the `n`-th asset.
    pub fn dispense(&mut self, n: u128) -> (r: Vec<AssetId>)
        requires
            old(self).wf(),
            n <= old(self).queue().len(),
        ensures
            final(self).wf(),
            r@ == old(self).queue().take(n as int),
            dispensed(*old(self), *final(self), n as int),
    {
        let ghost pre = *self;
        let ghost r0 = self.retrieve as int;
        let ghost len = self.slots@.len() as int;
        let mut out: Vec<AssetId> = Vec::new();
        let mut remaining: u128 = n;
        let mut i: usize = self.retrieve;
        proof {
            assert(pre.slots@.subrange(r0, r0) =~= Seq::<Option<AssetId>>::empty());
        }
        while i < self.slots.len() && remaining > 0
            invariant
                pre.wf(),
                n <= pre.queue().len(),
                r0 == pre.retrieve as int,
                len == pre.slots@.len(),
                self.retrieve == pre.retrieve,
                self.balance == pre.balance,
                r0 <= i <= len,
                self.slots@.len() == len,
                out@ == filled_ids(pre.slots@.subrange(r0, i as int)),
                out@.len() + remaining == n,
                remaining == 0 && n > 0 ==> i > r0 && pre.slots@[i - 1] is Some,
                n == 0 ==> i == r0,
                forall|j: int|
                    0 <= j < len ==> #[trigger] self.slots@[j] == (if r0 <= j < i {
                        None::<AssetId>
                    } else {
                        pre.slots@[j]
                    }),
            decreases len - i,
        {
            proof {
                assert(pre.slots@.subrange(r0, i as int + 1).drop_last()
                    =~= pre.slots@.subrange(r0, i as int));
            }
            match self.slots[i] {
                Some(a) => {
                    out.push(a);
                    remaining = remaining - 1;
                    self.slots.set(i, None);
                },
                None => {},
            }
            i = i + 1;
        }
        proof {
            let q = pre.slots@.subrange(r0, len);
            assert(q =~= pre.slots@.subrange(r0, i as int) + pre.slots@.subrange(i as int, len));
            lemma_filled_concat(pre.slots@.subrange(r0, i as int), pre.slots@.subrange(i as int, len));
            if remaining > 0 {
                assert(i == len);
                assert(pre.slots@.subrange(i as int, len) =~= Seq::<Option<AssetId>>::empty());
                assert(false);
            }
            assert(self.slots@.subrange(i as int, len) =~= pre.slots@.subrange(i as int, len));
            assert(out@ =~= pre.queue().take(n as int));
            assert(filled_ids(self.slots@.subrange(i as int, len)) =~= pre.queue().skip(n as int));
        }
        self.retrieve = i;
        self.balance = self.balance - n;
        out
    }
}

/// A run of slots holds no more assets than it has slots.
pub proof fn lemma_filled_len(s: Seq<Option<AssetId>>)
    ensures
        filled_ids(s).len() <= s.len(),
    decreases s.len(),
{
    if s.len() > 0 {
        lemma_filled_len(s.drop_last());
    }
}

} // verus!
