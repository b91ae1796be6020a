//! The address-indexed stake ledger: each staked asset is listed once, under
//! the address that staked it, and only that address may unstake it.

use vstd::prelude::*;
use vstd::bytes::{spec_u128_to_le_bytes, u128_to_le_bytes};
use crate::error::VaultError;
use crate::ids::{alkane_id_to_bytes, id_bytes, AssetId, Transfer};
use crate::table::IdTable;
use crate::lock::{check_stake_lock, lock_reward, tx_outputs};
use crate::vault::{or_zero, period, BEEP_BOOP_BLOCK};

verus! {

/// A staker, as the two 128-bit halves of its 32-byte witness.
#[derive(Clone, Copy, Debug, PartialEq, Eq, Structural)]
pub struct Address {
    pub lo: u128,
    pub hi: u128,
}

/// The 32-byte witness of an address: `hi` then `lo`, little-endian.
pub open spec fn witness_bytes(a: Address) -> Seq<u8> {
    spec_u128_to_le_bytes(a.hi) + spec_u128_to_le_bytes(a.lo)
}

/// Builds the 32-byte witness of an address.
pub fn witness(a: &Address) -> (r: Vec<u8>)
    ensures
        r@ == witness_bytes(*a),
{
    let mut r = u128_to_le_bytes(a.hi);
    let mut t = u128_to_le_bytes(a.lo);
    r.append(&mut t);
    r
}

/// The index without the entries for `id`, order kept.
pub open spec fn without(s: Seq<(Address, AssetId)>, id: AssetId) -> Seq<(Address, AssetId)>
    decreases s.len(),
{
    if s.len() == 0 {
        s
    } else {
        let rest = without(s.drop_last(), id);
        if s.last().1 == id { rest } else { rest.push(s.last()) }
    }
}

/// The assets listed under `a`, in the order they were staked.
pub open spec fn ids_of_address(s: Seq<(Address, AssetId)>, a: Address) -> Seq<AssetId>
    decreases s.len(),
{
    if s.len() == 0 {
        Seq::empty()
    } else {
        let rest = ids_of_address(s.drop_last(), a);
        if s.last().0 == a { rest.push(s.last().1) } else { rest }
    }
}

/// The 32-byte keys of a run of assets, one after the other.
pub open spec fn keys_bytes(ids: Seq<AssetId>) -> Seq<u8>
    decreases ids.len(),
{
    if ids.len() == 0 {
        Seq::empty()
    } else {
        keys_bytes(ids.drop_last()) + id_bytes(ids.last())
    }
}

/// `id` is listed in the index.
pub open spec fn listed(s: Seq<(Address, AssetId)>, id: AssetId) -> bool {
    exists|i: int| 0 <= i < s.len() && (#[trigger] s[i]).1 == id
}

/// No asset is listed twice.
pub open spec fn listed_once(s: Seq<(Address, AssetId)>) -> bool {
    forall|i: int, j: int| 0 <= i < s.len() && 0 <= j < s.len() && i != j ==> (#[trigger] s[i]).1 != (#[trigger] s[j]).1
}

proof fn lemma_without(s: Seq<(Address, AssetId)>, id: AssetId)
    requires
        listed_once(s),
    ensures
        listed_once(without(s, id)),
        forall|x: AssetId| listed(without(s, id), x) <==> (listed(s, x) && x != id),
    decreases s.len(),
{
    if s.len() > 0 {
        let p = s.drop_last();
        assert(listed_once(p)) by {
            assert forall|i: int, j: int| 0 <= i < p.len() && 0 <= j < p.len() && i != j implies (#[trigger] p[i]).1 != (#[trigger] p[j]).1 by {
                assert(p[i] == s[i] && p[j] == s[j]);
            }
        }
        lemma_without(p, id);
        let w = without(p, id);
        assert forall|x: AssetId| listed(s, x) <==> (listed(p, x) || x == s.last().1) by {
            if listed(s, x) {
                let i = choose|i: int| 0 <= i < s.len() && (#[trigger] s[i]).1 == x;
                if i < p.len() {
                    assert(p[i] == s[i]);
                }
            }
            if x == s.last().1 {
                assert(s[s.len() - 1].1 == x);
            }
        }
        assert(!listed(p, s.last().1)) by {
            if listed(p, s.last().1) {
                let i = choose|i: int| 0 <= i < p.len() && (#[trigger] p[i]).1 == s.last().1;
                assert(s[i] == p[i]);
                assert(s[i].1 == s[s.len() - 1].1);
            }
        }
        if s.last().1 != id {
            let w2 = w.push(s.last());
            assert forall|x: AssetId| listed(w2, x) <==> (listed(w, x) || x == s.last().1) by {
                if listed(w2, x) {
                    let i = choose|i: int| 0 <= i < w2.len() && (#[trigger] w2[i]).1 == x;
                    if i < w.len() {
                        assert(w[i] == w2[i]);
                    }
                }
                if listed(w, x) {
                    let i = choose|i: int| 0 <= i < w.len() && (#[trigger] w[i]).1 == x;
                    assert(w2[i] == w[i]);
                }
                if x == s.last().1 {
                    assert(w2[w2.len() - 1].1 == x);
                }
            }
            assert forall|i: int, j: int| 0 <= i < w2.len() && 0 <= j < w2.len() && i != j implies (#[trigger] w2[i]).1 != (#[trigger] w2[j]).1 by {
                if i < w.len() && j < w.len() {
                    assert(w2[i] == w[i] && w2[j] == w[j]);
                } else if i < w.len() {
                    assert(w2[i] == w[i]);
                    assert(listed(w, w[i].1));
                } else if j < w.len() {
                    assert(w2[j] == w[j]);
                    assert(listed(w, w[j].1));
                }
            }
        }
    }
}

/// The locking script last recorded for `id` staked by `a`.
pub open spec fn output_of(s: Seq<(Address, AssetId, Seq<u8>)>, a: Address, id: AssetId) -> Option<Seq<u8>>
    decreases s.len(),
{
    if s.len() == 0 {
        None
    } else if s.last().0 == a && s.last().1 == id {
        Some(s.last().2)
    } else {
        output_of(s.drop_last(), a, id)
    }
}

fn copy_bytes(b: &Vec<u8>) -> (r: Vec<u8>)
    ensures
        r@ == b@,
{
    let mut r: Vec<u8> = Vec::new();
    let mut i: usize = 0;
    while i < b.len()
        invariant
            i <= b@.len(),
            r@ == b@.subrange(0, i as int),
        decreases b@.len() - i,
    {
        r.push(b[i]);
        i = i + 1;
        proof {
            assert(r@ =~= b@.subrange(0, i as int));
        }
    }
    proof {
        assert(b@.subrange(0, b@.len() as int) =~= b@);
    }
    r
}

/// `id` is listed under `a`.
pub open spec fn held_by(s: Seq<(Address, AssetId)>, a: Address, id: AssetId) -> bool {
    exists|i: int| 0 <= i < s.len() && #[trigger] s[i] == (a, id)
}

/// The address-indexed stake ledger of one collection.
#[derive(Clone)]
pub struct Staking {
    members: Vec<u128>,
    heights: IdTable<u128>,
    staked_blocks: IdTable<u128>,
    index: Vec<(Address, AssetId)>,
    rewards: IdTable<u128>,
    total_rewards: u128,
    outputs: Vec<(Address, AssetId, Vec<u8>)>,
}

impl Staking {
    /// Sequences of the collection's members.
    pub closed spec fn members(&self) -> Seq<u128> {
        self.members@
    }

    /// Whether `id` belongs to the collection.
    pub open spec fn eligible(&self, id: AssetId) -> bool {
        id.block == BEEP_BOOP_BLOCK && self.members().contains(id.tx)
    }

    /// Height at which each asset was staked; zero or absent when not staked.
    pub closed spec fn heights(&self) -> Map<AssetId, u128> {
        self.heights@
    }

    /// Blocks each asset has been staked over its closed periods.
    pub closed spec fn staked_blocks(&self) -> Map<AssetId, u128> {
        self.staked_blocks@
    }

    /// Every staked asset with the address that staked it, in staking order.
    pub closed spec fn index(&self) -> Seq<(Address, AssetId)> {
        self.index@
    }

    /// Rewards each asset earned at once from its time-locked stakes.
    pub closed spec fn rewards(&self) -> Map<AssetId, u128> {
        self.rewards@
    }

    /// Rewards earned from all time-locked stakes.
    pub closed spec fn total_rewards(&self) -> u128 {
        self.total_rewards
    }

    /// The locking script of each time-locked stake, with its address and
    /// asset, in staking order.
    pub closed spec fn staked_outputs(&self) -> Seq<(Address, AssetId, Seq<u8>)> {
        self.outputs@.map_values(|e: (Address, AssetId, Vec<u8>)| (e.0, e.1, e.2@))
    }

    /// An asset is staked exactly when it is listed, and it is listed once.
    pub closed spec fn wf(&self) -> bool {
        &&& self.rewards.wf()
        &&& self.heights.wf()
        &&& self.staked_blocks.wf()
        &&& listed_once(self.index@)
        &&& forall|id: AssetId| or_zero(self.heights@, id) != 0 <==> #[trigger] listed(self.index@, id)
    }

    /// Why staking `incoming` for `caller` is refused, if it is.
    pub open spec fn stake_error(&self, caller: Address, incoming: Seq<Transfer>) -> Option<VaultError> {
        if incoming.len() == 0 {
            Some(VaultError::NoAssets)
        } else if incoming.len() > 1 {
            Some(VaultError::TooManyAssets)
        } else if incoming[0].value != 1 {
            Some(VaultError::InvalidValue)
        } else if !self.eligible(incoming[0].id) {
            Some(VaultError::NotEligible)
        } else if or_zero(self.heights(), incoming[0].id) != 0 || held_by(self.index(), caller, incoming[0].id) {
            Some(VaultError::AlreadyStaked)
        } else {
            None
        }
    }

    /// Why unstaking `id` for `caller` at `height` is refused, if it is.
    pub open spec fn unstake_error(&self, caller: Address, id: AssetId, height: u128) -> Option<VaultError> {
        if !self.eligible(id) {
            Some(VaultError::NotEligible)
        } else if !held_by(self.index(), caller, id) {
            Some(VaultError::NotStakedByCaller)
        } else if or_zero(self.heights(), id) == 0 {
            Some(VaultError::NotStaked)
        } else if or_zero(self.staked_blocks(), id) + period(height, or_zero(self.heights(), id)) > u128::MAX {
            Some(VaultError::Overflow)
        } else {
            None
        }
    }

    /// An empty ledger for the collection whose members have the given sequences.
    pub fn initialize(members: Vec<u128>) -> (r: Self)
        ensures
            r.wf(),
            r.members() == members@,
            r.heights() == Map::<AssetId, u128>::empty(),
            r.staked_blocks() == Map::<AssetId, u128>::empty(),
            r.index() == Seq::<(Address, AssetId)>::empty(),
            r.rewards() == Map::<AssetId, u128>::empty(),
            r.total_rewards() == 0,
            r.staked_outputs() == Seq::<(Address, AssetId, Seq<u8>)>::empty(),
    {
        let r = Staking {
            members,
            heights: IdTable::new(),
            staked_blocks: IdTable::new(),
            index: Vec::new(),
            rewards: IdTable::new(),
            total_rewards: 0,
            outputs: Vec::new(),
        };
        assert(r.staked_outputs() =~= Seq::<(Address, AssetId, Seq<u8>)>::empty());
        assert forall|id: AssetId| or_zero(r.heights@, id) != 0 <==> #[trigger] listed(r.index@, id) by {}
        r
    }

    /// The display name.
    pub fn get_name(&self) -> (r: &'static str)
        ensures
            r@ == "Stake Beep Boop"@,
    {
        "Stake Beep Boop"
    }

    /// The display symbol.
    pub fn get_symbol(&self) -> (r: &'static str)
        ensures
            r@ == "📠"@,
    {
        "📠"
    }

    /// The 32-byte key of an asset.
    pub fn alkane_id_to_bytes(&self, id: &AssetId) -> (r: Vec<u8>)
        ensures
            r@ == id_bytes(*id),
    {
        alkane_id_to_bytes(id)
    }

    /// Whether `id` belongs to the collection.
    pub fn verify_id_collection(&self, id: &AssetId) -> (r: bool)
        ensures
            r == self.eligible(*id),
    {
        if id.block != BEEP_BOOP_BLOCK {
            return false;
        }
        let mut i: usize = 0;
        while i < self.members.len()
            invariant
                id.block == BEEP_BOOP_BLOCK,
                i <= self.members@.len(),
                forall|j: int| 0 <= j < i ==> self.members@[j] != id.tx,
            decreases self.members@.len() - i,
        {
            if self.members[i] == id.tx {
                assert(self.members@[i as int] == id.tx);
                return true;
            }
            i = i + 1;
        }
        false
    }

    fn height_of(&self, id: &AssetId) -> (r: u128)
        requires
            self.wf(),
        ensures
            r == or_zero(self.heights(), *id),
    {
        match self.heights.get(id) {
            Some(h) => h,
            None => 0,
        }
    }

    fn is_held_by(&self, caller: &Address, id: &AssetId) -> (r: bool)
        ensures
            r == held_by(self.index(), *caller, *id),
    {
        let mut i: usize = 0;
        while i < self.index.len()
            invariant
                i <= self.index@.len(),
                forall|j: int| 0 <= j < i ==> self.index@[j] != (*caller, *id),
            decreases self.index@.len() - i,
        {
            let (a, x) = self.index[i];
            if a == *caller && x == *id {
                assert(self.index@[i as int] == (*caller, *id));
                return true;
            }
            i = i + 1;
        }
        false
    }

    /// Stakes the one attached asset for `caller` at `height`. A height of
    /// zero stands for "not staked", so stakes start at height one.
    pub fn stake(&mut self, caller: &Address, incoming: &Vec<Transfer>, height: u128) -> (r: Result<(), VaultError>)
        requires
            old(self).wf(),
            height > 0,
        ensures
            final(self).wf(),
            r is Err ==> *final(self) == *old(self),
            r == match old(self).stake_error(*caller, incoming@) {
                Some(e) => Err::<(), VaultError>(e),
                None => Ok::<(), VaultError>(()),
            },
            r is Ok ==> {
                &&& final(self).heights() == old(self).heights().insert(incoming@[0].id, height)
                &&& final(self).index() == old(self).index().push((*caller, incoming@[0].id))
                &&& final(self).staked_blocks() == old(self).staked_blocks()
                &&& final(self).members() == old(self).members()
                &&& final(self).rewards() == old(self).rewards()
                &&& final(self).total_rewards() == old(self).total_rewards()
                &&& final(self).staked_outputs() == old(self).staked_outputs()
            },
    {
        if incoming.len() == 0 {
            return Err(VaultError::NoAssets);
        }
        if incoming.len() > 1 {
            return Err(VaultError::TooManyAssets);
        }
        let t = incoming[0];
        if t.value != 1 {
            return Err(VaultError::InvalidValue);
        }
        if !self.verify_id_collection(&t.id) {
            return Err(VaultError::NotEligible);
        }
        if self.height_of(&t.id) != 0 || self.is_held_by(caller, &t.id) {
            return Err(VaultError::AlreadyStaked);
        }
        let ghost pre = *self;
        self.heights.set(&t.id, height);
        self.index.push((*caller, t.id));
        proof {
            let s = self.index@;
            assert(s.drop_last() =~= pre.index@);
            assert forall|x: AssetId| #[trigger] listed(s, x) <==> (listed(pre.index@, x) || x == t.id) by {
                if listed(s, x) {
                    let i = choose|i: int| 0 <= i < s.len() && (#[trigger] s[i]).1 == x;
                    if i < pre.index@.len() {
                        assert(pre.index@[i] == s[i]);
                    }
                }
                if listed(pre.index@, x) {
                    let i = choose|i: int| 0 <= i < pre.index@.len() && (#[trigger] pre.index@[i]).1 == x;
                    assert(s[i] == pre.index@[i]);
                }
                if x == t.id {
                    assert(s[s.len() - 1].1 == x);
                }
            }
            assert forall|i: int, j: int| 0 <= i < s.len() && 0 <= j < s.len() && i != j implies (#[trigger] s[i]).1 != (#[trigger] s[j]).1 by {
                if i < pre.index@.len() && j < pre.index@.len() {
                    assert(s[i] == pre.index@[i] && s[j] == pre.index@[j]);
                } else if i < pre.index@.len() {
                    assert(s[i] == pre.index@[i]);
                    assert(listed(pre.index@, s[i].1));
                } else if j < pre.index@.len() {
                    assert(s[j] == pre.index@[j]);
                    assert(listed(pre.index@, s[j].1));
                }
            }
            assert forall|x: AssetId| or_zero(self.heights@, x) != 0 <==> #[trigger] listed(self.index@, x) by {
                assert(listed(pre.index@, x) <==> or_zero(pre.heights@, x) != 0);
            }
        }
        Ok(())
    }

    /// Unstakes `id` for `caller` at `height`: the blocks since the stake are
    /// added to its record, its listing is removed, its height cleared, and
    /// the asset is handed back.
    pub fn unstake(&mut self, caller: &Address, id: &AssetId, height: u128) -> (r: Result<Transfer, VaultError>)
        requires
            old(self).wf(),
        ensures
            final(self).wf(),
            r is Err ==> *final(self) == *old(self),
            match old(self).unstake_error(*caller, *id, height) {
                Some(e) => r == Err::<Transfer, VaultError>(e),
                None => {
                    &&& r == Ok::<Transfer, VaultError>(Transfer { id: *id, value: 1 })
                    &&& final(self).staked_blocks() == old(self).staked_blocks().insert(
                        *id,
                        (or_zero(old(self).staked_blocks(), *id) + period(height, or_zero(old(self).heights(), *id))) as u128,
                    )
                    &&& final(self).heights() == old(self).heights().insert(*id, 0)
                    &&& final(self).index() == without(old(self).index(), *id)
                    &&& final(self).members() == old(self).members()
                    &&& final(self).rewards() == old(self).rewards()
                    &&& final(self).total_rewards() == old(self).total_rewards()
                    &&& final(self).staked_outputs() == old(self).staked_outputs()
                },
            },
    {
        if !self.verify_id_collection(id) {
            return Err(VaultError::NotEligible);
        }
        if !self.is_held_by(caller, id) {
            return Err(VaultError::NotStakedByCaller);
        }
        let since = self.height_of(id);
        if since == 0 {
            return Err(VaultError::NotStaked);
        }
        let previous = match self.staked_blocks.get(id) {
            Some(b) => b,
            None => 0,
        };
        let blocks = match previous.checked_add(height.saturating_sub(since)) {
            Some(b) => b,
            None => {
                return Err(VaultError::Overflow);
            },
        };
        let ghost pre = *self;
        let mut kept: Vec<(Address, AssetId)> = Vec::new();
        let mut i: usize = 0;
        while i < self.index.len()
            invariant
                i <= self.index@.len(),
                kept@ == without(self.index@.subrange(0, i as int), *id),
            decreases self.index@.len() - i,
        {
            proof {
                assert(self.index@.subrange(0, i as int + 1).drop_last() =~= self.index@.subrange(0, i as int));
            }
            let entry = self.index[i];
            if entry.1 != *id {
                kept.push(entry);
            }
            i = i + 1;
        }
        proof {
            assert(self.index@.subrange(0, self.index@.len() as int) =~= self.index@);
            lemma_without(pre.index@, *id);
        }
        self.index = kept;
        self.staked_blocks.set(id, blocks);
        self.heights.set(id, 0);
        proof {
            assert forall|x: AssetId| or_zero(self.heights@, x) != 0 <==> #[trigger] listed(self.index@, x) by {
                assert(listed(pre.index@, x) <==> or_zero(pre.heights@, x) != 0);
            }
        }
        Ok(Transfer { id: *id, value: 1 })
    }

    /// The keys of the assets `caller` has staked, in staking order.
    pub fn get_staked_ids_by_address(&self, caller: &Address) -> (r: Result<Vec<u8>, VaultError>)
        ensures
            ids_of_address(self.index(), *caller).len() == 0 ==> r == Err::<Vec<u8>, VaultError>(VaultError::NotFound),
            ids_of_address(self.index(), *caller).len() > 0 ==> (r matches Ok(b) && b@ == keys_bytes(ids_of_address(self.index(), *caller))),
    {
        let mut out: Vec<u8> = Vec::new();
        let mut found: bool = false;
        let mut i: usize = 0;
        while i < self.index.len()
            invariant
                i <= self.index@.len(),
                out@ == keys_bytes(ids_of_address(self.index@.subrange(0, i as int), *caller)),
                found == (ids_of_address(self.index@.subrange(0, i as int), *caller).len() > 0),
            decreases self.index@.len() - i,
        {
            proof {
                assert(self.index@.subrange(0, i as int + 1).drop_last() =~= self.index@.subrange(0, i as int));
            }
            let (a, x) = self.index[i];
            if a == *caller {
                let mut k = alkane_id_to_bytes(&x);
                out.append(&mut k);
                found = true;
                proof {
                    let q = ids_of_address(self.index@.subrange(0, i as int), *caller);
                    assert(q.push(x).drop_last() =~= q);
                }
            }
            i = i + 1;
        }
        proof {
            assert(self.index@.subrange(0, self.index@.len() as int) =~= self.index@);
        }
        if !found {
            return Err(VaultError::NotFound);
        }
        Ok(out)
    }

    /// Stakes the one attached asset for `caller` under a time lock carried by
    /// the staking transaction `tx`. The blocks until the lock height are
    /// recorded at once as the asset's reward, which is returned, and the
    /// locking script is recorded under the caller and the asset.
    pub fn stake_locked(&mut self, caller: &Address, incoming: &Vec<Transfer>, tx: &Vec<u8>, height: u128) -> (r: Result<u128, VaultError>)
        requires
            old(self).wf(),
            height > 0,
        ensures
            final(self).wf(),
            r is Err ==> *final(self) == *old(self),
            old(self).stake_error(*caller, incoming@) matches Some(e) ==> r == Err::<u128, VaultError>(e),
            old(self).stake_error(*caller, incoming@) is None ==> match lock_reward(tx@, height) {
                Err(e) => r == Err::<u128, VaultError>(e),
                Ok(reward) => {
                    let id = incoming@[0].id;
                    if or_zero(old(self).rewards(), id) + reward > u128::MAX || old(self).total_rewards() + reward > u128::MAX {
                        r == Err::<u128, VaultError>(VaultError::Overflow)
                    } else {
                        &&& r == Ok::<u128, VaultError>(reward)
                        &&& final(self).heights() == old(self).heights().insert(id, height)
                        &&& final(self).index() == old(self).index().push((*caller, id))
                        &&& final(self).rewards() == old(self).rewards().insert(id, (or_zero(old(self).rewards(), id) + reward) as u128)
                        &&& final(self).total_rewards() == old(self).total_rewards() + reward
                        &&& final(self).staked_blocks() == old(self).staked_blocks()
                        &&& final(self).members() == old(self).members()
                        &&& final(self).staked_outputs() == old(self).staked_outputs().push((*caller, id, tx_outputs(tx@)->0[0]))
                    }
                },
            },
    {
        if incoming.len() == 0 {
            return Err(VaultError::NoAssets);
        }
        if incoming.len() > 1 {
            return Err(VaultError::TooManyAssets);
        }
        let t = incoming[0];
        if t.value != 1 {
            return Err(VaultError::InvalidValue);
        }
        if !self.verify_id_collection(&t.id) {
            return Err(VaultError::NotEligible);
        }
        if self.height_of(&t.id) != 0 || self.is_held_by(caller, &t.id) {
            return Err(VaultError::AlreadyStaked);
        }
        let (reward, script) = match check_stake_lock(tx, height) {
            Ok(v) => v,
            Err(e) => {
                return Err(e);
            },
        };
        let earlier = match self.rewards.get(&t.id) {
            Some(v) => v,
            None => 0,
        };
        let new_reward = match earlier.checked_add(reward) {
            Some(v) => v,
            None => {
                return Err(VaultError::Overflow);
            },
        };
        let new_total = match self.total_rewards.checked_add(reward) {
            Some(v) => v,
            None => {
                return Err(VaultError::Overflow);
            },
        };
        match self.stake(caller, incoming, height) {
            Ok(()) => {},
            Err(e) => {
                return Err(e);
            },
        }
        self.rewards.set(&t.id, new_reward);
        self.total_rewards = new_total;
        let ghost pre_outputs = self.outputs@;
        self.outputs.push((*caller, t.id, script));
        proof {
            assert(self.outputs@.map_values(|e: (Address, AssetId, Vec<u8>)| (e.0, e.1, e.2@))
                =~= pre_outputs.map_values(|e: (Address, AssetId, Vec<u8>)| (e.0, e.1, e.2@)).push((*caller, t.id, script@)));
        }
        Ok(reward)
    }

    /// The reward `id` earned from time-locked stakes, 16 bytes little-endian.
    pub fn get_stake_rewards_by_id(&self, id: &AssetId) -> (r: Vec<u8>)
        requires
            self.wf(),
        ensures
            r@ == spec_u128_to_le_bytes(or_zero(self.rewards(), *id)),
    {
        let v = match self.rewards.get(id) {
            Some(v) => v,
            None => 0,
        };
        u128_to_le_bytes(v)
    }

    /// Rewards earned from all time-locked stakes, 16 bytes little-endian.
    pub fn get_total_rewards(&self) -> (r: Vec<u8>)
        ensures
            r@ == spec_u128_to_le_bytes(self.total_rewards()),
    {
        u128_to_le_bytes(self.total_rewards)
    }

    /// One byte: 1 where `id` belongs to the collection, else 0.
    pub fn get_stake_eligibility(&self, id: &AssetId) -> (r: Vec<u8>)
        ensures
            r@ == seq![if self.eligible(*id) { 1u8 } else { 0u8 }],
    {
        let ok = self.verify_id_collection(id);
        let r = vec![if ok { 1u8 } else { 0u8 }];
        assert(r@ =~= seq![if ok { 1u8 } else { 0u8 }]);
        r
    }

    /// The height at which `id` was staked, 16 bytes little-endian.
    pub fn get_staked_height(&self, id: &AssetId) -> (r: Result<Vec<u8>, VaultError>)
        requires
            self.wf(),
        ensures
            !self.eligible(*id) ==> r == Err::<Vec<u8>, VaultError>(VaultError::NotEligible),
            self.eligible(*id) && or_zero(self.heights(), *id) == 0 ==> r == Err::<Vec<u8>, VaultError>(VaultError::NotStaked),
            self.eligible(*id) && or_zero(self.heights(), *id) != 0 ==> (r matches Ok(b) && b@ == spec_u128_to_le_bytes(or_zero(self.heights(), *id))),
    {
        if !self.verify_id_collection(id) {
            return Err(VaultError::NotEligible);
        }
        let h = self.height_of(id);
        if h == 0 {
            return Err(VaultError::NotStaked);
        }
        Ok(u128_to_le_bytes(h))
    }

    /// Blocks `id` has been staked over its closed periods, 16 bytes little-endian.
    pub fn get_total_staked_blocks(&self, id: &AssetId) -> (r: Result<Vec<u8>, VaultError>)
        requires
            self.wf(),
        ensures
            !self.eligible(*id) ==> r == Err::<Vec<u8>, VaultError>(VaultError::NotEligible),
            self.eligible(*id) ==> (r matches Ok(b) && b@ == spec_u128_to_le_bytes(or_zero(self.staked_blocks(), *id))),
    {
        if !self.verify_id_collection(id) {
            return Err(VaultError::NotEligible);
        }
        let b = match self.staked_blocks.get(id) {
            Some(b) => b,
            None => 0,
        };
        Ok(u128_to_le_bytes(b))
    }

    /// The locking script recorded for `id` staked by `caller`.
    pub fn get_staked_output(&self, caller: &Address, id: &AssetId) -> (r: Result<Vec<u8>, VaultError>)
        ensures
            match output_of(self.staked_outputs(), *caller, *id) {
                Some(b) => r matches Ok(v) && v@ == b,
                None => r == Err::<Vec<u8>, VaultError>(VaultError::NotFound),
            },
    {
        let mut found: Option<usize> = None;
        let mut i: usize = 0;
        while i < self.outputs.len()
            invariant
                i <= self.outputs@.len(),
                match found {
                    Some(k) => k < i && output_of(self.staked_outputs().subrange(0, i as int), *caller, *id)
                        == Some(self.outputs@[k as int].2@),
                    None => output_of(self.staked_outputs().subrange(0, i as int), *caller, *id) is None,
                },
            decreases self.outputs@.len() - i,
        {
            proof {
                assert(self.staked_outputs().subrange(0, i as int + 1).drop_last()
                    =~= self.staked_outputs().subrange(0, i as int));
            }
            let e = &self.outputs[i];
            if e.0 == *caller && e.1 == *id {
                found = Some(i);
            }
            i = i + 1;
        }
        proof {
            assert(self.staked_outputs().subrange(0, self.outputs@.len() as int) =~= self.staked_outputs());
        }
        match found {
            Some(k) => Ok(copy_bytes(&self.outputs[k].2)),
            None => Err(VaultError::NotFound),
        }
    }

    /// How many assets are staked now.
    pub fn get_total_staked(&self) -> (r: Vec<u8>)
        ensures
            r@ == spec_u128_to_le_bytes(self.index().len() as u128),
    {
        u128_to_le_bytes(self.index.len() as u128)
    }
}

/// An asset is staked exactly when it is listed in the index, and then it is
/// listed once: never twice, never staked but absent.
pub proof fn lemma_staked_iff_listed_once(s: Staking, id: AssetId)
    requires
        s.wf(),
    ensures
        or_zero(s.heights(), id) != 0 <==> exists|i: int| 0 <= i < s.index().len() && (#[trigger] s.index()[i]).1 == id,
        forall|i: int, j: int|
            0 <= i < s.index().len() && 0 <= j < s.index().len() && (#[trigger] s.index()[i]).1 == id
                && (#[trigger] s.index()[j]).1 == id ==> i == j,
{
    assert(listed(s.index(), id) <==> or_zero(s.heights(), id) != 0);
}

/// Unstaking adds exactly the blocks since the stake, never fewer than zero,
/// to the asset's record and leaves every other record alone; staking leaves
/// all records alone. So recorded blocks never decrease.
pub proof fn lemma_unstake_adds_period(pre: Staking, post: Staking, caller: Address, id: AssetId, height: u128)
    requires
        pre.wf(),
        pre.unstake_error(caller, id, height) is None,
        post.staked_blocks() == pre.staked_blocks().insert(
            id,
            (or_zero(pre.staked_blocks(), id) + period(height, or_zero(pre.heights(), id))) as u128,
        ),
    ensures
        or_zero(post.staked_blocks(), id) == or_zero(pre.staked_blocks(), id) + period(height, or_zero(pre.heights(), id)),
        period(height, or_zero(pre.heights(), id)) >= 0,
        forall|x: AssetId| or_zero(pre.staked_blocks(), x) <= #[trigger] or_zero(post.staked_blocks(), x),
{
    assert forall|x: AssetId| or_zero(pre.staked_blocks(), x) <= #[trigger] or_zero(post.staked_blocks(), x) by {
        if x != id {
            assert(or_zero(post.staked_blocks(), x) == or_zero(pre.staked_blocks(), x));
        }
    }
}

/// Once an asset is staked, by `stake` or by `stake_locked` (both refuse by
/// `stake_error` and record the new height), staking it again is refused,
/// whoever asks; a refused stake changes nothing.
pub proof fn lemma_restake_rejected(
    pre: Staking,
    post: Staking,
    caller: Address,
    again: Address,
    incoming: Seq<Transfer>,
    height: u128,
)
    requires
        pre.stake_error(caller, incoming) is None,
        height > 0,
        post.heights() == pre.heights().insert(incoming[0].id, height),
        post.members() == pre.members(),
    ensures
        post.stake_error(again, incoming) == Some(VaultError::AlreadyStaked),
{
}

} // verus!
