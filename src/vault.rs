//! The receipt-binding stake ledger. Staking an eligible asset hands out a
//! receipt asset bound to it; the receipt for a given mint index is minted
//! once and reused on later stakes. Returning the receipt unstakes the
//! original and adds the blocks it was staked to its record.

use vstd::prelude::*;
use std::collections::HashMap;
use vstd::bytes::{spec_u128_to_le_bytes, u128_to_le_bytes};
use crate::error::VaultError;
use crate::ids::{alkane_id_to_bytes, id_bytes, AssetId, Transfer};
use crate::table::IdTable;
use crate::text::{format_id, id_text};

verus! {

broadcast use vstd::std_specs::hash::group_hash_axioms;

/// The block of the eligible collection.
pub const BEEP_BOOP_BLOCK: u128 = 2;

/// How many receipts may ever be minted.
pub const MAX_MINTS: u128 = 10000;

/// The value recorded for `k`, zero where nothing is.
pub open spec fn or_zero(m: Map<AssetId, u128>, k: AssetId) -> u128 {
    if m.contains_key(k) { m[k] } else { 0 }
}

/// The original bound to receipt `k`, if any.
pub open spec fn bound_in(m: Map<AssetId, Option<AssetId>>, k: AssetId) -> Option<AssetId> {
    if m.contains_key(k) { m[k] } else { None }
}

/// Closed blocks after unstaking at `current` what was staked at `since`.
pub open spec fn period(current: u128, since: u128) -> int {
    if current >= since { current - since } else { 0 }
}

/// The receipt-binding stake ledger of one collection.
#[derive(Clone)]
pub struct Staking {
    members: Vec<u128>,
    heights: IdTable<u128>,
    staked_blocks: IdTable<u128>,
    bindings: IdTable<Option<AssetId>>,
    instances: HashMap<u128, AssetId>,
    instances_count: u128,
    total_staked: u128,
    total_unstaked: u128,
}

impl Staking {
    /// Sequences of the collection's members.
    pub closed spec fn members(&self) -> Seq<u128> {
        self.members@
    }

    /// Whether `id` belongs to the collection.
    pub open spec fn eligible(&self, id: AssetId) -> bool {
        id.block == BEEP_BOOP_BLOCK && self.members().contains(id.tx)
    }

    /// Why one attached transfer cannot be staked, if it cannot.
    pub open spec fn transfer_refusal(&self, t: Transfer) -> Option<VaultError> {
        if !self.eligible(t.id) {
            Some(VaultError::NotEligible)
        } else if or_zero(self.heights(), t.id) != 0 {
            Some(VaultError::AlreadyStaked)
        } else if t.value != 1 {
            Some(VaultError::InvalidValue)
        } else {
            None
        }
    }

    /// Height at which each asset was staked; zero or absent when not staked.
    pub closed spec fn heights(&self) -> Map<AssetId, u128> {
        self.heights@
    }

    /// Blocks each asset has been staked over its closed periods.
    pub closed spec fn staked_blocks(&self) -> Map<AssetId, u128> {
        self.staked_blocks@
    }

    /// The original each receipt stands for.
    pub closed spec fn bindings(&self) -> Map<AssetId, Option<AssetId>> {
        self.bindings@
    }

    /// The receipt minted for each mint index.
    pub closed spec fn registry(&self) -> Map<u128, AssetId> {
        self.instances@
    }

    pub closed spec fn minted_count(&self) -> u128 {
        self.instances_count
    }

    pub closed spec fn total_staked(&self) -> u128 {
        self.total_staked
    }

    pub closed spec fn total_unstaked(&self) -> u128 {
        self.total_unstaked
    }

    pub closed spec fn wf(&self) -> bool {
        &&& self.heights.wf()
        &&& self.staked_blocks.wf()
        &&& self.bindings.wf()
    }

    /// An empty ledger for the collection whose members have the given sequences.
    pub fn initialize(members: Vec<u128>) -> (r: Self)
        ensures
            r.wf(),
            r.members() == members@,
            r.heights() == Map::<AssetId, u128>::empty(),
            r.staked_blocks() == Map::<AssetId, u128>::empty(),
            r.bindings() == Map::<AssetId, Option<AssetId>>::empty(),
            r.registry() == Map::<u128, AssetId>::empty(),
            r.minted_count() == 0,
            r.total_staked() == 0,
            r.total_unstaked() == 0,
    {
        Staking {
            members,
            heights: IdTable::new(),
            staked_blocks: IdTable::new(),
            bindings: IdTable::new(),
            instances: HashMap::new(),
            instances_count: 0,
            total_staked: 0,
            total_unstaked: 0,
        }
    }

    /// The 32-byte key of an asset.
    pub fn alkane_id_to_bytes(&self, id: &AssetId) -> (r: Vec<u8>)
        ensures
            r@ == id_bytes(*id),
    {
        alkane_id_to_bytes(id)
    }

    /// Whether `id` belongs to the collection.
    pub fn verify_id_collection(&self, id: &AssetId) -> (r: bool)
        ensures
            r == self.eligible(*id),
    {
        if id.block != BEEP_BOOP_BLOCK {
            return false;
        }
        let mut i: usize = 0;
        while i < self.members.len()
            invariant
                id.block == BEEP_BOOP_BLOCK,
                i <= self.members@.len(),
                forall|j: int| 0 <= j < i ==> self.members@[j] != id.tx,
            decreases self.members@.len() - i,
        {
            if self.members[i] == id.tx {
                assert(self.members@[i as int] == id.tx);
                return true;
            }
            i = i + 1;
        }
        false
    }

    /// Whether staking at mint index `index` needs a new receipt from the
    /// factory: none is registered there and the index is within the limit.
    pub fn needs_receipt(&self, index: u128) -> (r: bool)
        ensures
            r == (!self.registry().contains_key(index) && index < MAX_MINTS),
    {
        self.receipt_for_index(index).is_none() && index < MAX_MINTS
    }

    /// Checks a stake call's attached transfers before anything is minted:
    /// at least one, each of one unit of a member of the collection that is
    /// not already staked. The first transfer that fails decides the error.
    pub fn check_stake(&self, incoming: &Vec<Transfer>) -> (r: Result<(), VaultError>)
        requires
            self.wf(),
        ensures
            incoming@.len() == 0 ==> r == Err::<(), VaultError>(VaultError::NoAssets),
            incoming@.len() > 0 && (forall|j: int| 0 <= j < incoming@.len() ==> self.transfer_refusal(#[trigger] incoming@[j]) is None) ==> r is Ok,
            r is Ok ==> forall|j: int| 0 <= j < incoming@.len() ==> self.transfer_refusal(#[trigger] incoming@[j]) is None,
            r matches Err(e) ==> incoming@.len() == 0 || exists|j: int|
                0 <= j < incoming@.len() && self.transfer_refusal(#[trigger] incoming@[j]) == Some(e)
                    && (forall|k: int| 0 <= k < j ==> self.transfer_refusal(#[trigger] incoming@[k]) is None),
    {
        if incoming.len() == 0 {
            return Err(VaultError::NoAssets);
        }
        let mut i: usize = 0;
        while i < incoming.len()
            invariant
                self.wf(),
                i <= incoming@.len(),
                forall|k: int| 0 <= k < i ==> self.transfer_refusal(#[trigger] incoming@[k]) is None,
            decreases incoming@.len() - i,
        {
            let id = incoming[i].id;
            if !self.verify_id_collection(&id) {
                assert(self.transfer_refusal(incoming@[i as int]) == Some(VaultError::NotEligible));
                return Err(VaultError::NotEligible);
            }
            if self.height_of(&id) != 0 {
                assert(self.transfer_refusal(incoming@[i as int]) == Some(VaultError::AlreadyStaked));
                return Err(VaultError::AlreadyStaked);
            }
            if incoming[i].value != 1 {
                assert(self.transfer_refusal(incoming@[i as int]) == Some(VaultError::InvalidValue));
                return Err(VaultError::InvalidValue);
            }
            i = i + 1;
        }
        Ok(())
    }

    /// Stakes one attached asset. `index` is the asset's mint index and
    /// `minted` the receipt that the factory minted for it, where the
    /// registry held none for that index. Hands back the bound receipt. A
    /// height of zero stands for "not staked", so stakes start at height one.
    pub fn stake(&mut self, incoming: &Transfer, index: u128, minted: Option<AssetId>, height: u128) -> (r: Result<Transfer, VaultError>)
        requires
            old(self).wf(),
            height > 0,
        ensures
            final(self).wf(),
            r is Err ==> *final(self) == *old(self),
            final(self).members() == old(self).members(),
            final(self).staked_blocks() == old(self).staked_blocks(),
            final(self).total_unstaked() == old(self).total_unstaked(),
            ({
                let id = incoming.id;
                let pre = *old(self);
                if incoming.value != 1 {
                    r == Err::<Transfer, VaultError>(VaultError::InvalidValue)
                } else if !pre.eligible(id) {
                    r == Err::<Transfer, VaultError>(VaultError::NotEligible)
                } else if or_zero(pre.heights(), id) != 0 {
                    r == Err::<Transfer, VaultError>(VaultError::AlreadyStaked)
                } else if !pre.registry().contains_key(index) && index >= MAX_MINTS {
                    r == Err::<Transfer, VaultError>(VaultError::MintedOut)
                } else if !pre.registry().contains_key(index) && minted is None {
                    r == Err::<Transfer, VaultError>(VaultError::NotFound)
                } else if pre.total_staked() == u128::MAX
                    || (!pre.registry().contains_key(index) && pre.minted_count() == u128::MAX) {
                    r == Err::<Transfer, VaultError>(VaultError::Overflow)
                } else {
                    let receipt = if pre.registry().contains_key(index) { pre.registry()[index] } else { minted->0 };
                    &&& r == Ok::<Transfer, VaultError>(Transfer { id: receipt, value: 1 })
                    &&& final(self).heights() == pre.heights().insert(id, height)
                    &&& final(self).bindings() == pre.bindings().insert(receipt, Some(id))
                    &&& final(self).registry() == pre.registry().insert(index, receipt)
                    &&& final(self).minted_count() == pre.minted_count() + (if pre.registry().contains_key(index) { 0int } else { 1int })
                    &&& final(self).total_staked() == pre.total_staked() + 1
                }
            }),
    {
        let id = incoming.id;
        if incoming.value != 1 {
            return Err(VaultError::InvalidValue);
        }
        if !self.verify_id_collection(&id) {
            return Err(VaultError::NotEligible);
        }
        let since = match self.heights.get(&id) {
            Some(h) => h,
            None => 0,
        };
        if since != 0 {
            return Err(VaultError::AlreadyStaked);
        }
        let existing = match self.instances.get(&index) {
            Some(a) => Some(*a),
            None => None,
        };
        let receipt = match existing {
            Some(a) => a,
            None => {
                if index >= MAX_MINTS {
                    return Err(VaultError::MintedOut);
                }
                match minted {
                    Some(a) => a,
                    None => {
                        return Err(VaultError::NotFound);
                    },
                }
            },
        };
        if self.total_staked == u128::MAX {
            return Err(VaultError::Overflow);
        }
        if existing.is_none() {
            if self.instances_count == u128::MAX {
                return Err(VaultError::Overflow);
            }
            self.instances_count = self.instances_count + 1;
        }
        self.instances.insert(index, receipt);
        self.heights.set(&id, height);
        self.bindings.set(&receipt, Some(id));
        self.total_staked = self.total_staked + 1;
        Ok(Transfer { id: receipt, value: 1 })
    }

    /// Unstakes by returning exactly one receipt: the blocks since the stake
    /// are added to the original's record, the stake and the binding are
    /// cleared, and the original is handed back.
    pub fn unstake(&mut self, incoming: &Vec<Transfer>, height: u128) -> (r: Result<Transfer, VaultError>)
        requires
            old(self).wf(),
        ensures
            final(self).wf(),
            r is Err ==> *final(self) == *old(self),
            final(self).members() == old(self).members(),
            final(self).registry() == old(self).registry(),
            final(self).minted_count() == old(self).minted_count(),
            final(self).total_staked() == old(self).total_staked(),
            incoming@.len() == 0 ==> r == Err::<Transfer, VaultError>(VaultError::NoAssets),
            incoming@.len() > 1 ==> r == Err::<Transfer, VaultError>(VaultError::TooManyAssets),
            incoming@.len() == 1 ==> ({
                let t = incoming@[0];
                let pre = *old(self);
                if t.value != 1 {
                    r == Err::<Transfer, VaultError>(VaultError::InvalidValue)
                } else {
                    match bound_in(pre.bindings(), t.id) {
                        None => r == Err::<Transfer, VaultError>(VaultError::UnboundReceipt),
                        Some(orig) => {
                            let since = or_zero(pre.heights(), orig);
                            let blocks = or_zero(pre.staked_blocks(), orig) + period(height, since);
                            if since == 0 {
                                r == Err::<Transfer, VaultError>(VaultError::NotStaked)
                            } else if blocks > u128::MAX || pre.total_unstaked() == u128::MAX {
                                r == Err::<Transfer, VaultError>(VaultError::Overflow)
                            } else {
                                &&& r == Ok::<Transfer, VaultError>(Transfer { id: orig, value: 1 })
                                &&& final(self).staked_blocks() == pre.staked_blocks().insert(orig, blocks as u128)
                                &&& final(self).heights() == pre.heights().insert(orig, 0)
                                &&& final(self).bindings() == pre.bindings().insert(t.id, None)
                                &&& final(self).total_unstaked() == pre.total_unstaked() + 1
                            }
                        },
                    }
                }
            }),
    {
        if incoming.len() == 0 {
            return Err(VaultError::NoAssets);
        }
        if incoming.len() != 1 {
            return Err(VaultError::TooManyAssets);
        }
        let t = incoming[0];
        if t.value != 1 {
            return Err(VaultError::InvalidValue);
        }
        let orig = match self.bindings.get(&t.id) {
            Some(Some(o)) => o,
            _ => {
                return Err(VaultError::UnboundReceipt);
            },
        };
        let since = match self.heights.get(&orig) {
            Some(h) => h,
            None => 0,
        };
        if since == 0 {
            return Err(VaultError::NotStaked);
        }
        let period = height.saturating_sub(since);
        let previous = match self.staked_blocks.get(&orig) {
            Some(b) => b,
            None => 0,
        };
        let blocks = match previous.checked_add(period) {
            Some(b) => b,
            None => {
                return Err(VaultError::Overflow);
            },
        };
        if self.total_unstaked == u128::MAX {
            return Err(VaultError::Overflow);
        }
        self.staked_blocks.set(&orig, blocks);
        self.heights.set(&orig, 0);
        self.bindings.set(&t.id, None);
        self.total_unstaked = self.total_unstaked + 1;
        Ok(Transfer { id: orig, value: 1 })
    }

    fn height_of(&self, id: &AssetId) -> (r: u128)
        requires
            self.wf(),
        ensures
            r == or_zero(self.heights(), *id),
    {
        match self.heights.get(id) {
            Some(h) => h,
            None => 0,
        }
    }

    /// The display name.
    pub fn get_name(&self) -> (r: &'static str)
        ensures
            r@ == "🖨️ Boop Quantum Vault"@,
    {
        "🖨️ Boop Quantum Vault"
    }

    /// The display symbol.
    pub fn get_symbol(&self) -> (r: &'static str)
        ensures
            r@ == "Beep Boop Orbiting"@,
    {
        "Beep Boop Orbiting"
    }

    /// One byte: 1 where `id` belongs to the collection and is not staked, else 0.
    pub fn get_stake_eligibility(&self, id: &AssetId) -> (r: Vec<u8>)
        requires
            self.wf(),
        ensures
            r@ == seq![if self.eligible(*id) && or_zero(self.heights(), *id) == 0 { 1u8 } else { 0u8 }],
    {
        let ok = self.verify_id_collection(id) && self.height_of(id) == 0;
        let r = vec![if ok { 1u8 } else { 0u8 }];
        assert(r@ =~= seq![if ok { 1u8 } else { 0u8 }]);
        r
    }

    /// The height at which `id` was staked, 16 bytes little-endian.
    pub fn get_staked_height(&self, id: &AssetId) -> (r: Result<Vec<u8>, VaultError>)
        requires
            self.wf(),
        ensures
            !self.eligible(*id) ==> r == Err::<Vec<u8>, VaultError>(VaultError::NotEligible),
            self.eligible(*id) && or_zero(self.heights(), *id) == 0 ==> r == Err::<Vec<u8>, VaultError>(VaultError::NotStaked),
            self.eligible(*id) && or_zero(self.heights(), *id) != 0 ==> (r matches Ok(b) && b@ == spec_u128_to_le_bytes(or_zero(self.heights(), *id))),
    {
        if !self.verify_id_collection(id) {
            return Err(VaultError::NotEligible);
        }
        let h = self.height_of(id);
        if h == 0 {
            return Err(VaultError::NotStaked);
        }
        Ok(u128_to_le_bytes(h))
    }

    /// Blocks `id` has been staked over its closed periods, 16 bytes little-endian.
    pub fn get_total_staked_blocks(&self, id: &AssetId) -> (r: Result<Vec<u8>, VaultError>)
        requires
            self.wf(),
        ensures
            !self.eligible(*id) ==> r == Err::<Vec<u8>, VaultError>(VaultError::NotEligible),
            self.eligible(*id) ==> (r matches Ok(b) && b@ == spec_u128_to_le_bytes(or_zero(self.staked_blocks(), *id))),
    {
        if !self.verify_id_collection(id) {
            return Err(VaultError::NotEligible);
        }
        let b = match self.staked_blocks.get(id) {
            Some(b) => b,
            None => 0,
        };
        Ok(u128_to_le_bytes(b))
    }

    /// The original bound to `receipt`.
    pub fn get_staked_orbital_id_by_lp_id(&self, receipt: &AssetId) -> (r: Result<AssetId, VaultError>)
        requires
            self.wf(),
        ensures
            r == match bound_in(self.bindings(), *receipt) {
                Some(o) => Ok::<AssetId, VaultError>(o),
                None => Err::<AssetId, VaultError>(VaultError::UnboundReceipt),
            },
    {
        match self.bindings.get(receipt) {
            Some(Some(o)) => Ok(o),
            _ => Err(VaultError::UnboundReceipt),
        }
    }

    /// The original bound to `receipt`, as `"{block}:{tx}"`.
    pub fn get_staked_by_lp(&self, receipt: &AssetId) -> (r: Result<Vec<u8>, VaultError>)
        requires
            self.wf(),
        ensures
            match bound_in(self.bindings(), *receipt) {
                Some(o) => r matches Ok(b) && b@ == id_text(o),
                None => r == Err::<Vec<u8>, VaultError>(VaultError::NotFound),
            },
    {
        match self.get_staked_orbital_id_by_lp_id(receipt) {
            Ok(o) => Ok(format_id(&o)),
            Err(_) => Err(VaultError::NotFound),
        }
    }

    /// Stakes ever made, 16 bytes little-endian.
    pub fn get_total_staked(&self) -> (r: Vec<u8>)
        ensures
            r@ == spec_u128_to_le_bytes(self.total_staked()),
    {
        u128_to_le_bytes(self.total_staked)
    }

    /// Unstakes ever made.
    pub fn get_total_unstaked(&self) -> (r: u128)
        ensures
            r == self.total_unstaked(),
    {
        self.total_unstaked
    }

    /// Receipts minted so far.
    pub fn get_total_supply(&self) -> (r: u128)
        ensures
            r == self.minted_count(),
    {
        self.instances_count
    }

    /// Receipts minted so far.
    pub fn get_orbital_minted(&self) -> (r: u128)
        ensures
            r == self.minted_count(),
    {
        self.instances_count
    }

    /// How many receipts may ever be minted.
    pub fn get_orbital_count(&self) -> (r: u128)
        ensures
            r == MAX_MINTS,
    {
        MAX_MINTS
    }

    /// How many receipts may ever be minted.
    pub fn max_mints(&self) -> (r: u128)
        ensures
            r == MAX_MINTS,
    {
        MAX_MINTS
    }

    /// Receipts minted so far.
    pub fn instances_count(&self) -> (r: u128)
        ensures
            r == self.minted_count(),
    {
        self.instances_count
    }

    /// Overwrites the count of minted receipts.
    pub fn set_instances_count(&mut self, count: u128)
        requires
            old(self).wf(),
        ensures
            final(self).wf(),
            final(self).minted_count() == count,
            final(self).members() == old(self).members(),
            final(self).heights() == old(self).heights(),
            final(self).staked_blocks() == old(self).staked_blocks(),
            final(self).bindings() == old(self).bindings(),
            final(self).registry() == old(self).registry(),
            final(self).total_staked() == old(self).total_staked(),
            final(self).total_unstaked() == old(self).total_unstaked(),
    {
        self.instances_count = count;
    }

    /// The receipt registered for a mint index, where one was minted.
    pub fn receipt_for_index(&self, index: u128) -> (r: Option<AssetId>)
        ensures
            r == (if self.registry().contains_key(index) { Some(self.registry()[index]) } else { None::<AssetId> }),
    {
        match self.instances.get(&index) {
            Some(a) => Some(*a),
            None => None,
        }
    }
}

/// The side of the square canvas that receipt images are drawn on.
pub const CANVAS_SIZE: u32 = 420;

/// Where an overlay of side `size` starts so that it sits centred on the
/// canvas; `None` where it does not fit.
pub fn overlay_offset(size: u32) -> (r: Option<u32>)
    ensures
        size > CANVAS_SIZE ==> r is None,
        size <= CANVAS_SIZE ==> r == Some(((CANVAS_SIZE - size) / 2) as u32),
{
    if size > CANVAS_SIZE {
        None
    } else {
        Some((CANVAS_SIZE - size) / 2)
    }
}

/// Unstaking a receipt adds exactly the blocks since its original was
/// staked, never fewer than zero, to that original's record and clears its
/// height; every other record is left alone, and staking changes no record.
/// So recorded blocks never decrease.
pub proof fn lemma_receipt_unstake_adds_period(pre: Staking, post: Staking, orig: AssetId, height: u128)
    requires
        or_zero(pre.heights(), orig) != 0,
        or_zero(pre.staked_blocks(), orig) + period(height, or_zero(pre.heights(), orig)) <= u128::MAX,
        post.staked_blocks() == pre.staked_blocks().insert(
            orig,
            (or_zero(pre.staked_blocks(), orig) + period(height, or_zero(pre.heights(), orig))) as u128,
        ),
        post.heights() == pre.heights().insert(orig, 0),
    ensures
        or_zero(post.staked_blocks(), orig) == or_zero(pre.staked_blocks(), orig) + period(height, or_zero(pre.heights(), orig)),
        period(height, or_zero(pre.heights(), orig)) >= 0,
        or_zero(post.heights(), orig) == 0,
        forall|x: AssetId| or_zero(pre.staked_blocks(), x) <= #[trigger] or_zero(post.staked_blocks(), x),
{
    assert forall|x: AssetId| or_zero(pre.staked_blocks(), x) <= #[trigger] or_zero(post.staked_blocks(), x) by {
        if x != orig {
            assert(or_zero(post.staked_blocks(), x) == or_zero(pre.staked_blocks(), x));
        }
    }
}

} // verus!
