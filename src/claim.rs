//! The reward claim ledger and the swap pool's fungible side.
//!
//! Rewards are read from the stake ledger's answers; each asset may claim at
//! most `SWAP_RATE` over its lifetime, and issued supply never passes
//! `MAX_SUPPLY`.

use vstd::prelude::*;
use vstd::bytes::{spec_u128_from_le_bytes, u128_from_le_bytes};
use crate::error::VaultError;
use crate::ids::{alkane_id_to_bytes, id_bytes, AssetId, Transfer};
use crate::pool::{dispensed, SwapPool};
use crate::table::IdTable;
use crate::text::{format_id, id_at_split, id_text, id_text_split, parse_id};

verus! {

/// Fungible units per custodied asset; also each asset's lifetime claim cap.
pub const SWAP_RATE: u128 = 25000;

/// The most fungible units that may ever be outstanding.
pub const MAX_SUPPLY: u128 = 250000000;

/// A numeric answer: exactly 16 bytes, little-endian; anything else is unavailable.
pub open spec fn answer_value(resp: Option<Vec<u8>>) -> Option<u128> {
    match resp {
        Some(b) => if b@.len() == 16 { Some(spec_u128_from_le_bytes(b@)) } else { None },
        None => None,
    }
}

/// Reads a numeric answer of the stake ledger.
pub fn decode_u128_response(resp: &Option<Vec<u8>>) -> (r: Option<u128>)
    ensures
        r == answer_value(*resp),
{
    match resp {
        Some(b) => {
            if b.len() == 16 {
                Some(u128_from_le_bytes(b.as_slice()))
            } else {
                None
            }
        },
        None => None,
    }
}

/// Blocks of the open staking period: none when the height is unknown or zero,
/// or lies ahead of the current height.
pub open spec fn open_period(staked_height: Option<u128>, current_height: u128) -> int {
    match staked_height {
        Some(h) => if h != 0 && current_height >= h { current_height - h } else { 0 },
        None => 0,
    }
}

/// Everything an asset has earned: closed periods plus the open one.
pub open spec fn total_rewards(
    staked_blocks: Option<u128>,
    staked_height: Option<u128>,
    current_height: u128,
) -> int {
    (match staked_blocks {
        Some(b) => b as int,
        None => 0,
    }) + open_period(staked_height, current_height)
}

/// What an asset may still claim: the unclaimed part of its rewards, bounded
/// by what is left of its lifetime cap.
pub open spec fn available(total: u128, claimed: u128) -> int {
    let earned = if total >= claimed { total - claimed } else { 0 };
    let left = if SWAP_RATE >= claimed { SWAP_RATE - claimed } else { 0 };
    if earned <= left { earned } else { left }
}

/// The amount claimed so far for `id` in `m`.
pub open spec fn claimed_in(m: Map<AssetId, u128>, id: AssetId) -> u128 {
    if m.contains_key(id) { m[id] } else { 0 }
}

/// A batch of claims, one `(asset, total rewards)` pair after another: the
/// claimed amounts afterwards and the sum issued, or `None` where some asset
/// has nothing available, having claimed all it earned or its lifetime cap.
pub open spec fn claim_batch(m: Map<AssetId, u128>, items: Seq<(AssetId, u128)>) -> Option<(Map<AssetId, u128>, int)>
    decreases items.len(),
{
    if items.len() == 0 {
        Some((m, 0))
    } else {
        match claim_batch(m, items.drop_last()) {
            None => None,
            Some((m1, t)) => {
                let id = items.last().0;
                let total = items.last().1;
                let c = claimed_in(m1, id);
                let a = available(total, c);
                if a <= 0 {
                    None
                } else {
                    Some((m1.insert(id, (c + a) as u128), t + a))
                }
            },
        }
    }
}

/// Sum of the values of a run of transfers.
pub open spec fn value_sum(s: Seq<Transfer>) -> int
    decreases s.len(),
{
    if s.len() == 0 {
        0
    } else {
        value_sum(s.drop_last()) + s.last().value
    }
}

/// Each asset as a transfer of one unit.
pub open spec fn unit_transfers(ids: Seq<AssetId>) -> Seq<Transfer> {
    ids.map_values(|a: AssetId| Transfer { id: a, value: 1 })
}

/// An asset is eligible when the stake ledger says so directly (first byte 1),
/// or else when it reports the asset as a receipt with a bound original.
pub open spec fn eligible_by_answers(eligibility: Option<Vec<u8>>, by_receipt: Option<Vec<u8>>) -> bool {
    direct_by_answer(eligibility) || match by_receipt {
        Some(b) => b@.len() > 0,
        None => false,
    }
}

/// The eligibility answer says the asset is a member.
pub open spec fn direct_by_answer(eligibility: Option<Vec<u8>>) -> bool {
    match eligibility {
        Some(b) => b@.len() > 0 && b@[0] == 1,
        None => false,
    }
}

/// Whether the eligibility answer alone makes the asset a member; only
/// where it does not is the receipt answer needed.
pub fn is_direct(eligibility: &Option<Vec<u8>>) -> (r: bool)
    ensures
        r == direct_by_answer(*eligibility),
{
    match eligibility {
        Some(b) => b.len() > 0 && b[0] == 1,
        None => false,
    }
}

/// The original asset behind `id`, by the stake ledger's answers.
pub open spec fn resolved(id: AssetId, eligibility: Option<Vec<u8>>, by_receipt: Option<Vec<u8>>) -> Result<AssetId, VaultError> {
    if direct_by_answer(eligibility) {
        Ok(id)
    } else {
        match by_receipt {
            Some(b) => if exists|k: int| id_text_split(b@, k) {
                Ok(id_at_split(b@, choose|k: int| id_text_split(b@, k)))
            } else {
                Err(VaultError::MalformedResponse)
            },
            None => Err(VaultError::MalformedResponse),
        }
    }
}

/// The original asset behind `id`: `id` itself where it is directly eligible,
/// else the `"{block}:{tx}"` that the stake ledger gave for it as a receipt.
pub fn resolve_alkane_id(id: &AssetId, eligibility: &Option<Vec<u8>>, by_receipt: &Option<Vec<u8>>) -> (r: Result<AssetId, VaultError>)
    ensures
        r == resolved(*id, *eligibility, *by_receipt),
        direct_by_answer(*eligibility) ==> r == Ok::<AssetId, VaultError>(*id),
        !direct_by_answer(*eligibility) ==> match *by_receipt {
            Some(b) => {
                &&& forall|k: int| id_text_split(b@, k) ==> r == Ok::<AssetId, VaultError>(id_at_split(b@, k))
                &&& (forall|k: int| !id_text_split(b@, k)) ==> r == Err::<AssetId, VaultError>(VaultError::MalformedResponse)
            },
            None => r == Err::<AssetId, VaultError>(VaultError::MalformedResponse),
        },
{
    if is_direct(eligibility) {
        return Ok(*id);
    }
    match by_receipt {
        Some(b) => match parse_id(b) {
            Some(orig) => Ok(orig),
            None => Err(VaultError::MalformedResponse),
        },
        None => Err(VaultError::MalformedResponse),
    }
}

/// The stake ledger's answers on one asset offered for a claim.
pub struct RewardAnswers {
    pub id: AssetId,
    /// Its eligibility answer.
    pub eligibility: Option<Vec<u8>>,
    /// Its answer as a receipt: the bound original as text.
    pub by_receipt: Option<Vec<u8>>,
    /// The original's closed staked blocks.
    pub staked_blocks: Option<Vec<u8>>,
    /// The original's staked height.
    pub staked_height: Option<Vec<u8>>,
}

/// The `(original, total rewards)` pair that one asset's answers give.
pub open spec fn answered(a: RewardAnswers, height: u128) -> Result<(AssetId, u128), VaultError> {
    match resolved(a.id, a.eligibility, a.by_receipt) {
        Err(e) => Err(e),
        Ok(o) => {
            let t = total_rewards(answer_value(a.staked_blocks), answer_value(a.staked_height), height);
            if t > u128::MAX { Err(VaultError::Overflow) } else { Ok((o, t as u128)) }
        },
    }
}

/// The pairs of a run of answers, or the first refusal among them.
pub open spec fn answered_all(s: Seq<RewardAnswers>, height: u128) -> Result<Seq<(AssetId, u128)>, VaultError>
    decreases s.len(),
{
    if s.len() == 0 {
        Ok(Seq::empty())
    } else {
        match answered_all(s.drop_last(), height) {
            Err(e) => Err(e),
            Ok(p) => match answered(s.last(), height) {
                Err(e) => Err(e),
                Ok(x) => Ok(p.push(x)),
            },
        }
    }
}

proof fn lemma_answered_fails_on_prefix(s: Seq<RewardAnswers>, height: u128, j: int)
    requires
        0 <= j <= s.len(),
        answered_all(s.subrange(0, j), height) is Err,
    ensures
        answered_all(s, height) == answered_all(s.subrange(0, j), height),
    decreases s.len() - j,
{
    if j < s.len() {
        assert(s.subrange(0, j + 1).drop_last() =~= s.subrange(0, j));
        lemma_answered_fails_on_prefix(s, height, j + 1);
    } else {
        assert(s.subrange(0, j) =~= s);
    }
}

/// Turns each asset's answers into its original and total rewards at
/// `height`, stopping at the first that cannot be read.
pub fn rewards_from_answers(answers: &Vec<RewardAnswers>, height: u128) -> (r: Result<Vec<(AssetId, u128)>, VaultError>)
    ensures
        match answered_all(answers@, height) {
            Err(e) => r == Err::<Vec<(AssetId, u128)>, VaultError>(e),
            Ok(p) => r matches Ok(v) && v@ == p,
        },
{
    let mut out: Vec<(AssetId, u128)> = Vec::new();
    let mut i: usize = 0;
    proof {
        assert(answers@.subrange(0, 0) =~= Seq::<RewardAnswers>::empty());
    }
    while i < answers.len()
        invariant
            i <= answers@.len(),
            answered_all(answers@.subrange(0, i as int), height) == Ok::<Seq<(AssetId, u128)>, VaultError>(out@),
        decreases answers@.len() - i,
    {
        proof {
            assert(answers@.subrange(0, i as int + 1).drop_last() =~= answers@.subrange(0, i as int));
        }
        let a = &answers[i];
        let original = match resolve_alkane_id(&a.id, &a.eligibility, &a.by_receipt) {
            Ok(o) => o,
            Err(e) => {
                proof {
                    lemma_answered_fails_on_prefix(answers@, height, i as int + 1);
                }
                return Err(e);
            },
        };
        let total = match calculate_total_rewards(&a.staked_blocks, &a.staked_height, height) {
            Ok(t) => t,
            Err(e) => {
                proof {
                    lemma_answered_fails_on_prefix(answers@, height, i as int + 1);
                }
                return Err(e);
            },
        };
        out.push((original, total));
        i = i + 1;
    }
    proof {
        assert(answers@.subrange(0, answers@.len() as int) =~= answers@);
    }
    Ok(out)
}

/// Rewards of an asset from the stake ledger's answers for its closed staked
/// blocks and its staked height; an unavailable answer counts as zero.
pub fn calculate_total_rewards(
    staked_blocks: &Option<Vec<u8>>,
    staked_height: &Option<Vec<u8>>,
    current_height: u128,
) -> (r: Result<u128, VaultError>)
    ensures
        match r {
            Ok(v) => v == total_rewards(answer_value(*staked_blocks), answer_value(*staked_height), current_height),
            Err(e) => e == VaultError::Overflow && total_rewards(
                answer_value(*staked_blocks),
                answer_value(*staked_height),
                current_height,
            ) > u128::MAX,
        },
{
    let blocks = match decode_u128_response(staked_blocks) {
        Some(b) => b,
        None => 0,
    };
    let period = match decode_u128_response(staked_height) {
        Some(h) => if h != 0 && current_height >= h { current_height - h } else { 0 },
        None => 0,
    };
    match blocks.checked_add(period) {
        Some(t) => Ok(t),
        None => Err(VaultError::Overflow),
    }
}

/// One claim never takes an asset past what it earned or past its lifetime
/// cap, and never lowers what it has claimed.
pub proof fn lemma_claim_step(total: u128, claimed: u128)
    requires
        claimed <= SWAP_RATE,
        total > claimed,
    ensures
        claimed <= claimed + available(total, claimed),
        claimed + available(total, claimed) <= total,
        claimed + available(total, claimed) <= SWAP_RATE,
{
}

/// A batch that fails on a prefix fails as a whole.
pub proof fn lemma_batch_fails_on_prefix(m: Map<AssetId, u128>, items: Seq<(AssetId, u128)>, j: int)
    requires
        0 <= j <= items.len(),
        claim_batch(m, items.subrange(0, j)) is None,
    ensures
        claim_batch(m, items) is None,
    decreases items.len() - j,
{
    if j < items.len() {
        assert(items.subrange(0, j + 1).drop_last() =~= items.subrange(0, j));
        lemma_batch_fails_on_prefix(m, items, j + 1);
    } else {
        assert(items.subrange(0, j) =~= items);
    }
}

/// Across a successful batch, claimed amounts only grow, never pass the
/// lifetime cap, and the sum issued is what they grew by, at most the cap
/// for each claim in the batch.
pub proof fn lemma_claim_batch_bounds(m: Map<AssetId, u128>, items: Seq<(AssetId, u128)>)
    requires
        forall|id: AssetId| claimed_in(m, id) <= SWAP_RATE,
    ensures
        claim_batch(m, items) matches Some((m2, t)) ==> {
            &&& forall|id: AssetId| claimed_in(m, id) <= #[trigger] claimed_in(m2, id) <= SWAP_RATE
            &&& 0 <= t <= items.len() * SWAP_RATE
        },
    decreases items.len(),
{
    if items.len() > 0 {
        lemma_claim_batch_bounds(m, items.drop_last());
        if let Some((m1, t1)) = claim_batch(m, items.drop_last()) {
            let id = items.last().0;
            let total = items.last().1;
            let c = claimed_in(m1, id);
            let a = available(total, c);
            if a > 0 {
                lemma_claim_step(total, c);
                let m2 = m1.insert(id, (c + a) as u128);
                assert forall|q: AssetId| claimed_in(m, q) <= #[trigger] claimed_in(m2, q) <= SWAP_RATE by {
                    assert(claimed_in(m, q) <= claimed_in(m1, q));
                }
            }
            assert((items.len() - 1) * SWAP_RATE + SWAP_RATE == items.len() * SWAP_RATE) by (nonlinear_arith);
        }
    }
}

/// The assets of a run of transfers, in order.
pub open spec fn transfer_ids(s: Seq<Transfer>) -> Seq<AssetId> {
    s.map_values(|t: Transfer| t.id)
}

/// What a swap hands back beyond whole assets: the remainder, if any.
pub open spec fn change_part(myself: AssetId, sum: int) -> Seq<Transfer> {
    if sum % (SWAP_RATE as int) > 0 {
        seq![Transfer { id: myself, value: (sum % (SWAP_RATE as int)) as u128 }]
    } else {
        Seq::empty()
    }
}

proof fn lemma_value_sum_prefix(s: Seq<Transfer>, i: int)
    requires
        0 <= i <= s.len(),
    ensures
        value_sum(s.subrange(0, i)) <= value_sum(s),
    decreases s.len() - i,
{
    if i < s.len() {
        lemma_value_sum_prefix(s, i + 1);
        assert(s.subrange(0, i + 1).drop_last() =~= s.subrange(0, i));
    } else {
        assert(s.subrange(0, i) =~= s);
    }
}

fn ids_of(s: &Vec<Transfer>) -> (r: Vec<AssetId>)
    ensures
        r@ == transfer_ids(s@),
{
    let mut r: Vec<AssetId> = Vec::new();
    let mut i: usize = 0;
    while i < s.len()
        invariant
            i <= s@.len(),
            r@ == transfer_ids(s@.subrange(0, i as int)),
        decreases s@.len() - i,
    {
        r.push(s[i].id);
        i = i + 1;
        proof {
            assert(r@ =~= transfer_ids(s@.subrange(0, i as int)));
        }
    }
    proof {
        assert(s@.subrange(0, s@.len() as int) =~= s@);
    }
    r
}

fn all_true(flags: &Vec<bool>) -> (r: bool)
    ensures
        r == (forall|j: int| 0 <= j < flags@.len() ==> #[trigger] flags@[j]),
{
    let mut i: usize = 0;
    while i < flags.len()
        invariant
            i <= flags@.len(),
            forall|j: int| 0 <= j < i ==> #[trigger] flags@[j],
        decreases flags@.len() - i,
    {
        if !flags[i] {
            return false;
        }
        i = i + 1;
    }
    true
}

/// The outcome of claiming a batch of `(original, total rewards)` pairs:
/// refused as a whole, or every pair claimed and the sum issued.
pub open spec fn claim_outcome(pre: Claim, post: Claim, items: Seq<(AssetId, u128)>, r: Result<u128, VaultError>) -> bool {
    &&& items.len() == 0 ==> r == Err::<u128, VaultError>(VaultError::NoAssets)
    &&& items.len() > 0 ==> match claim_batch(pre.claimed_map(), items) {
        None => r == Err::<u128, VaultError>(VaultError::NoRewards),
        Some((m, t)) => if pre.supply() + t > MAX_SUPPLY {
            r == Err::<u128, VaultError>(VaultError::SupplyCapExceeded)
        } else if pre.claimed_total() + t > u128::MAX {
            r == Err::<u128, VaultError>(VaultError::Overflow)
        } else {
            &&& r == Ok::<u128, VaultError>(t as u128)
            &&& post.claimed_map() == m
            &&& post.supply() == pre.supply() + t
            &&& post.claimed_total() == pre.claimed_total() + t
            &&& post.myself() == pre.myself()
            &&& post.pool() == pre.pool()
        },
    }
}

/// The claim and swap engine: claimed amounts per asset, issued supply of the
/// fungible token `myself`, and the pool of custodied assets.
#[derive(Clone)]
pub struct Claim {
    myself: AssetId,
    claimed: IdTable<u128>,
    total_claimed: u128,
    supply: u128,
    pool: SwapPool,
}

impl Claim {
    /// The fungible token that this engine issues.
    pub closed spec fn myself(&self) -> AssetId {
        self.myself
    }

    /// Amounts claimed so far, by original asset.
    pub closed spec fn claimed_map(&self) -> Map<AssetId, u128> {
        self.claimed@
    }

    /// Fungible units currently issued.
    pub closed spec fn supply(&self) -> u128 {
        self.supply
    }

    /// Fungible units ever issued by claims.
    pub closed spec fn claimed_total(&self) -> u128 {
        self.total_claimed
    }

    /// The custodial pool.
    pub closed spec fn pool(&self) -> SwapPool {
        self.pool
    }

    /// Supply within its cap, each claimed amount within its lifetime cap,
    /// and a consistent pool.
    pub closed spec fn wf(&self) -> bool {
        &&& self.claimed.wf()
        &&& self.pool.wf()
        &&& self.supply <= MAX_SUPPLY
        &&& forall|id: AssetId| claimed_in(self.claimed@, id) <= SWAP_RATE
    }

    /// A fresh engine issuing the token `myself`: nothing claimed, issued or held.
    pub fn initialize(myself: AssetId) -> (r: Self)
        ensures
            r.wf(),
            r.myself() == myself,
            r.claimed_map() == Map::<AssetId, u128>::empty(),
            r.supply() == 0,
            r.claimed_total() == 0,
            r.pool().queue() == Seq::<AssetId>::empty(),
            r.pool().slots() == Seq::<Option<AssetId>>::empty(),
            r.pool().retrieve_index() == 0,
    {
        Claim { myself, claimed: IdTable::new(), total_claimed: 0, supply: 0, pool: SwapPool::new() }
    }

    /// The display name.
    pub fn get_name(&self) -> (r: &'static str)
        ensures
            r@ == "BB"@,
    {
        "BB"
    }

    /// The display symbol.
    pub fn get_symbol(&self) -> (r: &'static str)
        ensures
            r@ == "🤖"@,
    {
        "🤖"
    }

    /// Membership by the stake ledger's answers on an asset: its eligibility
    /// answer and its answer as a receipt. Direct membership is tried first.
    pub fn verify_id_collection(&self, eligibility: &Option<Vec<u8>>, by_receipt: &Option<Vec<u8>>) -> (r: bool)
        ensures
            r == eligible_by_answers(*eligibility, *by_receipt),
    {
        if is_direct(eligibility) {
            return true;
        }
        match by_receipt {
            Some(b) => b.len() > 0,
            None => false,
        }
    }

    /// The 32-byte key of an asset.
    pub fn alkane_id_to_bytes(&self, id: &AssetId) -> (r: Vec<u8>)
        ensures
            r@ == id_bytes(*id),
    {
        alkane_id_to_bytes(id)
    }

    /// The amount claimed so far for the original asset `id`.
    pub fn get_total_claimed_by_alkane_id(&self, id: &AssetId) -> (r: u128)
        requires
            self.wf(),
        ensures
            r == claimed_in(self.claimed_map(), *id),
    {
        match self.claimed.get(id) {
            Some(c) => c,
            None => 0,
        }
    }

    /// What the original asset `id`, with the given total rewards, may still claim.
    pub fn get_total_available_to_claim(&self, id: &AssetId, total_rewards: u128) -> (r: u128)
        requires
            self.wf(),
        ensures
            r == available(total_rewards, claimed_in(self.claimed_map(), *id)),
    {
        let claimed = self.get_total_claimed_by_alkane_id(id);
        let earned = total_rewards.saturating_sub(claimed);
        let left = SWAP_RATE.saturating_sub(claimed);
        if earned <= left { earned } else { left }
    }

    /// Fungible units ever issued by claims.
    pub fn get_total_claimed(&self) -> (r: u128)
        ensures
            r == self.claimed_total(),
    {
        self.total_claimed
    }

    /// The stake ledger's count of stakes, from its answer, less what has
    /// been claimed; an unavailable answer counts as zero.
    pub fn get_total_available(&self, total_staked: &Option<Vec<u8>>) -> (r: u128)
        ensures
            r == (match answer_value(*total_staked) {
                Some(v) => if v >= self.claimed_total() { v - self.claimed_total() } else { 0 },
                None => 0,
            }),
    {
        let staked = match decode_u128_response(total_staked) {
            Some(v) => v,
            None => 0,
        };
        staked.saturating_sub(self.total_claimed)
    }

    /// Fungible units currently issued.
    pub fn get_minted(&self) -> (r: u128)
        ensures
            r == self.supply(),
    {
        self.supply
    }

    /// The supply cap.
    pub fn get_max_supply(&self) -> (r: u128)
        ensures
            r == MAX_SUPPLY,
    {
        MAX_SUPPLY
    }

    /// The supply cap, which is also the token's total supply.
    pub fn get_total_supply(&self) -> (r: u128)
        ensures
            r == MAX_SUPPLY,
    {
        MAX_SUPPLY
    }

    /// Fungible units per custodied asset.
    pub fn get_swap_rate(&self) -> (r: u128)
        ensures
            r == SWAP_RATE,
    {
        SWAP_RATE
    }

    /// Fungible units per custodied asset.
    pub fn get_value_per_mint(&self) -> (r: u128)
        ensures
            r == SWAP_RATE,
    {
        SWAP_RATE
    }

    /// The count of custodied assets.
    pub fn get_beep_boop_supply(&self) -> (r: u128)
        requires
            self.wf(),
        ensures
            r == self.pool().queue().len(),
    {
        self.pool.balance()
    }

    /// The next slot to dispense from.
    pub fn get_next_swap_index(&self) -> (r: u128)
        ensures
            r == self.pool().retrieve_index(),
    {
        self.pool.next_swap_index()
    }

    /// The asset held in slot `index`, as `"{block}:{tx}"`.
    pub fn get_stored_beep_boop_alkane_id(&self, index: u128) -> (r: Result<Vec<u8>, VaultError>)
        ensures
            match (if index < self.pool().slots().len() { self.pool().slots()[index as int] } else { None::<AssetId> }) {
                Some(a) => r matches Ok(b) && b@ == id_text(a),
                None => r == Err::<Vec<u8>, VaultError>(VaultError::NotFound),
            },
    {
        match self.pool.stored_at(index) {
            Some(a) => Ok(format_id(&a)),
            None => Err(VaultError::NotFound),
        }
    }

    /// The issued token's identifier, as `"{block}:{tx}"`.
    pub fn get_collection_identifier(&self) -> (r: Vec<u8>)
        ensures
            r@ == id_text(self.myself()),
    {
        format_id(&self.myself)
    }

    /// Claims the rewards of a batch. Each item is an original asset and its
    /// total rewards. Either every item claims and the sum is issued, or the
    /// call is rejected and nothing changes.
    pub fn claim_rewards(&mut self, claims: &Vec<(AssetId, u128)>) -> (r: Result<u128, VaultError>)
        requires
            old(self).wf(),
        ensures
            final(self).wf(),
            r is Err ==> *final(self) == *old(self),
            claim_outcome(*old(self), *final(self), claims@, r),
    {
        if claims.len() == 0 {
            return Err(VaultError::NoAssets);
        }
        let ghost m0 = self.claimed@;
        let mut scratch = self.claimed.duplicate();
        let mut total: u128 = 0;
        let mut i: usize = 0;
        proof {
            assert(claims@.subrange(0, 0) =~= Seq::<(AssetId, u128)>::empty());
        }
        while i < claims.len()
            invariant
                self.wf(),
                m0 == self.claimed@,
                scratch.wf(),
                i <= claims@.len(),
                claim_batch(m0, claims@.subrange(0, i as int)) == Some((scratch@, total as int)),
                total <= i * SWAP_RATE,
                forall|id: AssetId| claimed_in(scratch@, id) <= SWAP_RATE,
            decreases claims@.len() - i,
        {
            let (id, rewards) = claims[i];
            proof {
                assert(claims@.subrange(0, i as int + 1).drop_last() =~= claims@.subrange(0, i as int));
                assert(claims@.subrange(0, i as int + 1).last() == claims@[i as int]);
            }
            let previously = match scratch.get(&id) {
                Some(c) => c,
                None => 0,
            };
            let earned = rewards.saturating_sub(previously);
            let left = SWAP_RATE.saturating_sub(previously);
            let amount = if earned <= left { earned } else { left };
            if amount == 0 {
                proof {
                    lemma_batch_fails_on_prefix(m0, claims@, i as int + 1);
                }
                return Err(VaultError::NoRewards);
            }
            let ghost prev = scratch@;
            scratch.set(&id, previously + amount);
            proof {
                assert forall|q: AssetId| claimed_in(scratch@, q) <= SWAP_RATE by {
                    if q != id {
                        assert(claimed_in(scratch@, q) == claimed_in(prev, q));
                    }
                }
                assert(total + amount <= (i + 1) * SWAP_RATE) by (nonlinear_arith)
                    requires total <= i * SWAP_RATE, amount <= SWAP_RATE;
            }
            total = total + amount;
            i = i + 1;
        }
        proof {
            assert(claims@.subrange(0, claims@.len() as int) =~= claims@);
        }
        if total > MAX_SUPPLY - self.supply {
            return Err(VaultError::SupplyCapExceeded);
        }
        let new_total = match self.total_claimed.checked_add(total) {
            Some(v) => v,
            None => {
                return Err(VaultError::Overflow);
            },
        };
        self.claimed = scratch;
        self.total_claimed = new_total;
        self.supply = self.supply + total;
        Ok(total)
    }

    /// Claims for the attached assets from the stake ledger's answers on
    /// each: every asset is resolved to its original and its rewards read at
    /// `height`, then the batch is claimed as by `claim_rewards`.
    pub fn claim_with_answers(&mut self, answers: &Vec<RewardAnswers>, height: u128) -> (r: Result<u128, VaultError>)
        requires
            old(self).wf(),
        ensures
            final(self).wf(),
            r is Err ==> *final(self) == *old(self),
            match answered_all(answers@, height) {
                Err(e) => r == Err::<u128, VaultError>(e),
                Ok(items) => claim_outcome(*old(self), *final(self), items, r),
            },
    {
        let items = match rewards_from_answers(answers, height) {
            Ok(v) => v,
            Err(e) => {
                return Err(e);
            },
        };
        self.claim_rewards(&items)
    }

    /// Swaps the fungible token for custodied assets: each `SWAP_RATE` units
    /// buy the next asset in deposit order, the units used are burned, and the
    /// remainder comes back as change.
    pub fn swap_b_b_to_beep_boop(&mut self, incoming: &Vec<Transfer>) -> (r: Result<Vec<Transfer>, VaultError>)
        requires
            old(self).wf(),
        ensures
            final(self).wf(),
            r is Err ==> *final(self) == *old(self),
            (exists|j: int| 0 <= j < incoming@.len() && #[trigger] incoming@[j].id != old(self).myself())
                ==> r == Err::<Vec<Transfer>, VaultError>(VaultError::ForeignToken),
            (forall|j: int| 0 <= j < incoming@.len() ==> #[trigger] incoming@[j].id == old(self).myself())
                ==> {
                let sum = value_sum(incoming@);
                let units = sum / (SWAP_RATE as int);
                if sum > u128::MAX {
                    r == Err::<Vec<Transfer>, VaultError>(VaultError::Overflow)
                } else if sum == 0 {
                    r == Err::<Vec<Transfer>, VaultError>(VaultError::NothingToSwap)
                } else if units == 0 {
                    r == Err::<Vec<Transfer>, VaultError>(VaultError::InsufficientInput)
                } else if units > old(self).pool().queue().len() {
                    r == Err::<Vec<Transfer>, VaultError>(VaultError::InsufficientPool)
                } else if units * SWAP_RATE > old(self).supply() {
                    r == Err::<Vec<Transfer>, VaultError>(VaultError::SupplyUnderflow)
                } else {
                    &&& r matches Ok(out) && out@ == unit_transfers(old(self).pool().queue().take(units))
                        + change_part(old(self).myself(), sum)
                    &&& dispensed(old(self).pool(), final(self).pool(), units)
                    &&& final(self).supply() == old(self).supply() - units * SWAP_RATE
                    &&& final(self).claimed_map() == old(self).claimed_map()
                    &&& final(self).claimed_total() == old(self).claimed_total()
                    &&& final(self).myself() == old(self).myself()
                }
            },
    {
        let mut i: usize = 0;
        while i < incoming.len()
            invariant
                self.wf(),
                i <= incoming@.len(),
                forall|j: int| 0 <= j < i ==> #[trigger] incoming@[j].id == self.myself,
            decreases incoming@.len() - i,
        {
            if incoming[i].id != self.myself {
                return Err(VaultError::ForeignToken);
            }
            i = i + 1;
        }
        let mut sum: u128 = 0;
        let mut i: usize = 0;
        proof {
            assert(incoming@.subrange(0, 0) =~= Seq::<Transfer>::empty());
        }
        while i < incoming.len()
            invariant
                self.wf(),
                forall|j: int| 0 <= j < incoming@.len() ==> #[trigger] incoming@[j].id == self.myself,
                i <= incoming@.len(),
                sum == value_sum(incoming@.subrange(0, i as int)),
            decreases incoming@.len() - i,
        {
            proof {
                assert(incoming@.subrange(0, i as int + 1).drop_last() =~= incoming@.subrange(0, i as int));
            }
            match sum.checked_add(incoming[i].value) {
                Some(v) => {
                    sum = v;
                },
                None => {
                    proof {
                        lemma_value_sum_prefix(incoming@, i as int + 1);
                    }
                    return Err(VaultError::Overflow);
                },
            }
            i = i + 1;
        }
        proof {
            assert(incoming@.subrange(0, incoming@.len() as int) =~= incoming@);
        }
        if sum == 0 {
            return Err(VaultError::NothingToSwap);
        }
        let units = sum / SWAP_RATE;
        let change = sum % SWAP_RATE;
        if units == 0 {
            return Err(VaultError::InsufficientInput);
        }
        if self.pool.balance() < units {
            return Err(VaultError::InsufficientPool);
        }
        let used = units * SWAP_RATE;
        if used > self.supply {
            return Err(VaultError::SupplyUnderflow);
        }
        self.supply = self.supply - used;
        let ids = self.pool.dispense(units);
        let mut out: Vec<Transfer> = Vec::new();
        let mut k: usize = 0;
        while k < ids.len()
            invariant
                k <= ids@.len(),
                out@ == unit_transfers(ids@.subrange(0, k as int)),
            decreases ids@.len() - k,
        {
            out.push(Transfer { id: ids[k], value: 1 });
            k = k + 1;
            proof {
                assert(out@ =~= unit_transfers(ids@.subrange(0, k as int)));
            }
        }
        proof {
            assert(ids@.subrange(0, ids@.len() as int) =~= ids@);
        }
        if change > 0 {
            out.push(Transfer { id: self.myself, value: change });
        }
        proof {
            assert(out@ =~= unit_transfers(ids@) + change_part(self.myself, sum as int));
        }
        Ok(out)
    }

    /// Swaps eligible assets for the fungible token: all are deposited and
    /// `SWAP_RATE` units are issued for each. `eligible[j]` is the membership
    /// verdict on `incoming[j]`.
    pub fn swap_beep_boop_to_b_b(&mut self, incoming: &Vec<Transfer>, eligible: &Vec<bool>) -> (r: Result<Transfer, VaultError>)
        requires
            old(self).wf(),
            eligible@.len() == incoming@.len(),
        ensures
            final(self).wf(),
            r is Err ==> *final(self) == *old(self),
            incoming@.len() == 0 ==> r == Err::<Transfer, VaultError>(VaultError::NoAssets),
            incoming@.len() > 0 && (exists|j: int| 0 <= j < eligible@.len() && !#[trigger] eligible@[j])
                ==> r == Err::<Transfer, VaultError>(VaultError::NotEligible),
            incoming@.len() > 0 && (forall|j: int| 0 <= j < eligible@.len() ==> #[trigger] eligible@[j])
                ==> if old(self).supply() + incoming@.len() * SWAP_RATE > MAX_SUPPLY {
                r == Err::<Transfer, VaultError>(VaultError::SupplyCapExceeded)
            } else {
                &&& r == Ok::<Transfer, VaultError>(Transfer {
                    id: old(self).myself(),
                    value: (incoming@.len() * SWAP_RATE) as u128,
                })
                &&& final(self).pool().queue() == old(self).pool().queue() + transfer_ids(incoming@)
                &&& final(self).pool().slots() == old(self).pool().slots() + transfer_ids(incoming@).map_values(|a: AssetId| Some(a))
                &&& final(self).pool().retrieve_index() == old(self).pool().retrieve_index()
                &&& final(self).supply() == old(self).supply() + incoming@.len() * SWAP_RATE
                &&& final(self).claimed_map() == old(self).claimed_map()
                &&& final(self).claimed_total() == old(self).claimed_total()
                &&& final(self).myself() == old(self).myself()
            },
    {
        if incoming.len() == 0 {
            return Err(VaultError::NoAssets);
        }
        if !all_true(eligible) {
            return Err(VaultError::NotEligible);
        }
        let n = incoming.len() as u128;
        if n > MAX_SUPPLY / SWAP_RATE {
            return Err(VaultError::SupplyCapExceeded);
        }
        let minted = n * SWAP_RATE;
        if minted > MAX_SUPPLY - self.supply {
            return Err(VaultError::SupplyCapExceeded);
        }
        let ids = ids_of(incoming);
        self.pool.deposit(&ids);
        self.supply = self.supply + minted;
        Ok(Transfer { id: self.myself, value: minted })
    }

    /// Deposits eligible assets into the pool without issuing anything.
    /// `eligible[j]` is the membership verdict on `incoming[j]`.
    pub fn deposit_beep_boop(&mut self, incoming: &Vec<Transfer>, eligible: &Vec<bool>) -> (r: Result<(), VaultError>)
        requires
            old(self).wf(),
            eligible@.len() == incoming@.len(),
        ensures
            final(self).wf(),
            r is Err ==> *final(self) == *old(self),
            incoming@.len() == 0 ==> r == Err::<(), VaultError>(VaultError::NoAssets),
            incoming@.len() > 0 && (exists|j: int| 0 <= j < eligible@.len() && !#[trigger] eligible@[j])
                ==> r == Err::<(), VaultError>(VaultError::NotEligible),
            incoming@.len() > 0 && (forall|j: int| 0 <= j < eligible@.len() ==> #[trigger] eligible@[j]) ==> {
                &&& r is Ok
                &&& final(self).pool().queue() == old(self).pool().queue() + transfer_ids(incoming@)
                &&& final(self).pool().slots() == old(self).pool().slots() + transfer_ids(incoming@).map_values(|a: AssetId| Some(a))
                &&& final(self).pool().retrieve_index() == old(self).pool().retrieve_index()
                &&& final(self).supply() == old(self).supply()
                &&& final(self).claimed_map() == old(self).claimed_map()
                &&& final(self).claimed_total() == old(self).claimed_total()
                &&& final(self).myself() == old(self).myself()
            },
    {
        if incoming.len() == 0 {
            return Err(VaultError::NoAssets);
        }
        if !all_true(eligible) {
            return Err(VaultError::NotEligible);
        }
        let ids = ids_of(incoming);
        self.pool.deposit(&ids);
        Ok(())
    }
}

/// Issued supply of a well-formed engine never exceeds the cap.
pub proof fn lemma_supply_capped(c: Claim)
    requires
        c.wf(),
    ensures
        c.supply() <= MAX_SUPPLY,
{
}

/// Depositing `n` assets into an empty pool and then swapping `n * SWAP_RATE`
/// units back returns exactly those assets, in deposit order, with no change,
/// and leaves the pool empty.
pub proof fn lemma_swap_round_trip(queue: Seq<AssetId>, deposited: Seq<AssetId>, myself: AssetId)
    requires
        queue.len() == 0,
    ensures
        (deposited.len() * SWAP_RATE) / (SWAP_RATE as int) == deposited.len(),
        change_part(myself, deposited.len() * SWAP_RATE) == Seq::<Transfer>::empty(),
        (queue + deposited).take(deposited.len() as int) == deposited,
        (queue + deposited).skip(deposited.len() as int) == Seq::<AssetId>::empty(),
        unit_transfers((queue + deposited).take(deposited.len() as int)) + change_part(myself, deposited.len() * SWAP_RATE)
            == unit_transfers(deposited),
{
    let n = deposited.len() as int;
    assert((n * SWAP_RATE) / (SWAP_RATE as int) == n) by (nonlinear_arith);
    assert((n * SWAP_RATE) % (SWAP_RATE as int) == 0) by (nonlinear_arith);
    assert((queue + deposited).take(n) =~= deposited);
    assert((queue + deposited).skip(n) =~= Seq::<AssetId>::empty());
    assert(unit_transfers(deposited) + Seq::<Transfer>::empty() =~= unit_transfers(deposited));
}

} // verus!
