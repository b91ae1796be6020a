use orbital_vault::claim::{
    calculate_total_rewards, decode_u128_response, resolve_alkane_id, Claim, RewardAnswers, MAX_SUPPLY, SWAP_RATE,
};
use orbital_vault::error::VaultError;
use orbital_vault::ids::{AssetId, Transfer};
use orbital_vault::vault::Staking;

fn token() -> AssetId {
    AssetId { block: 2, tx: 900 }
}

fn le(v: u128) -> Option<Vec<u8>> {
    Some(v.to_le_bytes().to_vec())
}

#[test]
fn stake_unstake_then_claim_once() {
    let x = AssetId { block: 2, tx: 7 };
    let receipt = AssetId { block: 2, tx: 500 };
    let mut s = Staking::initialize(vec![7, 8]);
    let got = s.stake(&Transfer { id: x, value: 1 }, 0, Some(receipt), 100).unwrap();
    assert_eq!(got, Transfer { id: receipt, value: 1 });
    let back = s.unstake(&vec![Transfer { id: receipt, value: 1 }], 150).unwrap();
    assert_eq!(back, Transfer { id: x, value: 1 });
    let blocks = s.get_total_staked_blocks(&x).unwrap();
    assert_eq!(decode_u128_response(&Some(blocks.clone())), Some(50));

    let height_answer = s.get_staked_height(&x).ok();
    assert_eq!(height_answer, None);
    let total = calculate_total_rewards(&Some(blocks), &height_answer, 150).unwrap();
    assert_eq!(total, 50);

    let eligibility = Some(s.get_stake_eligibility(&x));
    let original = resolve_alkane_id(&x, &eligibility, &None).unwrap();
    assert_eq!(original, x);

    let mut c = Claim::initialize(token());
    assert_eq!(c.get_total_available_to_claim(&x, total), 50);
    assert_eq!(c.claim_rewards(&vec![(x, total)]), Ok(50));
    assert_eq!(c.get_total_claimed_by_alkane_id(&x), 50);
    assert_eq!(c.get_total_claimed(), 50);
    assert_eq!(c.get_minted(), 50);
    assert_eq!(c.get_total_available_to_claim(&x, total), 0);
    assert_eq!(c.claim_rewards(&vec![(x, total)]), Err(VaultError::NoRewards));
    assert_eq!(c.get_minted(), 50);
}

#[test]
fn open_period_counts_toward_rewards() {
    let total = calculate_total_rewards(&le(40), &le(100), 130).unwrap();
    assert_eq!(total, 70);
    assert_eq!(calculate_total_rewards(&le(40), &le(200), 130).unwrap(), 40);
    assert_eq!(calculate_total_rewards(&le(40), &le(0), 130).unwrap(), 40);
    assert_eq!(calculate_total_rewards(&None, &Some(vec![1, 2, 3]), 130).unwrap(), 0);
    assert_eq!(calculate_total_rewards(&le(u128::MAX), &le(1), 3), Err(VaultError::Overflow));
}

#[test]
fn answers_of_the_wrong_length_are_unavailable() {
    assert_eq!(decode_u128_response(&Some(vec![0; 15])), None);
    assert_eq!(decode_u128_response(&Some(vec![0; 17])), None);
    assert_eq!(decode_u128_response(&None), None);
    assert_eq!(decode_u128_response(&le(258)), Some(258));
}

#[test]
fn claims_stop_at_the_lifetime_cap() {
    let a = AssetId { block: 2, tx: 1 };
    let mut c = Claim::initialize(token());
    assert_eq!(c.claim_rewards(&vec![(a, 30000)]), Ok(SWAP_RATE));
    assert_eq!(c.get_total_claimed_by_alkane_id(&a), SWAP_RATE);
    assert_eq!(c.get_total_available_to_claim(&a, 40000), 0);
    assert_eq!(c.claim_rewards(&vec![(a, 40000)]), Err(VaultError::NoRewards));
    assert_eq!(c.get_minted(), SWAP_RATE);
    assert_eq!(c.get_total_claimed_by_alkane_id(&a), SWAP_RATE);
}

#[test]
fn claims_are_additive_and_all_or_nothing() {
    let a = AssetId { block: 2, tx: 1 };
    let b = AssetId { block: 2, tx: 2 };
    let mut c = Claim::initialize(token());
    assert_eq!(c.claim_rewards(&vec![(a, 10)]), Ok(10));
    assert_eq!(c.claim_rewards(&vec![(a, 25), (b, 5)]), Ok(20));
    assert_eq!(c.get_total_claimed_by_alkane_id(&a), 25);
    assert_eq!(c.claim_rewards(&vec![(b, 9), (a, 25)]), Err(VaultError::NoRewards));
    assert_eq!(c.get_total_claimed_by_alkane_id(&b), 5);
    assert_eq!(c.get_minted(), 30);
    assert_eq!(c.claim_rewards(&vec![]), Err(VaultError::NoAssets));
}

#[test]
fn claims_past_the_supply_cap_are_refused() {
    let mut c = Claim::initialize(token());
    let n = (MAX_SUPPLY / SWAP_RATE) as u128;
    let batch: Vec<(AssetId, u128)> = (0..n).map(|t| (AssetId { block: 2, tx: t }, SWAP_RATE)).collect();
    assert_eq!(c.claim_rewards(&batch), Ok(MAX_SUPPLY));
    let more = vec![(AssetId { block: 2, tx: n }, 1)];
    assert_eq!(c.claim_rewards(&more), Err(VaultError::SupplyCapExceeded));
    assert_eq!(c.get_total_claimed_by_alkane_id(&AssetId { block: 2, tx: n }), 0);
    assert_eq!(c.get_minted(), MAX_SUPPLY);
}

#[test]
fn total_available_reads_the_stake_count() {
    let a = AssetId { block: 2, tx: 1 };
    let mut c = Claim::initialize(token());
    c.claim_rewards(&vec![(a, 3)]).unwrap();
    assert_eq!(c.get_total_available(&le(10)), 7);
    assert_eq!(c.get_total_available(&le(2)), 0);
    assert_eq!(c.get_total_available(&Some(vec![1])), 0);
}

#[test]
fn receipts_resolve_to_their_original() {
    let receipt = AssetId { block: 2, tx: 500 };
    let direct = Some(vec![1u8]);
    let not_direct = Some(vec![0u8]);
    assert_eq!(resolve_alkane_id(&receipt, &direct, &None), Ok(receipt));
    assert_eq!(
        resolve_alkane_id(&receipt, &not_direct, &Some(b"2:7".to_vec())),
        Ok(AssetId { block: 2, tx: 7 })
    );
    assert_eq!(
        resolve_alkane_id(&receipt, &not_direct, &Some(b"2-7".to_vec())),
        Err(VaultError::MalformedResponse)
    );
    assert_eq!(resolve_alkane_id(&receipt, &None, &None), Err(VaultError::MalformedResponse));
    let c = Claim::initialize(token());
    assert!(c.verify_id_collection(&direct, &None));
    assert!(c.verify_id_collection(&not_direct, &Some(b"2:7".to_vec())));
    assert!(!c.verify_id_collection(&not_direct, &Some(vec![])));
    assert!(!c.verify_id_collection(&Some(vec![]), &None));
    assert_eq!(c.alkane_id_to_bytes(&receipt).len(), 32);
}

#[test]
fn claims_through_a_receipt_use_the_original() {
    let x = AssetId { block: 2, tx: 7 };
    let receipt = AssetId { block: 2, tx: 500 };
    let mut s = Staking::initialize(vec![7]);
    s.stake(&Transfer { id: x, value: 1 }, 0, Some(receipt), 100).unwrap();
    let answers = vec![RewardAnswers {
        id: receipt,
        eligibility: Some(s.get_stake_eligibility(&receipt)),
        by_receipt: s.get_staked_by_lp(&receipt).ok(),
        staked_blocks: s.get_total_staked_blocks(&x).ok(),
        staked_height: s.get_staked_height(&x).ok(),
    }];
    let mut c = Claim::initialize(token());
    assert_eq!(c.claim_with_answers(&answers, 130), Ok(30));
    assert_eq!(c.get_total_claimed_by_alkane_id(&x), 30);
    assert_eq!(c.get_total_claimed_by_alkane_id(&receipt), 0);
    assert_eq!(c.claim_with_answers(&answers, 130), Err(VaultError::NoRewards));
    let broken = vec![RewardAnswers {
        id: receipt,
        eligibility: Some(vec![0]),
        by_receipt: Some(b"seven".to_vec()),
        staked_blocks: None,
        staked_height: None,
    }];
    assert_eq!(c.claim_with_answers(&broken, 130), Err(VaultError::MalformedResponse));
    assert_eq!(c.claim_with_answers(&vec![], 130), Err(VaultError::NoAssets));
}
