use orbital_vault::error::VaultError;
use orbital_vault::ids::{AssetId, Transfer};
use orbital_vault::vault::{overlay_offset, Staking, MAX_MINTS};

fn orb(tx: u128) -> AssetId {
    AssetId { block: 2, tx }
}

fn one(id: AssetId) -> Transfer {
    Transfer { id, value: 1 }
}

#[test]
fn receipts_are_minted_once_per_index_and_reused() {
    let mut s = Staking::initialize(vec![7, 8]);
    let r1 = orb(500);
    assert_eq!(s.stake(&one(orb(7)), 3, Some(r1), 10), Ok(one(r1)));
    assert_eq!(s.get_total_supply(), 1);
    assert_eq!(s.receipt_for_index(3), Some(r1));
    assert_eq!(s.get_staked_by_lp(&r1).unwrap(), b"2:7".to_vec());
    assert_eq!(s.unstake(&vec![one(r1)], 20), Ok(one(orb(7))));
    assert_eq!(s.get_staked_by_lp(&r1), Err(VaultError::NotFound));
    assert_eq!(s.stake(&one(orb(7)), 3, None, 30), Ok(one(r1)));
    assert_eq!(s.get_orbital_minted(), 1);
    assert_eq!(s.get_total_staked(), 2u128.to_le_bytes().to_vec());
    assert_eq!(s.get_total_unstaked(), 1);
    assert_eq!(s.get_staked_height(&orb(7)).unwrap(), 30u128.to_le_bytes().to_vec());
    assert_eq!(s.get_total_staked_blocks(&orb(7)).unwrap(), 10u128.to_le_bytes().to_vec());
}

#[test]
fn vault_stake_refusals() {
    let mut s = Staking::initialize(vec![7]);
    assert_eq!(s.stake(&Transfer { id: orb(7), value: 2 }, 0, Some(orb(500)), 10), Err(VaultError::InvalidValue));
    assert_eq!(s.stake(&one(orb(8)), 0, Some(orb(500)), 10), Err(VaultError::NotEligible));
    assert_eq!(s.stake(&one(orb(7)), MAX_MINTS, Some(orb(500)), 10), Err(VaultError::MintedOut));
    assert_eq!(s.stake(&one(orb(7)), 0, None, 10), Err(VaultError::NotFound));
    s.stake(&one(orb(7)), 0, Some(orb(500)), 10).unwrap();
    assert_eq!(s.stake(&one(orb(7)), 0, None, 11), Err(VaultError::AlreadyStaked));
    assert_eq!(s.get_stake_eligibility(&orb(7)), vec![0]);
    assert_eq!(s.get_total_supply(), 1);
}

#[test]
fn vault_unstake_refusals() {
    let mut s = Staking::initialize(vec![7]);
    assert_eq!(s.unstake(&vec![], 10), Err(VaultError::NoAssets));
    assert_eq!(s.unstake(&vec![one(orb(500)), one(orb(501))], 10), Err(VaultError::TooManyAssets));
    assert_eq!(s.unstake(&vec![Transfer { id: orb(500), value: 3 }], 10), Err(VaultError::InvalidValue));
    assert_eq!(s.unstake(&vec![one(orb(500))], 10), Err(VaultError::UnboundReceipt));
    assert_eq!(s.get_staked_orbital_id_by_lp_id(&orb(500)), Err(VaultError::UnboundReceipt));
}

#[test]
fn vault_queries_need_a_member() {
    let s = Staking::initialize(vec![7]);
    assert_eq!(s.get_staked_height(&orb(8)), Err(VaultError::NotEligible));
    assert_eq!(s.get_staked_height(&orb(7)), Err(VaultError::NotStaked));
    assert_eq!(s.get_total_staked_blocks(&orb(8)), Err(VaultError::NotEligible));
    assert_eq!(s.get_total_staked_blocks(&orb(7)).unwrap(), vec![0u8; 16]);
    assert_eq!(s.get_orbital_count(), 10000);
    assert!(s.verify_id_collection(&orb(7)));
    assert!(!s.verify_id_collection(&AssetId { block: 3, tx: 7 }));
}

#[test]
fn overlay_is_centred_on_the_canvas() {
    assert_eq!(overlay_offset(100), Some(160));
    assert_eq!(overlay_offset(420), Some(0));
    assert_eq!(overlay_offset(421), None);
}

#[test]
fn stake_checks_every_asset_first() {
    let mut s = Staking::initialize(vec![7, 8]);
    assert_eq!(s.check_stake(&vec![]), Err(VaultError::NoAssets));
    assert_eq!(s.check_stake(&vec![one(orb(7)), one(orb(9))]), Err(VaultError::NotEligible));
    assert_eq!(s.check_stake(&vec![one(orb(7)), one(orb(8))]), Ok(()));
    assert_eq!(
        s.check_stake(&vec![one(orb(7)), Transfer { id: orb(8), value: 2 }]),
        Err(VaultError::InvalidValue)
    );
    assert_eq!(
        s.check_stake(&vec![Transfer { id: orb(7), value: 2 }, one(orb(9))]),
        Err(VaultError::InvalidValue)
    );
    assert!(s.needs_receipt(4));
    assert!(!s.needs_receipt(MAX_MINTS));
    s.stake(&one(orb(8)), 4, Some(orb(600)), 10).unwrap();
    assert!(!s.needs_receipt(4));
    assert_eq!(s.check_stake(&vec![one(orb(7)), one(orb(8))]), Err(VaultError::AlreadyStaked));
    assert_eq!(s.max_mints(), MAX_MINTS);
    assert_eq!(s.instances_count(), 1);
    s.set_instances_count(5);
    assert_eq!(s.instances_count(), 5);
    assert_eq!(s.get_total_supply(), 5);
}
