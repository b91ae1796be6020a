use orbital_vault::error::VaultError;
use orbital_vault::ids::{alkane_id_to_bytes, AssetId, Transfer};
use orbital_vault::ledger::{witness, Address, Staking};

fn orb(tx: u128) -> AssetId {
    AssetId { block: 2, tx }
}

fn one(tx: u128) -> Vec<Transfer> {
    vec![Transfer { id: orb(tx), value: 1 }]
}

const ALICE: Address = Address { lo: 1, hi: 2 };
const BOB: Address = Address { lo: 3, hi: 4 };

#[test]
fn staked_assets_are_listed_under_their_address() {
    let mut s = Staking::initialize(vec![7, 8, 9]);
    s.stake(&ALICE, &one(7), 10).unwrap();
    s.stake(&BOB, &one(8), 11).unwrap();
    s.stake(&ALICE, &one(9), 12).unwrap();
    let mut want = alkane_id_to_bytes(&orb(7));
    want.extend(alkane_id_to_bytes(&orb(9)));
    assert_eq!(s.get_staked_ids_by_address(&ALICE).unwrap(), want);
    assert_eq!(s.get_staked_ids_by_address(&BOB).unwrap(), alkane_id_to_bytes(&orb(8)));
    assert_eq!(s.get_total_staked(), 3u128.to_le_bytes().to_vec());
    s.unstake(&ALICE, &orb(7), 20).unwrap();
    assert_eq!(s.get_staked_ids_by_address(&ALICE).unwrap(), alkane_id_to_bytes(&orb(9)));
    assert_eq!(s.get_total_staked(), 2u128.to_le_bytes().to_vec());
    s.unstake(&ALICE, &orb(9), 20).unwrap();
    assert_eq!(s.get_staked_ids_by_address(&ALICE), Err(VaultError::NotFound));
}

#[test]
fn staking_twice_is_refused_without_change() {
    let mut s = Staking::initialize(vec![7]);
    assert_eq!(s.stake(&ALICE, &one(7), 100), Ok(()));
    assert_eq!(s.stake(&ALICE, &one(7), 101), Err(VaultError::AlreadyStaked));
    assert_eq!(s.stake(&BOB, &one(7), 102), Err(VaultError::AlreadyStaked));
    assert_eq!(s.get_staked_ids_by_address(&ALICE).unwrap(), alkane_id_to_bytes(&orb(7)));
    assert_eq!(s.get_staked_ids_by_address(&BOB), Err(VaultError::NotFound));
    assert_eq!(s.get_total_staked(), 1u128.to_le_bytes().to_vec());
}

#[test]
fn unstake_adds_the_period_to_staked_blocks() {
    let mut s = Staking::initialize(vec![7]);
    s.stake(&ALICE, &one(7), 100).unwrap();
    assert_eq!(s.unstake(&ALICE, &orb(7), 150), Ok(Transfer { id: orb(7), value: 1 }));
    assert_eq!(s.get_total_staked_blocks(&orb(7)).unwrap(), 50u128.to_le_bytes().to_vec());
    s.stake(&BOB, &one(7), 200).unwrap();
    s.unstake(&BOB, &orb(7), 190).unwrap();
    assert_eq!(s.get_total_staked_blocks(&orb(7)).unwrap(), 50u128.to_le_bytes().to_vec());
    s.stake(&BOB, &one(7), 300).unwrap();
    s.unstake(&BOB, &orb(7), 305).unwrap();
    assert_eq!(s.get_total_staked_blocks(&orb(7)).unwrap(), 55u128.to_le_bytes().to_vec());
}

#[test]
fn unstake_refusals() {
    let mut s = Staking::initialize(vec![7, 8]);
    s.stake(&ALICE, &one(7), 100).unwrap();
    assert_eq!(s.unstake(&BOB, &orb(7), 150), Err(VaultError::NotStakedByCaller));
    assert_eq!(s.unstake(&ALICE, &orb(8), 150), Err(VaultError::NotStakedByCaller));
    assert_eq!(s.unstake(&ALICE, &AssetId { block: 3, tx: 7 }, 150), Err(VaultError::NotEligible));
    s.unstake(&ALICE, &orb(7), 150).unwrap();
    assert_eq!(s.unstake(&ALICE, &orb(7), 160), Err(VaultError::NotStakedByCaller));
}

#[test]
fn stake_refusals() {
    let mut s = Staking::initialize(vec![7]);
    assert_eq!(s.stake(&ALICE, &vec![], 5), Err(VaultError::NoAssets));
    let two = vec![Transfer { id: orb(7), value: 1 }, Transfer { id: orb(7), value: 1 }];
    assert_eq!(s.stake(&ALICE, &two, 5), Err(VaultError::TooManyAssets));
    assert_eq!(s.stake(&ALICE, &vec![Transfer { id: orb(7), value: 2 }], 5), Err(VaultError::InvalidValue));
    assert_eq!(s.stake(&ALICE, &one(8), 5), Err(VaultError::NotEligible));
    assert_eq!(s.stake(&ALICE, &vec![Transfer { id: AssetId { block: 4, tx: 7 }, value: 1 }], 5), Err(VaultError::NotEligible));
    assert_eq!(s.get_stake_eligibility(&orb(7)), vec![1]);
    assert_eq!(s.get_stake_eligibility(&orb(8)), vec![0]);
}

#[test]
fn witness_is_hi_then_lo() {
    let w = witness(&Address { lo: 1, hi: 2 });
    let mut want = vec![0u8; 32];
    want[0] = 2;
    want[16] = 1;
    assert_eq!(w, want);
}
