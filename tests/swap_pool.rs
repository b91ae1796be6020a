use orbital_vault::claim::{Claim, MAX_SUPPLY, SWAP_RATE};
use orbital_vault::error::VaultError;
use orbital_vault::ids::{AssetId, Transfer};

fn token() -> AssetId {
    AssetId { block: 2, tx: 900 }
}

fn asset(tx: u128) -> AssetId {
    AssetId { block: 2, tx }
}

fn unit(tx: u128) -> Transfer {
    Transfer { id: asset(tx), value: 1 }
}

fn fungible(value: u128) -> Transfer {
    Transfer { id: token(), value }
}

fn engine_with(txs: &[u128]) -> Claim {
    let mut c = Claim::initialize(token());
    let incoming: Vec<Transfer> = txs.iter().map(|t| unit(*t)).collect();
    let eligible = vec![true; incoming.len()];
    c.swap_beep_boop_to_b_b(&incoming, &eligible).unwrap();
    c
}

#[test]
fn swap_in_three_then_out_one_whole_unit_with_change() {
    let mut c = engine_with(&[1, 2, 3]);
    assert_eq!(c.get_minted(), 75000);
    assert_eq!(c.get_beep_boop_supply(), 3);
    assert_eq!(c.get_stored_beep_boop_alkane_id(0).unwrap(), b"2:1".to_vec());
    assert_eq!(c.get_stored_beep_boop_alkane_id(2).unwrap(), b"2:3".to_vec());
    let out = c.swap_b_b_to_beep_boop(&vec![fungible(30000)]).unwrap();
    assert_eq!(out, vec![unit(1), fungible(5000)]);
    assert_eq!(c.get_next_swap_index(), 1);
    assert_eq!(c.get_beep_boop_supply(), 2);
    assert_eq!(c.get_minted(), 50000);
    assert_eq!(c.get_stored_beep_boop_alkane_id(0), Err(VaultError::NotFound));
    assert_eq!(c.get_stored_beep_boop_alkane_id(1).unwrap(), b"2:2".to_vec());
}

#[test]
fn swap_round_trip_returns_the_same_assets_in_order() {
    let mut c = Claim::initialize(token());
    let incoming = vec![unit(10), unit(11)];
    let minted = c.swap_beep_boop_to_b_b(&incoming, &vec![true, true]).unwrap();
    assert_eq!(minted, fungible(2 * SWAP_RATE));
    let out = c.swap_b_b_to_beep_boop(&vec![fungible(2 * SWAP_RATE)]).unwrap();
    assert_eq!(out, vec![unit(10), unit(11)]);
    assert_eq!(c.get_beep_boop_supply(), 0);
    assert_eq!(c.get_minted(), 0);
    assert_eq!(c.get_next_swap_index(), 2);
}

#[test]
fn swap_out_skips_emptied_slots_and_sums_inputs() {
    let mut c = engine_with(&[1, 2, 3, 4]);
    c.swap_b_b_to_beep_boop(&vec![fungible(25000)]).unwrap();
    let out = c.swap_b_b_to_beep_boop(&vec![fungible(20000), fungible(30000)]).unwrap();
    assert_eq!(out, vec![unit(2), unit(3)]);
    assert_eq!(c.get_next_swap_index(), 3);
}

#[test]
fn swap_out_refuses_a_foreign_token() {
    let mut c = engine_with(&[1]);
    let r = c.swap_b_b_to_beep_boop(&vec![Transfer { id: asset(5), value: 25000 }]);
    assert_eq!(r, Err(VaultError::ForeignToken));
    assert_eq!(c.get_beep_boop_supply(), 1);
}

#[test]
fn swap_out_refuses_nothing_and_too_little() {
    let mut c = engine_with(&[1]);
    assert_eq!(c.swap_b_b_to_beep_boop(&vec![]), Err(VaultError::NothingToSwap));
    assert_eq!(c.swap_b_b_to_beep_boop(&vec![fungible(0)]), Err(VaultError::NothingToSwap));
    assert_eq!(c.swap_b_b_to_beep_boop(&vec![fungible(24999)]), Err(VaultError::InsufficientInput));
    assert_eq!(c.get_next_swap_index(), 0);
}

#[test]
fn swap_out_refuses_more_than_the_pool_holds() {
    let mut c = engine_with(&[1]);
    assert_eq!(c.swap_b_b_to_beep_boop(&vec![fungible(50000)]), Err(VaultError::InsufficientPool));
    assert_eq!(c.get_minted(), 25000);
    assert_eq!(c.get_beep_boop_supply(), 1);
}

#[test]
fn swap_out_refuses_to_burn_below_zero() {
    let mut c = Claim::initialize(token());
    c.deposit_beep_boop(&vec![unit(1)], &vec![true]).unwrap();
    assert_eq!(c.get_minted(), 0);
    assert_eq!(c.swap_b_b_to_beep_boop(&vec![fungible(25000)]), Err(VaultError::SupplyUnderflow));
}

#[test]
fn swap_out_sum_overflow_is_refused() {
    let mut c = engine_with(&[1]);
    let r = c.swap_b_b_to_beep_boop(&vec![fungible(u128::MAX), fungible(1)]);
    assert_eq!(r, Err(VaultError::Overflow));
}

#[test]
fn swap_in_and_deposit_refuse_empty_and_ineligible() {
    let mut c = Claim::initialize(token());
    assert_eq!(c.swap_beep_boop_to_b_b(&vec![], &vec![]), Err(VaultError::NoAssets));
    assert_eq!(c.deposit_beep_boop(&vec![], &vec![]), Err(VaultError::NoAssets));
    assert_eq!(
        c.swap_beep_boop_to_b_b(&vec![unit(1), unit(2)], &vec![true, false]),
        Err(VaultError::NotEligible)
    );
    assert_eq!(c.deposit_beep_boop(&vec![unit(1)], &vec![false]), Err(VaultError::NotEligible));
    assert_eq!(c.get_beep_boop_supply(), 0);
    assert_eq!(c.get_minted(), 0);
}

#[test]
fn deposit_adds_to_the_pool_without_issuing() {
    let mut c = Claim::initialize(token());
    c.deposit_beep_boop(&vec![unit(4), unit(5)], &vec![true, true]).unwrap();
    assert_eq!(c.get_beep_boop_supply(), 2);
    assert_eq!(c.get_minted(), 0);
    assert_eq!(c.get_stored_beep_boop_alkane_id(1).unwrap(), b"2:5".to_vec());
    assert_eq!(c.get_stored_beep_boop_alkane_id(2), Err(VaultError::NotFound));
}

#[test]
fn swap_in_past_the_supply_cap_is_refused_whole() {
    let mut c = Claim::initialize(token());
    let n = (MAX_SUPPLY / SWAP_RATE) as usize + 1;
    let incoming: Vec<Transfer> = (0..n as u128).map(unit).collect();
    let r = c.swap_beep_boop_to_b_b(&incoming, &vec![true; n]);
    assert_eq!(r, Err(VaultError::SupplyCapExceeded));
    assert_eq!(c.get_beep_boop_supply(), 0);
    assert_eq!(c.get_minted(), 0);
    let exact: Vec<Transfer> = (0..(n - 1) as u128).map(unit).collect();
    c.swap_beep_boop_to_b_b(&exact, &vec![true; n - 1]).unwrap();
    assert_eq!(c.get_minted(), MAX_SUPPLY);
    assert_eq!(c.swap_beep_boop_to_b_b(&vec![unit(1)], &vec![true]), Err(VaultError::SupplyCapExceeded));
}

#[test]
fn claim_engine_constants_and_identity() {
    let c = Claim::initialize(token());
    assert_eq!(c.get_swap_rate(), 25000);
    assert_eq!(c.get_value_per_mint(), 25000);
    assert_eq!(c.get_max_supply(), 250000000);
    assert_eq!(c.get_total_supply(), 250000000);
    assert_eq!(c.get_collection_identifier(), b"2:900".to_vec());
    assert_eq!(c.get_name(), "BB");
}
