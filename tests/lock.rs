use bitcoin::absolute::LockTime;
use bitcoin::opcodes::all::{OP_CHECKSIG, OP_CLTV, OP_DROP, OP_RETURN};
use bitcoin::script::Builder;
use bitcoin::transaction::Version;
use bitcoin::{Amount, ScriptBuf, Transaction, TxIn, TxOut};
use orbital_vault::error::VaultError;
use orbital_vault::ids::{AssetId, Transfer};
use orbital_vault::ledger::{Address, Staking};
use orbital_vault::lock::check_stake_lock;

fn lock_script(lock: u32) -> ScriptBuf {
    Builder::new()
        .push_slice(lock.to_le_bytes())
        .push_opcode(OP_CLTV)
        .push_opcode(OP_DROP)
        .push_slice([2u8; 33])
        .push_opcode(OP_CHECKSIG)
        .into_script()
}

fn tx_bytes(scripts: Vec<ScriptBuf>) -> Vec<u8> {
    let tx = Transaction {
        version: Version::TWO,
        lock_time: LockTime::ZERO,
        input: vec![TxIn::default()],
        output: scripts.into_iter().map(|s| TxOut { value: Amount::from_sat(1000), script_pubkey: s }).collect(),
    };
    bitcoin::consensus::encode::serialize(&tx)
}

#[test]
fn a_lock_ahead_of_the_height_earns_its_length() {
    assert_eq!(
        check_stake_lock(&tx_bytes(vec![lock_script(900)]), 850),
        Ok((50, lock_script(900).as_bytes().to_vec()))
    );
    assert_eq!(
        check_stake_lock(&tx_bytes(vec![lock_script(851)]), 850),
        Ok((1, lock_script(851).as_bytes().to_vec()))
    );
}

#[test]
fn locks_in_the_past_or_too_short_are_refused() {
    assert_eq!(check_stake_lock(&tx_bytes(vec![lock_script(800)]), 850), Err(VaultError::LockInPast));
    assert_eq!(check_stake_lock(&tx_bytes(vec![lock_script(850)]), 850), Err(VaultError::LockTooShort));
}

#[test]
fn malformed_lock_transactions_are_refused() {
    assert_eq!(check_stake_lock(&vec![1, 2, 3], 10), Err(VaultError::InvalidLock));
    let op_return = Builder::new().push_opcode(OP_RETURN).into_script();
    assert_eq!(
        check_stake_lock(&tx_bytes(vec![op_return, lock_script(900)]), 10),
        Err(VaultError::InvalidLock)
    );
    let plain = Builder::new().push_slice([2u8; 33]).push_opcode(OP_CHECKSIG).into_script();
    assert_eq!(check_stake_lock(&tx_bytes(vec![plain, lock_script(900)]), 10), Err(VaultError::InvalidLock));
    let short = Builder::new()
        .push_slice([1u8, 2, 3])
        .push_opcode(OP_CLTV)
        .push_opcode(OP_DROP)
        .push_slice([2u8; 33])
        .push_opcode(OP_CHECKSIG)
        .into_script();
    assert_eq!(check_stake_lock(&tx_bytes(vec![short]), 10), Err(VaultError::InvalidLock));
    let extra = Builder::new()
        .push_slice(900u32.to_le_bytes())
        .push_opcode(OP_CLTV)
        .push_opcode(OP_DROP)
        .push_opcode(OP_DROP)
        .push_slice([2u8; 33])
        .push_opcode(OP_CHECKSIG)
        .into_script();
    assert_eq!(check_stake_lock(&tx_bytes(vec![extra]), 10), Err(VaultError::InvalidLock));
}

#[test]
fn a_locked_stake_records_its_reward() {
    let alice = Address { lo: 1, hi: 2 };
    let x = AssetId { block: 2, tx: 7 };
    let mut s = Staking::initialize(vec![7]);
    let tx = tx_bytes(vec![lock_script(160)]);
    assert_eq!(s.stake_locked(&alice, &vec![Transfer { id: x, value: 1 }], &tx, 100), Ok(60));
    assert_eq!(s.get_stake_rewards_by_id(&x), 60u128.to_le_bytes().to_vec());
    assert_eq!(s.get_total_rewards(), 60u128.to_le_bytes().to_vec());
    assert_eq!(s.get_staked_height(&x).unwrap(), 100u128.to_le_bytes().to_vec());
    assert_eq!(s.get_staked_output(&alice, &x).unwrap(), lock_script(160).as_bytes().to_vec());
    assert_eq!(s.get_staked_output(&Address { lo: 9, hi: 9 }, &x), Err(VaultError::NotFound));
    assert_eq!(
        s.stake_locked(&alice, &vec![Transfer { id: x, value: 1 }], &tx, 101),
        Err(VaultError::AlreadyStaked)
    );
    assert_eq!(s.get_total_rewards(), 60u128.to_le_bytes().to_vec());
    assert_eq!(s.get_stake_rewards_by_id(&x), 60u128.to_le_bytes().to_vec());
}
