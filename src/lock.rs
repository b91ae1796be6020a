//! Time-locked stakes: the staking transaction's first output must lock the
//! funds with a check-lock-time-verify script whose lock height lies far
//! enough ahead.

use vstd::prelude::*;
use crate::error::VaultError;

verus! {

/// The opcode that marks a provably unspendable output.
pub const OP_RETURN: u8 = 0x6a;
/// Check-lock-time-verify.
pub const OP_CLTV: u8 = 0xb1;
pub const OP_DROP: u8 = 0x75;
pub const OP_CHECKSIG: u8 = 0xac;

/// The fewest blocks a lock must lie ahead of the current height.
pub const MIN_STAKE_HEIGHT_DIFF: u128 = 1;

/// One decoded script instruction: a data push, or an opcode.
pub struct Instr {
    pub is_push: bool,
    pub op: u8,
    pub data: Vec<u8>,
}

/// The locking scripts of the outputs of a consensus-encoded transaction,
/// or `None` where the bytes do not start with a transaction.
pub uninterp spec fn tx_outputs(tx: Seq<u8>) -> Option<Seq<Seq<u8>>>;

/// Decoding a script: the instructions before the first decoding error, as
/// (is a push, opcode, pushed data), and whether decoding met an error.
pub uninterp spec fn script_decoding(script: Seq<u8>) -> (Seq<(bool, u8, Seq<u8>)>, bool);

/// The instructions a script decodes to before any decoding error.
pub open spec fn script_ops(script: Seq<u8>) -> Seq<(bool, u8, Seq<u8>)> {
    script_decoding(script).0
}

/// Whether decoding the script stops at an error.
pub open spec fn script_fails(script: Seq<u8>) -> bool {
    script_decoding(script).1
}

/// Relies on `bitcoin::consensus::encode::deserialize_partial::<Transaction>`
/// (trailing bytes allowed) for the locking script of each output.
#[verifier::external_body]
fn decode_tx_outputs(tx: &Vec<u8>) -> (r: Option<Vec<Vec<u8>>>)
    ensures
        r is None <==> tx_outputs(tx@) is None,
        r matches Some(outs) ==> outs@.map_values(|o: Vec<u8>| o@) == tx_outputs(tx@)->0,
{
    match bitcoin::consensus::encode::deserialize_partial::<bitcoin::Transaction>(tx.as_slice()) {
        Ok((t, _)) => Some(t.output.iter().map(|o| o.script_pubkey.as_bytes().to_vec()).collect()),
        Err(_) => None,
    }
}

/// Relies on `bitcoin::Script::instructions`: the instructions it yields
/// before its first error (after which it yields nothing), and whether it
/// met one.
#[verifier::external_body]
fn decode_script(script: &Vec<u8>) -> (r: (Vec<Instr>, bool))
    ensures
        r.0@.len() == script_decoding(script@).0.len(),
        forall|i: int| 0 <= i < r.0@.len() ==> (r.0@[i].is_push, r.0@[i].op, r.0@[i].data@) == #[trigger] script_decoding(script@).0[i],
        r.1 == script_decoding(script@).1,
{
    let mut out = Vec::new();
    for item in bitcoin::Script::from_bytes(script.as_slice()).instructions() {
        match item {
            Ok(bitcoin::script::Instruction::PushBytes(p)) => out.push(Instr { is_push: true, op: 0, data: p.as_bytes().to_vec() }),
            Ok(bitcoin::script::Instruction::Op(o)) => out.push(Instr { is_push: false, op: o.to_u8(), data: Vec::new() }),
            Err(_) => return (out, true),
        }
    }
    (out, false)
}

/// A script whose first byte is `OP_RETURN`.
pub open spec fn op_return(script: Seq<u8>) -> bool {
    script.len() > 0 && script[0] == OP_RETURN
}

/// The script holds a check-lock-time-verify among the instructions it decodes to.
pub open spec fn has_cltv(script: Seq<u8>) -> bool {
    exists|i: int| 0 <= i < script_ops(script).len() && !(#[trigger] script_ops(script)[i]).0 && script_ops(script)[i].1 == OP_CLTV
}

/// An output that can carry the lock: spendable and holding a lock opcode.
pub open spec fn lock_candidate(script: Seq<u8>) -> bool {
    !op_return(script) && has_cltv(script)
}

/// The little-endian value of four bytes.
pub open spec fn le_u32(b: Seq<u8>) -> u32 {
    (b[0] as int + b[1] as int * 0x100 + b[2] as int * 0x10000 + b[3] as int * 0x1000000) as u32
}

/// The lock height of a stake script: exactly `<4 bytes> OP_CLTV OP_DROP
/// <key> OP_CHECKSIG` among its first six instructions, which must decode.
pub open spec fn script_lock(script: Seq<u8>) -> Option<u32> {
    let ops = script_ops(script);
    if script_fails(script) && ops.len() < 6 {
        None
    } else if ops.len() == 5 && ops[0].0 && !ops[1].0 && ops[1].1 == OP_CLTV && !ops[2].0 && ops[2].1 == OP_DROP
        && ops[3].0 && !ops[4].0 && ops[4].1 == OP_CHECKSIG && ops[0].2.len() == 4 {
        Some(le_u32(ops[0].2))
    } else {
        None
    }
}

/// The reward a time-locked stake earns at once: the blocks from `height`
/// to the lock height, or why the transaction is refused.
pub open spec fn lock_reward(tx: Seq<u8>, height: u128) -> Result<u128, VaultError> {
    match tx_outputs(tx) {
        None => Err(VaultError::InvalidLock),
        Some(outs) => if outs.len() == 0 || op_return(outs[0]) || !lock_candidate(outs[0]) {
            Err(VaultError::InvalidLock)
        } else {
            match script_lock(outs[0]) {
                None => Err(VaultError::InvalidLock),
                Some(lock) => if (lock as int) < height {
                    Err(VaultError::LockInPast)
                } else if lock - height < MIN_STAKE_HEIGHT_DIFF {
                    Err(VaultError::LockTooShort)
                } else {
                    Ok((lock - height) as u128)
                },
            }
        },
    }
}

fn is_op_return(script: &Vec<u8>) -> (r: bool)
    ensures
        r == op_return(script@),
{
    script.len() > 0 && script[0] == OP_RETURN
}

fn has_lock_op(script: &Vec<u8>) -> (r: bool)
    ensures
        r == has_cltv(script@),
{
    let (ops, _) = decode_script(script);
    let mut i: usize = 0;
    while i < ops.len()
        invariant
            i <= ops@.len(),
            ops@.len() == script_ops(script@).len(),
            forall|k: int| 0 <= k < ops@.len() ==> (ops@[k].is_push, ops@[k].op, ops@[k].data@) == #[trigger] script_ops(script@)[k],
            forall|k: int| 0 <= k < i ==> script_ops(script@)[k].0 || script_ops(script@)[k].1 != OP_CLTV,
        decreases ops@.len() - i,
    {
        assert(script_ops(script@)[i as int] == (ops@[i as int].is_push, ops@[i as int].op, ops@[i as int].data@));
        if !ops[i].is_push && ops[i].op == OP_CLTV {
            return true;
        }
        i = i + 1;
    }
    proof {
        assert forall|k: int| 0 <= k < script_ops(script@).len() implies !(!(#[trigger] script_ops(script@)[k]).0 && script_ops(script@)[k].1 == OP_CLTV) by {
        }
    }
    false
}

fn read_lock(script: &Vec<u8>) -> (r: Option<u32>)
    ensures
        r == script_lock(script@),
{
    let (ops, failed) = decode_script(script);
    proof {
        assert forall|k: int| 0 <= k < ops@.len() implies (ops@[k].is_push, ops@[k].op, ops@[k].data@) == script_ops(script@)[k] by {}
    }
    if failed && ops.len() < 6 {
        return None;
    }
    if ops.len() != 5 {
        return None;
    }
    proof {
        assert(script_ops(script@)[0] == (ops@[0].is_push, ops@[0].op, ops@[0].data@));
        assert(script_ops(script@)[1] == (ops@[1].is_push, ops@[1].op, ops@[1].data@));
        assert(script_ops(script@)[2] == (ops@[2].is_push, ops@[2].op, ops@[2].data@));
        assert(script_ops(script@)[3] == (ops@[3].is_push, ops@[3].op, ops@[3].data@));
        assert(script_ops(script@)[4] == (ops@[4].is_push, ops@[4].op, ops@[4].data@));
    }
    if ops[0].is_push && !ops[1].is_push && ops[1].op == OP_CLTV && !ops[2].is_push && ops[2].op == OP_DROP
        && ops[3].is_push && !ops[4].is_push && ops[4].op == OP_CHECKSIG && ops[0].data.len() == 4 {
        let b = &ops[0].data;
        let v: u32 = b[0] as u32 + b[1] as u32 * 0x100 + b[2] as u32 * 0x10000 + b[3] as u32 * 0x1000000;
        Some(v)
    } else {
        None
    }
}

/// Checks the lock of a staking transaction at `height`. Returns the reward
/// it earns at once (the blocks until the lock height) and the locking
/// script of its first output.
pub fn check_stake_lock(tx: &Vec<u8>, height: u128) -> (r: Result<(u128, Vec<u8>), VaultError>)
    ensures
        match lock_reward(tx@, height) {
            Err(e) => r == Err::<(u128, Vec<u8>), VaultError>(e),
            Ok(v) => r matches Ok((w, script)) && w == v && script@ == tx_outputs(tx@)->0[0],
        },
{
    let mut outs = match decode_tx_outputs(tx) {
        Some(o) => o,
        None => {
            return Err(VaultError::InvalidLock);
        },
    };
    proof {
        assert(outs@.len() == tx_outputs(tx@)->0.len());
    }
    if outs.len() == 0 {
        return Err(VaultError::InvalidLock);
    }
    proof {
        assert(outs@[0]@ == tx_outputs(tx@)->0[0]);
    }
    let first = outs.remove(0);
    if is_op_return(&first) || !has_lock_op(&first) {
        return Err(VaultError::InvalidLock);
    }
    let lock = match read_lock(&first) {
        Some(l) => l,
        None => {
            return Err(VaultError::InvalidLock);
        },
    };
    if (lock as u128) < height {
        return Err(VaultError::LockInPast);
    }
    let diff = lock as u128 - height;
    if diff < MIN_STAKE_HEIGHT_DIFF {
        return Err(VaultError::LockTooShort);
    }
    Ok((diff, first))
}

} // verus!
