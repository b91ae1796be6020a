//! Why a call into the engine was rejected. A rejected call changes nothing.

use vstd::prelude::*;

verus! {

/// The reason a call was refused.
#[derive(Clone, Copy, Debug, PartialEq, Eq, Structural)]
pub enum VaultError {
    /// No asset was attached where at least one is required.
    NoAssets,
    /// More assets were attached than the call accepts.
    TooManyAssets,
    /// An attached transfer carries a value other than one.
    InvalidValue,
    /// An asset is not a member of the eligible collection.
    NotEligible,
    /// The asset is already staked.
    AlreadyStaked,
    /// The asset is not currently staked.
    NotStaked,
    /// The asset is not in the caller's staked set.
    NotStakedByCaller,
    /// The receipt is bound to no staked original.
    UnboundReceipt,
    /// Every receipt that the collection allows has been minted.
    MintedOut,
    /// A ledger total would overflow.
    Overflow,
    /// Everything the asset earned has already been claimed.
    NoRewards,
    /// Issuing the amount would pass the supply cap.
    SupplyCapExceeded,
    /// A fungible input other than this engine's own token was attached.
    ForeignToken,
    /// The fungible input is zero.
    NothingToSwap,
    /// The fungible input does not cover one whole asset.
    InsufficientInput,
    /// The pool holds fewer assets than requested.
    InsufficientPool,
    /// Burning the amount would take issued supply below zero.
    SupplyUnderflow,
    /// An answer from the stake ledger could not be read.
    MalformedResponse,
    /// Nothing is recorded under the requested key.
    NotFound,
    /// The staking transaction does not carry a valid time lock.
    InvalidLock,
    /// The lock height lies before the current height.
    LockInPast,
    /// The lock is shorter than the minimum holding period.
    LockTooShort,
}

} // verus!
