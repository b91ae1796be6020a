//! Accounting core of a collection-bound staking vault: stake ledgers,
//! reward claims under a lifetime cap and a supply cap, and a custodial
//! swap pool that backs a fungible token with deposited assets.

pub mod ids;
pub mod table;
pub mod pool;
pub mod error;
pub mod text;
pub mod claim;
pub mod vault;
pub mod ledger;
pub mod lock;
