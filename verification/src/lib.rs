//! An in-memory account-balance ledger.
//!
//! The ledger maps accounts (an owner identity plus an optional sub-account)
//! to non-negative token balances. It offers crediting, atomic transfers
//! between a resolved caller and a destination account, and balance queries.
//! Absent accounts read as zero; no operation can drive a balance negative,
//! and a failed operation leaves the ledger exactly as it was.

pub mod account;
pub mod ledger;
