//! A small transaction engine: client accounts take deposits, withdrawals,
//! disputes, resolves and chargebacks, under strict accounting invariants.
//! Amounts are fixed-point integers at a scale of 10,000. Every operation
//! either fully succeeds or returns an error and changes nothing, and every
//! contract is stated against a mathematical model of the account state.

pub mod account;
pub mod amount;
pub mod error;
pub mod laws;
pub mod manager;
pub mod record;
