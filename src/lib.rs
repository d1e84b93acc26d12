//! A fungible token ledger: per-owner balances, delegated spending rights
//! (allowances) and a two-phase mint that credits new supply only once an
//! external prover has confirmed a lock on another chain.
pub mod account;
pub mod host;
pub mod token;
