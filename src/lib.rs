//! Proof-of-work nonce search and a bounded-retry transaction submission
//! pipeline for a miner that submits solutions to a remote ledger.

pub mod digest;
pub mod search;
pub mod pipeline;
pub mod balance;
