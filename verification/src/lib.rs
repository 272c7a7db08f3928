//! Wallet synchronization and transaction-construction engine.
//!
//! The library discovers a wallet's on-chain footprint through a remote
//! chain-indexing service, rebuilds local wallet state (balances, UTXOs,
//! history, fee tiers) from the emitted batches, and constructs unsigned
//! transaction templates under a converging fee-rate constraint.

pub mod builder;
pub mod records;
pub mod scanner;
pub mod store;
pub mod sync;
pub mod time;
