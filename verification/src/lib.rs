//! Core of a wallet daemon: a single shared wallet ledger served to many
//! concurrent callers while a background task ingests chain updates.
//!
//! The verified library models the coordination layer: the wallet state and
//! its invariants, the guard that serializes read-modify-write-persist
//! operations, the chain-sync worker's state machine, the request handlers'
//! computations, and the shutdown handshake. The unverified shell around it
//! performs the actual store, network and file effects and mirrors the
//! discipline proved here.

pub mod addr;
pub mod chain;
pub mod config;
pub mod format;
pub mod guard;
pub mod service;
pub mod shutdown;
pub mod state;
pub mod types;
pub mod worker;
