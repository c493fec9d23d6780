//! An account-based ledger virtual machine core: a gas-cost model, a
//! checkpointable execution substate over an in-memory account store, and a
//! multiversion layer that validates speculatively executed transactions
//! against a serial order.

pub mod backend;
pub mod costs;
pub mod execution_storage;
pub mod executor;
pub mod exit;
pub mod laws;
pub mod multiversion;
pub mod substate;
pub mod tx;
pub mod uint;
pub mod util;
