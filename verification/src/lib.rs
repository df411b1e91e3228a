//! Streamlet: a leader-based, epoch-driven blockchain consensus protocol,
//! as a per-node state machine with verified contracts.

pub mod block;
pub mod error;
pub mod invariants;
pub mod laws;
pub mod message;
pub mod network;
pub mod node;
pub mod protocol;
pub mod store;
pub mod tally;
pub mod utils;
