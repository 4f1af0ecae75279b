//! A single-node blockchain: proof-of-work blocks and a chain that admits a
//! block only after checking it against the current tail.

pub mod add_block;
pub mod block;
pub mod blockchain;
