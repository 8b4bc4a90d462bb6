//! Payload availability for a BFT consensus engine, and an adversarial
//! delay scheduler for outgoing consensus messages.

pub mod filter;
pub mod mempool;
pub mod payload;
