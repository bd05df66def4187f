//! A privacy-preserving fixed-denomination asset pool.
//!
//! Depositors insert a 32-byte commitment into an append-only incremental
//! Merkle accumulator against a fixed deposit amount; a later withdrawal
//! presents a zero-knowledge proof against one of the recently recorded
//! accumulator roots together with a fresh nullifier, and the pool answers
//! with the exact transfers to disburse.

pub mod encoding;
pub mod hashing;
pub mod history;
pub mod merkle_tree;
pub mod mixer;
pub mod nullifiers;
