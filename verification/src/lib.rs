//! A proof-of-work search engine.
//!
//! Given a nonce, an address and a difficulty, the engine looks for a 256-bit
//! candidate such that the Keccak-256 digest of the packed nonce, address and
//! candidate, read as a big-endian number, is at most
//! `floor((2^256 - 1) / difficulty)`.
//!
//! - `uint256`, `big_endian`: the 256-bit integers and the byte model.
//! - `threshold`: the threshold of a difficulty and the acceptance rule.
//! - `packing`: the packed byte layout of prefix and tokens.
//! - `hash_engine`: the hash function, the candidate encoding, the batch scan.
//! - `memory`: the pool of reusable buffers.
//! - `progression`: the order in which the workers try candidates.
//! - `parallel`: the miner that runs the workers.
//! - `monitor`: the status of a task on a dashboard.
//! - `error`: the outcomes that end a search without a solution.

pub mod big_endian;
pub mod error;
pub mod hash_engine;
pub mod memory;
pub mod monitor;
pub mod packing;
pub mod parallel;
pub mod progression;
pub mod threshold;
pub mod uint256;
