//! Consensus core of a blockchain node: a validator registry with stake-weighted
//! leader election, a hash-chain clock, a block DAG with a canonical order, and a
//! finality gadget that certifies blocks once more than two thirds of the stake
//! has voted for them.

pub mod bytes;
pub mod config;
pub mod consensus;
pub mod storage;
pub mod types;

use vstd::prelude::*;

verus! {

/// Library version.
pub const VERSION: &'static str = "0.1.0";

/// Protocol version.
pub const PROTOCOL_VERSION: u32 = 1;

} // verus!
