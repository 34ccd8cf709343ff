//! A Stratum V2 mining client that hashes on the CPU: the decisions it takes, verified.
use vstd::prelude::*;

pub mod channel_manager;
pub mod client;
pub mod config;
pub mod error;
pub mod format;
pub mod group;
pub mod miner;

verus! {

} // verus!
