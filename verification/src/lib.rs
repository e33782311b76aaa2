//! Derives the launch parameters of a new chain from the observed history of
//! its precursor network: the genesis timestamp and hash anchor, the compact
//! difficulty target and the epoch length, together with the allocation of a
//! fixed reward pool among the precursor's miners.
//!
//! The library reads nothing itself. Its caller fetches headers, blocks,
//! epochs and rewards from a node and hands them over as plain values; see
//! `explorer` for the derivation as a whole and `scan` for the part that is
//! fed block by block.

pub mod bytes;
pub mod chain;
pub mod config;
pub mod witness;
pub mod ledger;
pub mod window;
pub mod scan;
pub mod allocation;
pub mod allocation_laws;
pub mod difficulty;
pub mod estimate;
pub mod explorer;
