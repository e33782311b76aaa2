//! The constants of the derivation, gathered in one value so that a caller can
//! run the same algorithm on a scaled-down chain.

use vstd::prelude::*;

verus! {

/// Shannons in one whole coin, the unit to which every share is rounded down.
pub const BYTE_SHANNONS: u64 = 100_000_000;

/// The reward pool that is divided among the surviving beneficiaries, in shannons.
pub const TOTAL_REWARD: u64 = 18_000_000 * BYTE_SHANNONS;

/// Beneficiaries whose accumulated reward is at or below this many shannons are dropped.
pub const THRESHOLD: u64 = 1_000 * BYTE_SHANNONS;

/// The number of blocks between a block and the block whose reward is credited
/// to its beneficiary.
pub const MATURITY: u64 = 11;

/// The number of trailing epochs over which difficulty and epoch duration are averaged.
pub const METRIC_EPOCH: u64 = 4;

/// The epoch duration, in seconds, assumed while fewer than `METRIC_EPOCH`
/// epochs have been observed.
pub const DEFAULT_EPOCH_DURATION: u64 = 4 * 3600;

/// The tunable constants of a derivation.
#[derive(Clone, Copy, Debug, PartialEq, Eq, Structural)]
pub struct Config {
    /// The pool to divide, in shannons.
    pub total_reward: u64,
    /// The dust threshold, in shannons: a reward must exceed it to survive.
    pub threshold: u64,
    /// The reward maturity offset, in blocks; also the length of the lag window.
    pub maturity: u64,
    /// The number of trailing epochs that are averaged.
    pub metric_epochs: u64,
}

impl Config {
    /// A configuration is usable when the pool is not empty, the window holds
    /// at least one block and fits in memory, and at least one epoch is averaged.
    pub open spec fn valid(self) -> bool {
        &&& self.total_reward > 0
        &&& 0 < self.maturity < usize::MAX
        &&& 0 < self.metric_epochs < usize::MAX
    }

    /// The constants of the main network launch, as a value.
    pub open spec fn mainnet_spec() -> Config {
        Config {
            total_reward: TOTAL_REWARD,
            threshold: THRESHOLD,
            maturity: MATURITY,
            metric_epochs: METRIC_EPOCH,
        }
    }

    /// The constants of the main network launch.
    pub fn mainnet() -> (config: Config)
        ensures
            config.valid(),
            config == Self::mainnet_spec(),
    {
        Config {
            total_reward: TOTAL_REWARD,
            threshold: THRESHOLD,
            maturity: MATURITY,
            metric_epochs: METRIC_EPOCH,
        }
    }

    /// Whether this configuration is usable.
    pub fn is_valid(&self) -> (ok: bool)
        ensures
            ok == self.valid(),
    {
        self.total_reward > 0 && 0 < self.maturity && self.maturity < usize::MAX as u64
            && 0 < self.metric_epochs && self.metric_epochs < usize::MAX as u64
    }
}

} // verus!
