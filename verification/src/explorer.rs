//! The derivation as a whole: from what was read of the precursor chain to
//! the launch parameters of the new one.

use crate::allocation::{allocate, allocated, allocation_failure, effective_total};
use crate::allocation::{total_allotted, AllocationError};
use crate::chain::{facts_of, Block, BlockFacts, Epoch, Header};
use crate::config::Config;
use crate::difficulty::{derive_target, derive_target_spec, DifficultyError};
use crate::estimate::{estimate, estimate_of, average_duration_spec, remaining_seconds_spec};
use crate::estimate::{EpochSample, EstimateError, LaunchEstimate};
use crate::ledger::{AllocationMap, RewardTotals};
use crate::scan::{beneficiary, lemma_credited_to_extends};
use crate::scan::{readable, reward_entries, scan_fails_with, scan_succeeds, step_failure};
use crate::scan::{RewardScan, ScanError};
use vstd::prelude::*;

verus! {

/// What was read of the precursor chain for one derivation.
pub struct ChainSnapshot {
    /// The header of the chain's tip.
    pub tip: Header,
    /// The epoch after the target epoch, if the chain has it.
    pub next_epoch: Option<Epoch>,
    /// The blocks from number 1 on: one maturity offset past the last block
    /// of the target epoch.
    pub blocks: Vec<Block>,
    /// The primary rewards of the blocks from number `maturity + 1` on.
    pub primary_rewards: Vec<u64>,
    /// The trailing epochs, newest first: the target epoch and those before it.
    pub epochs: Vec<Epoch>,
    /// The timestamps for the launch-time estimate, where the chain is not
    /// ready and old enough to be measured.
    pub sample: Option<EpochSample>,
}

/// The launch parameters of the new chain.
#[derive(Clone, Copy, Debug)]
pub struct GenesisParams {
    /// The timestamp of the anchor block.
    pub timestamp: u64,
    /// The difficulty target in compact form.
    pub compact_target: u32,
    /// The hash of the anchor block.
    pub hash: [u8; 32],
    /// The epoch length to start with.
    pub epoch_length: u64,
}

/// Where the timestamps of an epoch sample are read.
#[derive(Clone, Copy, Debug, PartialEq, Eq, Structural)]
pub struct SamplePlan {
    /// The epoch whose first block gives the first timestamp.
    pub first_epoch: u64,
    /// The epoch whose first block gives the previous timestamp.
    pub previous_epoch: u64,
    /// The number of the block that gives the last timestamp.
    pub current_start: u64,
}

/// Why no launch parameters were derived.
#[derive(Clone, Copy, Debug, PartialEq, Eq, Structural)]
pub enum CollectError {
    /// The configuration is not usable.
    InvalidConfig,
    /// The chain has not reached the block at which the derivation can run;
    /// the estimate says when it will.
    NotReady(LaunchEstimate),
    /// The chain has not reached that block, and no estimate could be made.
    NoEstimate(EstimateError),
    /// The snapshot lacks a block, a reward or an epoch that the derivation reads.
    MissingData,
    /// The reward scan failed.
    Scan(ScanError),
    /// The allocation failed.
    Allocation(AllocationError),
    /// The difficulty derivation failed.
    Difficulty(DifficultyError),
}

/// The compact targets of a sequence of epochs.
pub open spec fn compacts_of(epochs: Seq<Epoch>) -> Seq<u32> {
    epochs.map_values(|epoch: Epoch| epoch.compact_target)
}

/// Derives launch parameters for a target epoch.
pub struct Explorer {
    target: u64,
    config: Config,
}

impl Explorer {
    /// The epoch at which the precursor chain is taken to be mature.
    pub closed spec fn target(&self) -> u64 {
        self.target
    }

    /// The constants of the derivation.
    pub closed spec fn config(&self) -> Config {
        self.config
    }

    /// An explorer for `target` with the constants of the main network launch.
    pub fn new(target: u64) -> (explorer: Explorer)
        ensures
            explorer.target() == target,
            explorer.config() == Config::mainnet_spec(),
    {
        Explorer { target, config: Config::mainnet() }
    }

    /// An explorer for `target` with constants of the caller's choice.
    pub fn with_config(target: u64, config: Config) -> (explorer: Explorer)
        ensures
            explorer.target() == target,
            explorer.config() == config,
    {
        Explorer { target, config }
    }

    /// The target epoch.
    pub fn target_epoch(&self) -> (target: u64)
        ensures
            target == self.target(),
    {
        self.target
    }

    /// The constants in use.
    pub fn constants(&self) -> (config: Config)
        ensures
            config == self.config(),
    {
        self.config
    }

    /// Whether a chain with this tip has reached the block at which the
    /// derivation can run: the tip lies in an epoch after the target epoch,
    /// at least one maturity offset into it.
    pub open spec fn ready(&self, tip: Header) -> bool {
        tip.epoch_number > self.target() && tip.epoch_index >= self.config().maturity
    }

    /// What `collect` answers on a chain that is not ready: the launch-time
    /// estimate, or the reason why there is none.
    pub open spec fn unready(&self, tip: Header, sample: Option<EpochSample>) -> CollectError {
        match remaining_seconds_spec(self.config(), self.target(), tip, sample) {
            Err(error) => CollectError::NoEstimate(error),
            Ok(remaining) => CollectError::NotReady(
                estimate_of(
                    average_duration_spec(
                        self.config().metric_epochs,
                        tip.epoch_number,
                        sample,
                    )->Ok_0,
                    sample,
                    tip.epoch_number >= self.config().metric_epochs,
                    remaining,
                ),
            ),
        }
    }

    /// Whether the derivation can run on a chain with this tip.
    pub fn is_ready(&self, tip: &Header) -> (ready: bool)
        ensures
            ready == self.ready(*tip),
    {
        tip.epoch_number > self.target && tip.epoch_index >= self.config.maturity
    }

    /// The number of the last block whose beneficiary is credited: the block
    /// before the first block of the epoch after the target epoch.
    pub open spec fn endpoint(next_epoch: Epoch) -> int {
        next_epoch.start_number - 1
    }

    /// Whether `next_epoch` is the epoch after the target epoch, and the scan
    /// up to one maturity offset past its first block has a last block number.
    pub open spec fn scannable(&self, next_epoch: Epoch) -> bool {
        &&& next_epoch.number == self.target() + 1
        &&& next_epoch.start_number > 0
        &&& Self::endpoint(next_epoch) + self.config().maturity <= u64::MAX
    }

    /// Whether `epochs` are the trailing epochs, newest first: as many as are
    /// averaged, from the target epoch back.
    pub open spec fn trailing(&self, epochs: Seq<Epoch>) -> bool {
        &&& epochs.len() == self.config().metric_epochs
        &&& forall|i: int| 0 <= i < epochs.len() ==> (#[trigger] epochs[i]).number + i
            == self.target()
    }

    /// Whether the snapshot holds all that the derivation reads, and nothing else.
    pub open spec fn complete(&self, chain: ChainSnapshot) -> bool {
        &&& chain.next_epoch matches Some(next_epoch)
        &&& self.scannable(next_epoch)
        &&& chain.blocks@.len() == Self::endpoint(next_epoch) + self.config().maturity
        &&& chain.primary_rewards@.len() == Self::endpoint(next_epoch)
        &&& self.trailing(chain.epochs@)
    }

    /// Whether the scan can run up to `next_epoch`.
    pub fn is_scannable(&self, next_epoch: &Epoch) -> (scannable: bool)
        ensures
            scannable == self.scannable(*next_epoch),
    {
        self.target < u64::MAX && next_epoch.number == self.target + 1 && next_epoch.start_number
            > 0 && next_epoch.start_number - 1 <= u64::MAX - self.config.maturity
    }

    /// Whether `epochs` are the trailing epochs that the difficulty is averaged over.
    pub fn is_trailing(&self, epochs: &Vec<Epoch>) -> (trailing: bool)
        ensures
            trailing == self.trailing(epochs@),
    {
        if epochs.len() as u64 != self.config.metric_epochs {
            return false;
        }
        let mut i: usize = 0;
        while i < epochs.len()
            invariant
                0 <= i <= epochs.len(),
                forall|j: int| 0 <= j < i ==> (#[trigger] epochs@[j]).number + j == self.target(),
            decreases epochs.len() - i,
        {
            let number = epochs[i].number;
            if number > self.target || self.target - number != i as u64 {
                return false;
            }
            i = i + 1;
        }
        true
    }

    /// The number of the epoch after the target epoch, which tells where the
    /// target epoch ends; `None` where the target is the last number there is.
    pub fn next_epoch_number(&self) -> (number: Option<u64>)
        ensures
            number == if self.target() < u64::MAX {
                Some((self.target() + 1) as u64)
            } else {
                None
            },
    {
        self.target.checked_add(1)
    }

    /// The number of the trailing epoch at position `index`, newest first;
    /// `None` past the epochs that are averaged or before the first epoch.
    pub fn trailing_epoch_number(&self, index: u64) -> (number: Option<u64>)
        ensures
            number == if index < self.config().metric_epochs && index <= self.target() {
                Some((self.target() - index) as u64)
            } else {
                None
            },
    {
        if index < self.config.metric_epochs && index <= self.target {
            Some(self.target - index)
        } else {
            None
        }
    }

    /// A scan of the rewards up to the last block before `next_epoch`, or
    /// `None` where the constants allow no scan or `next_epoch` is not the
    /// epoch after the target epoch.
    pub fn begin_scan(&self, next_epoch: &Epoch) -> (made: Option<RewardScan>)
        ensures
            made is Some <==> self.config().valid() && self.scannable(*next_epoch),
            made matches Some(scan) ==> {
                &&& scan.well_formed()
                &&& scan.maturity() == self.config().maturity
                &&& scan.endpoint() == Self::endpoint(*next_epoch)
                &&& scan.blocks() == Seq::<BlockFacts>::empty()
                &&& scan.rewards() == Seq::<u64>::empty()
            },
    {
        if !self.config.is_valid() || !self.is_scannable(next_epoch) {
            return None;
        }
        RewardScan::new(self.config.maturity, next_epoch.start_number - 1)
    }

    /// The timestamps to sample for the average epoch duration, by place:
    /// the epochs whose first blocks mark the start and the end of the last
    /// full epoch measured, and the number of the first block of the tip's
    /// epoch. `None` while fewer epochs have passed than are averaged, where
    /// no sample is needed, and where the tip claims an index beyond its number.
    pub fn sample_plan(&self, tip: &Header) -> (plan: Option<SamplePlan>)
        ensures
            plan == if 0 < self.config().metric_epochs <= tip.epoch_number && tip.epoch_index
                <= tip.number {
                Some(
                    SamplePlan {
                        first_epoch: (tip.epoch_number - self.config().metric_epochs) as u64,
                        previous_epoch: (tip.epoch_number - 1) as u64,
                        current_start: (tip.number - tip.epoch_index) as u64,
                    },
                )
            } else {
                None
            },
    {
        if 0 < self.config.metric_epochs && self.config.metric_epochs <= tip.epoch_number
            && tip.epoch_index <= tip.number {
            Some(
                SamplePlan {
                    first_epoch: tip.epoch_number - self.config.metric_epochs,
                    previous_epoch: tip.epoch_number - 1,
                    current_start: tip.number - tip.epoch_index,
                },
            )
        } else {
            None
        }
    }

    /// What the reward entries are paid out of the pool, all shares together.
    pub open spec fn paid_out(&self, entries: Seq<(Seq<u8>, u64)>) -> nat {
        total_allotted(
            entries,
            effective_total(entries, self.config().threshold),
            self.config().total_reward as nat,
            self.config().threshold,
        )
    }

    /// What `settle` returns and leaves in the map, as a function of its
    /// inputs: the launch parameters with the allocation, or the error.
    pub open spec fn settlement(
        &self,
        entries: Seq<(Seq<u8>, u64)>,
        anchor: BlockFacts,
        epochs: Seq<Epoch>,
        base: Map<Seq<u8>, u64>,
    ) -> Result<(GenesisParams, Map<Seq<u8>, u64>), CollectError> {
        let pool = self.config().total_reward;
        let threshold = self.config().threshold;
        if !self.trailing(epochs) {
            Err(CollectError::MissingData)
        } else {
            match allocation_failure(base, entries, pool, threshold) {
                Some(error) => Err(CollectError::Allocation(error)),
                None => match derive_target_spec(
                    compacts_of(epochs),
                    effective_total(entries, threshold),
                    pool as nat,
                ) {
                    Err(error) => Err(CollectError::Difficulty(error)),
                    Ok(compact_target) => Ok(
                        (
                            GenesisParams {
                                timestamp: anchor.timestamp,
                                compact_target,
                                hash: anchor.hash,
                                epoch_length: epochs[epochs.len() - 1].length,
                            },
                            allocated(base, entries, pool, threshold),
                        ),
                    ),
                },
            }
        }
    }

    /// Derives the launch parameters from the outcome of a reward scan and
    /// the trailing epochs, and pays the reward pool out into `map`, on top
    /// of what it holds.
    ///
    /// Beneficiaries at or below the dust threshold are dropped, the others
    /// share the pool in proportion. The difficulty is the average of the
    /// trailing epochs, raised by three halves and scaled by the surviving
    /// share of the pool. The timestamp and the hash are those of the anchor
    /// block, the epoch length is that of the oldest of the trailing epochs.
    ///
    /// When the derivation fails, `map` is left as it was.
    pub fn settle(
        &self,
        totals: &RewardTotals,
        anchor: &Block,
        epochs: &Vec<Epoch>,
        map: &mut AllocationMap,
    ) -> (result: Result<GenesisParams, CollectError>)
        requires
            totals.well_formed(),
            old(map).well_formed(),
        ensures
            final(map).well_formed(),
            match self.settlement(totals.entries(), anchor@, epochs@, old(map)@) {
                Ok((params, allocation)) => {
                    &&& result == Ok::<GenesisParams, CollectError>(params)
                    &&& final(map)@ == allocation
                    &&& final(map).total() == old(map).total() + self.paid_out(totals.entries())
                },
                Err(error) => result == Err::<GenesisParams, CollectError>(error) && *final(map)
                    == *old(map),
            },
    {
        if !self.is_trailing(epochs) {
            return Err(CollectError::MissingData);
        }
        let mut work = map.duplicate();
        let total = match allocate(totals, &self.config, &mut work) {
            Ok(total) => total,
            Err(error) => {
                return Err(CollectError::Allocation(error));
            },
        };
        let mut compacts: Vec<u32> = Vec::with_capacity(epochs.len());
        let mut i: usize = 0;
        while i < epochs.len()
            invariant
                0 <= i <= epochs.len(),
                compacts@ == compacts_of(epochs@.take(i as int)),
            decreases epochs.len() - i,
        {
            compacts.push(epochs[i].compact_target);
            i = i + 1;
        }
        assert(epochs@.take(i as int) =~= epochs@);
        let compact_target = match derive_target(&compacts, total, self.config.total_reward) {
            Ok(compact_target) => compact_target,
            Err(error) => {
                return Err(CollectError::Difficulty(error));
            },
        };
        *map = work;
        Ok(
            GenesisParams {
                timestamp: anchor.timestamp,
                compact_target,
                hash: anchor.hash,
                epoch_length: epochs[epochs.len() - 1].length,
            },
        )
    }

    /// The block of a complete snapshot that the new chain is anchored to:
    /// the last block of the target epoch.
    pub open spec fn anchor_of(chain: ChainSnapshot) -> BlockFacts {
        let endpoint = Self::endpoint(chain.next_epoch->0);
        facts_of(chain.blocks@)[if endpoint == 0 {
            0
        } else {
            endpoint - 1
        }]
    }

    /// What `collect` returns and leaves in the map, as a function of its
    /// inputs, where the scan of the snapshot goes through.
    pub open spec fn collection(&self, chain: ChainSnapshot, base: Map<Seq<u8>, u64>) -> Result<
        (GenesisParams, Map<Seq<u8>, u64>),
        CollectError,
    > {
        self.settlement(
            reward_entries(facts_of(chain.blocks@), chain.primary_rewards@),
            Self::anchor_of(chain),
            chain.epochs@,
            base,
        )
    }

    /// Derives the launch parameters from a snapshot of the precursor chain,
    /// and pays the reward pool out into `map`, on top of what it holds.
    /// Where the chain is not ready, the launch time is estimated instead.
    ///
    /// The rewards of blocks `maturity + 1` to `endpoint + maturity` are
    /// credited to the beneficiaries of blocks 1 to `endpoint`, where
    /// `endpoint` is the last block of the target epoch; that block is the
    /// anchor. The totals are then settled as `settle` says. Every lock
    /// that the scan read from a witness is a script, so the allocation never
    /// fails on a malformed lock here.
    ///
    /// When the derivation fails, `map` is left as it was.
    pub fn collect(&self, chain: &ChainSnapshot, map: &mut AllocationMap) -> (result: Result<
        GenesisParams,
        CollectError,
    >)
        requires
            old(map).well_formed(),
        ensures
            final(map).well_formed(),
            result is Err ==> *final(map) == *old(map),
            result != Err::<GenesisParams, CollectError>(
                CollectError::Allocation(AllocationError::MalformedLock),
            ),
            !self.config().valid() ==> result == Err::<GenesisParams, CollectError>(
                CollectError::InvalidConfig,
            ),
            self.config().valid() && !self.ready(chain.tip) ==> result == Err::<
                GenesisParams,
                CollectError,
            >(self.unready(chain.tip, chain.sample)),
            self.config().valid() && self.ready(chain.tip) && !self.complete(*chain) ==> result
                == Err::<GenesisParams, CollectError>(CollectError::MissingData),
            self.config().valid() && self.ready(chain.tip) && self.complete(*chain) ==> {
                if scan_succeeds(
                    facts_of(chain.blocks@),
                    chain.primary_rewards@,
                    self.config().maturity as nat,
                ) {
                    match self.collection(*chain, old(map)@) {
                        Ok((params, allocation)) => {
                            &&& result == Ok::<GenesisParams, CollectError>(params)
                            &&& final(map)@ == allocation
                            &&& final(map).total() == old(map).total() + self.paid_out(
                                reward_entries(facts_of(chain.blocks@), chain.primary_rewards@),
                            )
                        },
                        Err(error) => result == Err::<GenesisParams, CollectError>(error),
                    }
                } else {
                    result matches Err(CollectError::Scan(error)) && scan_fails_with(
                        facts_of(chain.blocks@),
                        chain.primary_rewards@,
                        self.config().maturity as nat,
                        error,
                    )
                }
            },
    {
        if !self.config.is_valid() {
            return Err(CollectError::InvalidConfig);
        }
        if !self.is_ready(&chain.tip) {
            return match self.estimate_launch_time(&chain.tip, chain.sample) {
                Ok(estimate) => Err(CollectError::NotReady(estimate)),
                Err(error) => Err(CollectError::NoEstimate(error)),
            };
        }
        let next_epoch = match chain.next_epoch {
            Some(next_epoch) => next_epoch,
            None => {
                return Err(CollectError::MissingData);
            },
        };
        let scan = match self.begin_scan(&next_epoch) {
            Some(scan) => scan,
            None => {
                return Err(CollectError::MissingData);
            },
        };
        let endpoint = next_epoch.start_number - 1;
        if chain.blocks.len() as u64 != endpoint + self.config.maturity
            || chain.primary_rewards.len() as u64 != endpoint || !self.is_trailing(&chain.epochs) {
            return Err(CollectError::MissingData);
        }
        let (totals, anchor) = match self.run(scan, chain) {
            Ok(outcome) => outcome,
            Err(error) => {
                return Err(CollectError::Scan(error));
            },
        };
        self.settle(&totals, &anchor, &chain.epochs, map)
    }

    /// Runs a fresh reward scan over the blocks of a complete snapshot.
    fn run(&self, scan: RewardScan, chain: &ChainSnapshot) -> (result: Result<
        (RewardTotals, Block),
        ScanError,
    >)
        requires
            self.complete(*chain),
            scan.well_formed(),
            scan.maturity() == self.config().maturity,
            scan.endpoint() == Self::endpoint(chain.next_epoch->0),
            scan.blocks() == Seq::<BlockFacts>::empty(),
            scan.rewards() == Seq::<u64>::empty(),
        ensures
            match result {
                Ok((totals, anchor)) => {
                    &&& scan_succeeds(
                        facts_of(chain.blocks@),
                        chain.primary_rewards@,
                        self.config().maturity as nat,
                    )
                    &&& totals.well_formed()
                    &&& totals.entries() == reward_entries(
                        facts_of(chain.blocks@),
                        chain.primary_rewards@,
                    )
                    &&& readable(totals.entries())
                    &&& anchor@ == Self::anchor_of(*chain)
                },
                Err(error) => scan_fails_with(
                    facts_of(chain.blocks@),
                    chain.primary_rewards@,
                    self.config().maturity as nat,
                    error,
                ),
            },
    {
        let mut scan = scan;
        let maturity = self.config.maturity;
        let ghost endpoint = Self::endpoint(chain.next_epoch->0);
        let ghost blocks = facts_of(chain.blocks@);
        let ghost rewards = chain.primary_rewards@;
        proof {
            scan.lemma_well_formed();
        }
        let count = chain.blocks.len();
        let mut k: usize = 0;
        while k < count
            invariant
                count == chain.blocks@.len(),
                count == endpoint + maturity,
                rewards == chain.primary_rewards@,
                rewards.len() == endpoint,
                blocks == facts_of(chain.blocks@),
                maturity == self.config().maturity,
                0 < maturity,
                0 <= k <= count,
                scan.well_formed(),
                scan.maturity() == maturity,
                scan.endpoint() == endpoint,
                scan.blocks() == blocks.take(k as int),
                scan.rewards() == rewards.take(
                    if k >= maturity {
                        k - maturity
                    } else {
                        0
                    },
                ),
                forall|i: int|
                    0 <= i < k ==> (#[trigger] step_failure(blocks, rewards, maturity as nat, i))
                        is None,
            decreases count - k,
        {
            let block = chain.blocks[k].duplicate();
            if (k as u64) < maturity {
                match scan.prime(block) {
                    Ok(()) => {},
                    Err(error) => {
                        assert(step_failure(blocks, rewards, maturity as nat, k as int) == Some(
                            error,
                        ));
                        return Err(error);
                    },
                }
            } else {
                let j = k - maturity as usize;
                let primary = chain.primary_rewards[j];
                proof {
                    if let Some(lock) = beneficiary(blocks[j as int]) {
                        lemma_credited_to_extends(
                            lock,
                            blocks.take(k as int),
                            blocks,
                            rewards.take(j as int),
                        );
                    }
                }
                match scan.advance(block, primary) {
                    Ok(()) => {},
                    Err(error) => {
                        return Err(error);
                    },
                }
            }
            k = k + 1;
        }
        proof {
            assert(blocks.take(count as int) =~= blocks);
            assert(rewards.take(endpoint as int) =~= rewards);
        }
        scan.finish()
    }

    /// Estimates the time until the chain reaches the block at which the
    /// derivation can run, from the tip and the sampled epoch timestamps.
    pub fn estimate_launch_time(&self, tip: &Header, sample: Option<EpochSample>) -> (result:
        Result<LaunchEstimate, EstimateError>)
        ensures
            match remaining_seconds_spec(self.config(), self.target(), *tip, sample) {
                Err(error) => result == Err::<LaunchEstimate, EstimateError>(error),
                Ok(remaining) => result == Ok::<LaunchEstimate, EstimateError>(
                    estimate_of(
                        average_duration_spec(
                            self.config().metric_epochs,
                            tip.epoch_number,
                            sample,
                        )->Ok_0,
                        sample,
                        tip.epoch_number >= self.config().metric_epochs,
                        remaining,
                    ),
                ),
            },
    {
        estimate(&self.config, self.target, tip, sample)
    }
}

} // verus!
