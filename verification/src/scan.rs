//! The reward aggregator: a scan over consecutively numbered blocks that
//! credits the primary reward of each block to the beneficiary named by the
//! block one maturity offset earlier, and keeps the block that the new chain
//! is anchored to.
//!
//! The scan does no reading of its own. Its caller asks `demand` what is
//! needed next, fetches it, and hands it to `prime` or `advance`.

use crate::chain::{Block, BlockFacts};
use crate::ledger::{held, CapacityMap, RewardTotals};
use crate::window::{tail, Window};
use crate::witness::{cellbase_lock, parse_cellbase_lock, script_args};
use vstd::prelude::*;

verus! {

/// Why a step of the scan was refused. A refused step changes nothing.
#[derive(Clone, Copy, Debug, PartialEq, Eq, Structural)]
pub enum ScanError {
    /// The scan is not in the phase that the call belongs to.
    OutOfTurn,
    /// The block does not have the next number.
    WrongBlock,
    /// The block whose beneficiary is due has no cellbase witness.
    MissingWitness,
    /// The cellbase witness of the block whose beneficiary is due does not parse.
    MalformedWitness,
    /// A beneficiary's total left the 64-bit range.
    Overflow,
}

/// What the scan needs next.
#[derive(Clone, Copy, Debug, PartialEq, Eq, Structural)]
pub enum Demand {
    /// The block of this number, to fill the window.
    Prime(u64),
    /// The block of this number and its primary reward.
    Advance(u64),
    /// Nothing: every block has been seen.
    Nothing,
}

/// The lock that a block's cellbase witness names, if it names one.
pub open spec fn beneficiary(block: BlockFacts) -> Option<Seq<u8>> {
    match block.cellbase_witness {
        Some(witness) => cellbase_lock(witness),
        None => None,
    }
}

/// The sum of the rewards credited to `lock`, where reward `j` goes to the
/// beneficiary of block `j`.
pub open spec fn credited_to(lock: Seq<u8>, blocks: Seq<BlockFacts>, rewards: Seq<u64>) -> nat
    decreases rewards.len(),
{
    if rewards.len() == 0 {
        0
    } else {
        credited_to(lock, blocks, rewards.drop_last()) + if beneficiary(
            blocks[rewards.len() - 1],
        ) == Some(lock) {
            rewards.last() as nat
        } else {
            0
        }
    }
}

/// The distinct beneficiaries of the first `count` blocks, in the order in
/// which they first appear.
pub open spec fn beneficiaries(blocks: Seq<BlockFacts>, count: nat) -> Seq<Seq<u8>>
    decreases count,
{
    if count == 0 {
        Seq::empty()
    } else {
        let earlier = beneficiaries(blocks, (count - 1) as nat);
        match beneficiary(blocks[count - 1]) {
            Some(lock) => if earlier.contains(lock) {
                earlier
            } else {
                earlier.push(lock)
            },
            None => earlier,
        }
    }
}

/// The reward totals of a scan: each distinct beneficiary with the sum of the
/// rewards credited to it.
pub open spec fn reward_entries(blocks: Seq<BlockFacts>, rewards: Seq<u64>) -> Seq<
    (Seq<u8>, u64),
> {
    let locks = beneficiaries(blocks, rewards.len());
    Seq::new(locks.len(), |i: int| (locks[i], credited_to(locks[i], blocks, rewards) as u64))
}

/// Whether every lock among the entries is a script whose argument bytes can
/// be read.
pub open spec fn readable(entries: Seq<(Seq<u8>, u64)>) -> bool {
    forall|i: int| 0 <= i < entries.len() ==> (#[trigger] script_args(entries[i].0)) is Some
}

/// Blocks past the credited ones do not change what a lock is credited.
pub proof fn lemma_credited_to_extends(
    lock: Seq<u8>,
    blocks: Seq<BlockFacts>,
    longer: Seq<BlockFacts>,
    rewards: Seq<u64>,
)
    requires
        rewards.len() <= blocks.len() <= longer.len(),
        forall|i: int| 0 <= i < rewards.len() ==> blocks[i] == longer[i],
    ensures
        credited_to(lock, blocks, rewards) == credited_to(lock, longer, rewards),
    decreases rewards.len(),
{
    if rewards.len() > 0 {
        lemma_credited_to_extends(lock, blocks, longer, rewards.drop_last());
    }
}

/// Blocks past the counted ones do not change the beneficiaries.
pub proof fn lemma_beneficiaries_extends(
    blocks: Seq<BlockFacts>,
    longer: Seq<BlockFacts>,
    count: nat,
)
    requires
        count <= blocks.len() <= longer.len(),
        forall|i: int| 0 <= i < count ==> blocks[i] == longer[i],
    ensures
        beneficiaries(blocks, count) == beneficiaries(longer, count),
    decreases count,
{
    if count > 0 {
        lemma_beneficiaries_extends(blocks, longer, (count - 1) as nat);
    }
}

/// What a lock is credited never shrinks as more rewards are credited.
pub proof fn lemma_credited_to_grows(
    lock: Seq<u8>,
    blocks: Seq<BlockFacts>,
    rewards: Seq<u64>,
    n: int,
)
    requires
        0 <= n <= rewards.len(),
    ensures
        credited_to(lock, blocks, rewards.take(n)) <= credited_to(lock, blocks, rewards),
    decreases rewards.len() - n,
{
    if n == rewards.len() {
        assert(rewards.take(n) =~= rewards);
    } else {
        lemma_credited_to_grows(lock, blocks, rewards, n + 1);
        assert(rewards.take(n + 1).drop_last() =~= rewards.take(n));
    }
}

/// The error with which step `k` of a scan over `blocks` fails when every
/// earlier step went through: block `k + 1` must come at position `k`, and
/// from position `maturity` on, the reward that comes with the block is
/// credited to the beneficiary of the block one maturity offset back.
pub open spec fn step_failure(
    blocks: Seq<BlockFacts>,
    rewards: Seq<u64>,
    maturity: nat,
    k: int,
) -> Option<ScanError> {
    if blocks[k].number != k + 1 {
        Some(ScanError::WrongBlock)
    } else if k < maturity {
        None
    } else {
        let j = k - maturity;
        match blocks[j].cellbase_witness {
            None => Some(ScanError::MissingWitness),
            Some(witness) => match cellbase_lock(witness) {
                None => Some(ScanError::MalformedWitness),
                Some(lock) => if credited_to(lock, blocks, rewards.take(j)) + rewards[j]
                    > u64::MAX {
                    Some(ScanError::Overflow)
                } else {
                    None
                },
            },
        }
    }
}

/// Whether a scan over `blocks` fails with `error`: the first step that
/// fails, fails with it.
pub open spec fn scan_fails_with(
    blocks: Seq<BlockFacts>,
    rewards: Seq<u64>,
    maturity: nat,
    error: ScanError,
) -> bool {
    exists|k: int|
        0 <= k < blocks.len() && #[trigger] step_failure(blocks, rewards, maturity, k) == Some(
            error,
        ) && forall|i: int| 0 <= i < k ==> (#[trigger] step_failure(blocks, rewards, maturity, i))
            is None
}

/// Whether every step of a scan over `blocks` goes through.
pub open spec fn scan_succeeds(blocks: Seq<BlockFacts>, rewards: Seq<u64>, maturity: nat) -> bool {
    forall|k: int|
        0 <= k < blocks.len() ==> (#[trigger] step_failure(blocks, rewards, maturity, k)) is None
}

/// In a scan that goes through, what is credited to a lock fits in 64 bits
/// after every step.
proof fn lemma_running_totals_fit(
    blocks: Seq<BlockFacts>,
    rewards: Seq<u64>,
    maturity: nat,
    lock: Seq<u8>,
    n: int,
)
    requires
        blocks.len() == rewards.len() + maturity,
        scan_succeeds(blocks, rewards, maturity),
        0 <= n <= rewards.len(),
    ensures
        credited_to(lock, blocks, rewards.take(n)) <= u64::MAX,
    decreases n,
{
    if n > 0 {
        let j = n - 1;
        lemma_running_totals_fit(blocks, rewards, maturity, lock, j);
        assert(step_failure(blocks, rewards, maturity, j + maturity) is None);
        assert(rewards.take(n).drop_last() =~= rewards.take(j));
    }
}

/// Summing rewards beyond the 64-bit range fails: a scan in which some
/// beneficiary is credited more than 64 bits hold does not go through.
pub proof fn law_overflow_is_detected(
    blocks: Seq<BlockFacts>,
    rewards: Seq<u64>,
    maturity: nat,
    lock: Seq<u8>,
)
    requires
        blocks.len() == rewards.len() + maturity,
        credited_to(lock, blocks, rewards) > u64::MAX,
    ensures
        !scan_succeeds(blocks, rewards, maturity),
{
    if scan_succeeds(blocks, rewards, maturity) {
        lemma_running_totals_fit(blocks, rewards, maturity, lock, rewards.len() as int);
        assert(rewards.take(rewards.len() as int) =~= rewards);
    }
}

/// The state of a scan.
pub struct RewardScan {
    maturity: u64,
    endpoint: u64,
    count: u64,
    window: Window,
    totals: RewardTotals,
    anchor: Option<Block>,
    blocks: Ghost<Seq<BlockFacts>>,
    rewards: Ghost<Seq<u64>>,
}

impl RewardScan {
    /// The maturity offset: how many blocks lie between a block and the block
    /// whose reward goes to its beneficiary.
    pub closed spec fn maturity(&self) -> nat {
        self.maturity as nat
    }

    /// The number of the last block whose beneficiary is credited.
    pub closed spec fn endpoint(&self) -> nat {
        self.endpoint as nat
    }

    /// The blocks seen so far, in order.
    pub closed spec fn blocks(&self) -> Seq<BlockFacts> {
        self.blocks@
    }

    /// The primary rewards credited so far, in order.
    pub closed spec fn rewards(&self) -> Seq<u64> {
        self.rewards@
    }

    /// The blocks in the lag window, oldest first.
    pub closed spec fn window(&self) -> Seq<BlockFacts> {
        self.window@
    }

    /// The reward totals so far, by lock.
    pub closed spec fn totals(&self) -> Map<Seq<u8>, u64> {
        self.totals@
    }

    /// The entries of the reward totals, in the order of first credit.
    pub closed spec fn entries(&self) -> Seq<(Seq<u8>, u64)> {
        self.totals.entries()
    }

    /// The block that the final step kept back, if it has been taken.
    pub closed spec fn anchor(&self) -> Option<BlockFacts> {
        match self.anchor {
            Some(block) => Some(block@),
            None => None,
        }
    }

    /// The number of blocks that the whole scan sees.
    pub open spec fn span(&self) -> nat {
        self.endpoint() + self.maturity()
    }

    /// The invariant of a scan.
    pub closed spec fn well_formed(&self) -> bool {
        &&& 0 < self.maturity
        &&& self.endpoint + self.maturity <= u64::MAX
        &&& self.count == self.blocks@.len()
        &&& self.count <= self.endpoint + self.maturity
        &&& self.window.well_formed()
        &&& self.window.capacity() == self.maturity
        &&& self.window.seen() == self.blocks@.len()
        &&& self.window@ == tail(self.blocks@, self.maturity as nat)
        &&& forall|i: int| 0 <= i < self.blocks@.len() ==> (#[trigger] self.blocks@[i]).number == i + 1
        &&& self.rewards@.len() == if self.count >= self.maturity {
            self.count - self.maturity
        } else {
            0
        }
        &&& forall|j: int|
            0 <= j < self.rewards@.len() ==> (#[trigger] beneficiary(self.blocks@[j])) is Some
        &&& self.totals.well_formed()
        &&& self.totals.keys() == beneficiaries(self.blocks@, self.rewards@.len())
        &&& forall|i: int|
            0 <= i < self.totals.keys().len() ==> (#[trigger] script_args(self.totals.keys()[i]))
                is Some
        &&& forall|lock: Seq<u8>|
            held(self.totals@, lock) == #[trigger] credited_to(lock, self.blocks@, self.rewards@)
        &&& if self.count == self.endpoint + self.maturity && self.endpoint > 0 {
            self.anchor matches Some(block) && block@ == self.blocks@[self.endpoint - 1]
        } else {
            self.anchor is None
        }
    }

    /// What the invariant says of a scan, over its public state.
    pub proof fn lemma_well_formed(&self)
        requires
            self.well_formed(),
        ensures
            0 < self.maturity(),
            self.span() <= u64::MAX,
            self.blocks().len() <= self.span(),
            self.window() == tail(self.blocks(), self.maturity()),
            forall|i: int|
                0 <= i < self.blocks().len() ==> (#[trigger] self.blocks()[i]).number == i + 1,
            self.rewards().len() == if self.blocks().len() >= self.maturity() {
                self.blocks().len() - self.maturity()
            } else {
                0
            },
            forall|j: int|
                0 <= j < self.rewards().len() ==> (#[trigger] beneficiary(self.blocks()[j]))
                    is Some,
            forall|lock: Seq<u8>|
                held(self.totals(), lock) == #[trigger] credited_to(
                    lock,
                    self.blocks(),
                    self.rewards(),
                ),
            self.entries() == reward_entries(self.blocks(), self.rewards()),
            readable(self.entries()),
            self.anchor() == if self.blocks().len() == self.span() && self.endpoint() > 0 {
                Some(self.blocks()[self.endpoint() - 1])
            } else {
                None
            },
    {
        self.totals.lemma_entries();
    }

    /// The lag window holds the most recent blocks, as many as the maturity
    /// offset or as many as have been seen, whichever is less.
    pub proof fn law_window_length(&self)
        requires
            self.well_formed(),
        ensures
            self.window().len() == crate::window::least(self.maturity(), self.blocks().len()),
            self.window().len() <= self.maturity(),
            self.window() == tail(self.blocks(), self.maturity()),
    {
    }

    /// The reward that comes with block `N` is credited to the beneficiary
    /// named by block `N - maturity`: reward `j` came with the block at
    /// position `j + maturity`, and the block at position `j`, whose number is
    /// smaller by exactly the maturity offset, names who is credited.
    pub proof fn law_attribution_offset(&self, j: int)
        requires
            self.well_formed(),
            0 <= j < self.rewards().len(),
        ensures
            j + self.maturity() < self.blocks().len(),
            self.blocks()[j].number + self.maturity() == self.blocks()[j
                + self.maturity()].number,
            beneficiary(self.blocks()[j]) is Some,
            credited_to(beneficiary(self.blocks()[j])->0, self.blocks(), self.rewards())
                >= self.rewards()[j],
    {
        let lock = beneficiary(self.blocks@[j])->0;
        lemma_credited_to_grows(lock, self.blocks@, self.rewards@, j + 1);
    }

    /// A scan that credits the beneficiaries of blocks 1 to `endpoint`, or
    /// `None` where the maturity offset is zero or too large for a window, or
    /// where the last block number does not fit in 64 bits.
    pub fn new(maturity: u64, endpoint: u64) -> (made: Option<RewardScan>)
        ensures
            made is None <==> maturity == 0 || maturity >= usize::MAX || endpoint + maturity
                > u64::MAX,
            made matches Some(scan) ==> {
                &&& scan.well_formed()
                &&& scan.maturity() == maturity
                &&& scan.endpoint() == endpoint
                &&& scan.blocks() == Seq::<BlockFacts>::empty()
                &&& scan.rewards() == Seq::<u64>::empty()
            },
    {
        if maturity == 0 || maturity >= usize::MAX as u64 || endpoint > u64::MAX - maturity {
            return None;
        }
        match Window::new(maturity as usize) {
            Some(window) => {
                let scan = RewardScan {
                    maturity,
                    endpoint,
                    count: 0,
                    window,
                    totals: CapacityMap::new(),
                    anchor: None,
                    blocks: Ghost(Seq::empty()),
                    rewards: Ghost(Seq::empty()),
                };
                proof {
                    assert(scan.window@ =~= tail(scan.blocks@, maturity as nat));
                }
                Some(scan)
            },
            None => None,
        }
    }

    /// What the scan needs next: while fewer blocks than the maturity offset
    /// have been seen, the next block alone; then the next block with its
    /// primary reward; and nothing once block `endpoint + maturity` was seen.
    pub fn demand(&self) -> (next: Demand)
        requires
            self.well_formed(),
        ensures
            next == if self.blocks().len() < self.maturity() {
                Demand::Prime((self.blocks().len() + 1) as u64)
            } else if self.blocks().len() < self.span() {
                Demand::Advance((self.blocks().len() + 1) as u64)
            } else {
                Demand::Nothing
            },
    {
        if self.count < self.maturity {
            Demand::Prime(self.count + 1)
        } else if self.count < self.endpoint + self.maturity {
            Demand::Advance(self.count + 1)
        } else {
            Demand::Nothing
        }
    }

    /// The number of blocks in the lag window.
    pub fn window_len(&self) -> (count: usize)
        ensures
            count == self.window().len(),
    {
        self.window.len()
    }

    /// The error with which `prime` refuses a block, if it does.
    pub open spec fn prime_failure(&self, block: BlockFacts) -> Option<ScanError> {
        if self.blocks().len() >= self.maturity() {
            Some(ScanError::OutOfTurn)
        } else if block.number != self.blocks().len() + 1 {
            Some(ScanError::WrongBlock)
        } else {
            None
        }
    }

    /// Takes one of the first blocks, which only fill the window: no reward
    /// is credited yet.
    pub fn prime(&mut self, block: Block) -> (result: Result<(), ScanError>)
        requires
            old(self).well_formed(),
        ensures
            final(self).well_formed(),
            final(self).maturity() == old(self).maturity(),
            final(self).endpoint() == old(self).endpoint(),
            match result {
                Ok(()) => {
                    &&& old(self).prime_failure(block@) is None
                    &&& final(self).blocks() == old(self).blocks().push(block@)
                    &&& final(self).rewards() == old(self).rewards()
                    &&& final(self).totals() == old(self).totals()
                },
                Err(error) => {
                    &&& old(self).prime_failure(block@) == Some(error)
                    &&& *final(self) == *old(self)
                },
            },
    {
        if self.count >= self.maturity {
            return Err(ScanError::OutOfTurn);
        }
        if block.number != self.count + 1 {
            return Err(ScanError::WrongBlock);
        }
        let ghost facts = block@;
        let ghost before = self.blocks@;
        self.window.push(block);
        self.count = self.count + 1;
        self.blocks = Ghost(before.push(facts));
        proof {
            let after = before.push(facts);
            assert(self.window@ =~= tail(after, self.maturity as nat));
        }
        Ok(())
    }

    /// The block whose beneficiary is credited next: the block one maturity
    /// offset before the block that comes next.
    pub open spec fn due(&self) -> BlockFacts {
        self.blocks()[self.blocks().len() - self.maturity()]
    }

    /// The error with which `advance` refuses a block and its reward, if it does.
    pub open spec fn advance_failure(&self, block: BlockFacts, primary: u64) -> Option<
        ScanError,
    > {
        if !(self.maturity() <= self.blocks().len() < self.span()) {
            Some(ScanError::OutOfTurn)
        } else if block.number != self.blocks().len() + 1 {
            Some(ScanError::WrongBlock)
        } else {
            match self.due().cellbase_witness {
                None => Some(ScanError::MissingWitness),
                Some(witness) => match cellbase_lock(witness) {
                    None => Some(ScanError::MalformedWitness),
                    Some(lock) => if credited_to(lock, self.blocks(), self.rewards()) + primary
                        > u64::MAX {
                        Some(ScanError::Overflow)
                    } else {
                        None
                    },
                },
            }
        }
    }

    /// Takes the next block with its primary reward. The reward is credited
    /// to the beneficiary of the oldest block in the window, which lies one
    /// maturity offset back; that block then leaves the window. The block
    /// that leaves on the final step is kept as the anchor.
    pub fn advance(&mut self, block: Block, primary: u64) -> (result: Result<(), ScanError>)
        requires
            old(self).well_formed(),
        ensures
            final(self).well_formed(),
            final(self).maturity() == old(self).maturity(),
            final(self).endpoint() == old(self).endpoint(),
            match result {
                Ok(()) => {
                    &&& old(self).advance_failure(block@, primary) is None
                    &&& final(self).blocks() == old(self).blocks().push(block@)
                    &&& final(self).rewards() == old(self).rewards().push(primary)
                    &&& beneficiary(old(self).due()) matches Some(lock)
                    &&& final(self).totals() == old(self).totals().insert(
                        lock,
                        (held(old(self).totals(), lock) + primary) as u64,
                    )
                },
                Err(error) => {
                    &&& old(self).advance_failure(block@, primary) == Some(error)
                    &&& *final(self) == *old(self)
                },
            },
    {
        if self.count < self.maturity || self.count >= self.endpoint + self.maturity {
            return Err(ScanError::OutOfTurn);
        }
        if block.number != self.count + 1 {
            return Err(ScanError::WrongBlock);
        }
        let ghost before = self.blocks@;
        let ghost credited = self.rewards@;
        let ghost facts = block@;
        let lock = match &self.window.oldest().cellbase_witness {
            Some(witness) => match parse_cellbase_lock(witness) {
                Some(lock) => lock,
                None => {
                    return Err(ScanError::MalformedWitness);
                },
            },
            None => {
                return Err(ScanError::MissingWitness);
            },
        };
        if self.totals.credit(&lock, primary).is_err() {
            return Err(ScanError::Overflow);
        }
        let evicted = self.window.push(block);
        self.count = self.count + 1;
        if self.count == self.endpoint + self.maturity {
            self.anchor = evicted;
        }
        self.blocks = Ghost(before.push(facts));
        self.rewards = Ghost(credited.push(primary));
        proof {
            let after = before.push(facts);
            let paid = credited.push(primary);
            assert(self.window@ =~= tail(after, self.maturity as nat));
            assert(paid.drop_last() =~= credited);
            assert forall|k: Seq<u8>|
                held(self.totals@, k) == #[trigger] credited_to(k, after, paid) by {
                lemma_credited_to_extends(k, before, after, credited);
            }
            lemma_beneficiaries_extends(before, after, credited.len());
        }
        Ok(())
    }

    /// Ends the scan once every block has been seen, and hands out the reward
    /// totals and the anchor block: the block that left the window on the
    /// final step or, where no step was due, the oldest block in the window.
    pub fn finish(self) -> (result: Result<(RewardTotals, Block), ScanError>)
        requires
            self.well_formed(),
        ensures
            match result {
                Ok((totals, anchor)) => {
                    &&& self.blocks().len() == self.span()
                    &&& totals.well_formed()
                    &&& totals.entries() == reward_entries(self.blocks(), self.rewards())
                    &&& readable(totals.entries())
                    &&& anchor@ == self.blocks()[if self.endpoint() == 0 {
                        0
                    } else {
                        self.endpoint() - 1
                    }]
                },
                Err(error) => error == ScanError::OutOfTurn && self.blocks().len() != self.span(),
            },
    {
        proof {
            self.lemma_well_formed();
        }
        if self.count != self.endpoint + self.maturity {
            return Err(ScanError::OutOfTurn);
        }
        let RewardScan { anchor, window, totals, .. } = self;
        match anchor {
            Some(block) => Ok((totals, block)),
            None => Ok((totals, window.oldest().duplicate())),
        }
    }
}

} // verus!
