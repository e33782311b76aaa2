//! The allocation engine: dust beneficiaries are dropped, and each survivor
//! receives its exact proportional share of the reward pool, rounded down to
//! whole coins and accumulated under the argument bytes of its lock.

use crate::config::{Config, BYTE_SHANNONS};
use crate::difficulty::Difficulty;
use crate::ledger::{held, AllocationMap, RewardTotals};
use crate::witness::{parse_script_args, script_args};
use ckb_rational::RationalU256;
use ckb_types::U256;
use vstd::prelude::*;

verus! {

/// Why an allocation could not be made.
#[derive(Clone, Copy, Debug, PartialEq, Eq, Structural)]
pub enum AllocationError {
    /// A checked addition of capacities left the 64-bit range.
    Overflow,
    /// The lock of a surviving beneficiary is no script.
    MalformedLock,
}

/// The sum of the rewards that exceed the threshold.
pub open spec fn effective_total(entries: Seq<(Seq<u8>, u64)>, threshold: u64) -> nat
    decreases entries.len(),
{
    if entries.len() == 0 {
        0
    } else {
        effective_total(entries.drop_last(), threshold) + if entries.last().1 > threshold {
            entries.last().1 as nat
        } else {
            0
        }
    }
}

/// The exact share `pool * amount / total`, rounded down.
pub open spec fn exact_share(amount: nat, total: nat, pool: nat) -> nat {
    (pool * amount) / total
}

/// The share of a beneficiary, rounded down to whole coins.
pub open spec fn share(amount: nat, total: nat, pool: nat) -> nat {
    exact_share(amount, total, pool) / (BYTE_SHANNONS as nat) * (BYTE_SHANNONS as nat)
}

/// Whether an entry survives the dust filter and pays out under `args`.
pub open spec fn grants(entry: (Seq<u8>, u64), args: Seq<u8>, threshold: u64) -> bool {
    entry.1 > threshold && script_args(entry.0) == Some(args)
}

/// What the entries pay out under `args`: the shares of the surviving locks
/// whose argument bytes are `args`.
pub open spec fn allotted(
    args: Seq<u8>,
    entries: Seq<(Seq<u8>, u64)>,
    total: nat,
    pool: nat,
    threshold: u64,
) -> nat
    decreases entries.len(),
{
    if entries.len() == 0 {
        0
    } else {
        allotted(args, entries.drop_last(), total, pool, threshold) + if grants(
            entries.last(),
            args,
            threshold,
        ) {
            share(entries.last().1 as nat, total, pool)
        } else {
            0
        }
    }
}

/// The sum of the shares of all surviving entries.
pub open spec fn total_allotted(
    entries: Seq<(Seq<u8>, u64)>,
    total: nat,
    pool: nat,
    threshold: u64,
) -> nat
    decreases entries.len(),
{
    if entries.len() == 0 {
        0
    } else {
        total_allotted(entries.drop_last(), total, pool, threshold) + if entries.last().1
            > threshold {
            share(entries.last().1 as nat, total, pool)
        } else {
            0
        }
    }
}

/// Whether some surviving entry pays out under `args`.
pub open spec fn endowed(args: Seq<u8>, entries: Seq<(Seq<u8>, u64)>, threshold: u64) -> bool {
    exists|i: int| 0 <= i < entries.len() && #[trigger] grants(entries[i], args, threshold)
}

/// Whether the lock of some surviving entry cannot be read.
pub open spec fn unreadable(entries: Seq<(Seq<u8>, u64)>, threshold: u64) -> bool {
    exists|i: int|
        0 <= i < entries.len() && entries[i].1 > threshold && (#[trigger] script_args(
            entries[i].0,
        )) is None
}

/// Whether some key would hold more than 64 bits can after the allocation.
pub open spec fn overdrawn(
    base: Map<Seq<u8>, u64>,
    entries: Seq<(Seq<u8>, u64)>,
    total: nat,
    pool: nat,
    threshold: u64,
) -> bool {
    exists|args: Seq<u8>|
        held(base, args) + #[trigger] allotted(args, entries, total, pool, threshold) > u64::MAX
}

/// The error with which an allocation fails, if it does.
pub open spec fn allocation_failure(
    base: Map<Seq<u8>, u64>,
    entries: Seq<(Seq<u8>, u64)>,
    pool: u64,
    threshold: u64,
) -> Option<AllocationError> {
    let total = effective_total(entries, threshold);
    if total > u64::MAX {
        Some(AllocationError::Overflow)
    } else if unreadable(entries, threshold) {
        Some(AllocationError::MalformedLock)
    } else if overdrawn(base, entries, total, pool as nat, threshold) {
        Some(AllocationError::Overflow)
    } else {
        None
    }
}

/// The allocation after the entries have been paid out on top of `base`.
pub open spec fn allocated(
    base: Map<Seq<u8>, u64>,
    entries: Seq<(Seq<u8>, u64)>,
    pool: u64,
    threshold: u64,
) -> Map<Seq<u8>, u64> {
    let total = effective_total(entries, threshold);
    Map::new(
        |args: Seq<u8>| base.contains_key(args) || endowed(args, entries, threshold),
        |args: Seq<u8>|
            (held(base, args) + allotted(args, entries, total, pool as nat, threshold)) as u64,
    )
}

/// Computes `pool * part / whole` in exact rational arithmetic: wraps
/// `RationalU256::new`, the product of two `RationalU256` and
/// `RationalU256::into_u256` of `ckb_rational`. `new` panics on a zero
/// denominator. The operands are below 2^64, so no product leaves 256 bits;
/// the ratios are kept in lowest terms, which does not change their value,
/// and `into_u256` rounds down.
#[verifier::external_body]
fn pool_share(pool: u64, part: u64, whole: u64) -> (exact: Difficulty)
    requires
        whole != 0,
    ensures
        exact@ == (pool as nat * part as nat) / (whole as nat),
{
    let ratio = RationalU256::new(U256::from(part), U256::from(whole));
    let pool = RationalU256::new(U256::from(pool), U256::one());
    Difficulty { limbs: (pool * ratio).into_u256().0 }
}

/// The effective total of a prefix never exceeds that of the whole.
pub proof fn lemma_effective_total_prefix(entries: Seq<(Seq<u8>, u64)>, threshold: u64, n: int)
    requires
        0 <= n <= entries.len(),
    ensures
        effective_total(entries.take(n), threshold) <= effective_total(entries, threshold),
    decreases entries.len() - n,
{
    if n == entries.len() {
        assert(entries.take(n) =~= entries);
    } else {
        lemma_effective_total_prefix(entries, threshold, n + 1);
        assert(entries.take(n + 1).drop_last() =~= entries.take(n));
    }
}

/// A surviving entry is part of the effective total.
pub proof fn lemma_survivor_within_total(entries: Seq<(Seq<u8>, u64)>, threshold: u64, i: int)
    requires
        0 <= i < entries.len(),
        entries[i].1 > threshold,
    ensures
        entries[i].1 <= effective_total(entries, threshold),
{
    lemma_effective_total_prefix(entries, threshold, i + 1);
}

/// An exact share of a part of the whole is at most the pool.
pub proof fn lemma_exact_share_bound(amount: nat, total: nat, pool: nat)
    requires
        0 < total,
        amount <= total,
    ensures
        exact_share(amount, total, pool) <= pool,
        share(amount, total, pool) <= exact_share(amount, total, pool),
{
    assert((pool * amount) / total <= pool) by (nonlinear_arith)
        requires
            0 < total,
            amount <= total,
    ;
}

/// The sum of the rewards that exceed the threshold, unless it leaves the
/// 64-bit range.
pub fn effective_reward(rewards: &RewardTotals, threshold: u64) -> (total: Option<u64>)
    requires
        rewards.well_formed(),
    ensures
        match total {
            Some(t) => t == effective_total(rewards.entries(), threshold),
            None => effective_total(rewards.entries(), threshold) > u64::MAX,
        },
{
    let count = rewards.len();
    let ghost entries = rewards.entries();
    let mut total: u64 = 0;
    let mut i: usize = 0;
    while i < count
        invariant
            rewards.well_formed(),
            entries == rewards.entries(),
            count == entries.len(),
            count == rewards.amounts().len(),
            0 <= i <= count,
            total == effective_total(entries.take(i as int), threshold),
        decreases count - i,
    {
        let amount = rewards.amount(i);
        proof {
            assert(entries.take(i + 1).drop_last() =~= entries.take(i as int));
            lemma_effective_total_prefix(entries, threshold, i + 1);
        }
        if amount > threshold {
            match total.checked_add(amount) {
                Some(sum) => {
                    total = sum;
                },
                None => {
                    return None;
                },
            }
        }
        i = i + 1;
    }
    assert(entries.take(count as int) =~= entries);
    Some(total)
}

/// Pays the reward pool out to the beneficiaries in `rewards`, on top of what
/// `map` already holds, and returns the effective total of the rewards. When
/// the allocation fails, `map` is left as it was.
pub fn allocate(rewards: &RewardTotals, config: &Config, map: &mut AllocationMap) -> (result:
    Result<u64, AllocationError>)
    requires
        rewards.well_formed(),
        old(map).well_formed(),
    ensures
        final(map).well_formed(),
        match result {
            Ok(total) => {
                &&& allocation_failure(
                    old(map)@,
                    rewards.entries(),
                    config.total_reward,
                    config.threshold,
                ) is None
                &&& total == effective_total(rewards.entries(), config.threshold)
                &&& final(map)@ == allocated(
                    old(map)@,
                    rewards.entries(),
                    config.total_reward,
                    config.threshold,
                )
                &&& final(map).total() == old(map).total() + total_allotted(
                    rewards.entries(),
                    total as nat,
                    config.total_reward as nat,
                    config.threshold,
                )
            },
            Err(error) => {
                &&& allocation_failure(
                    old(map)@,
                    rewards.entries(),
                    config.total_reward,
                    config.threshold,
                ) == Some(error)
                &&& *final(map) == *old(map)
            },
        },
{
    let pool = config.total_reward;
    let threshold = config.threshold;
    let total = match effective_reward(rewards, threshold) {
        Some(t) => t,
        None => {
            return Err(AllocationError::Overflow);
        },
    };
    let count = rewards.len();
    let ghost entries = rewards.entries();
    let ghost base = map@;
    let mut work = map.duplicate();
    let mut overflowed = false;
    let mut i: usize = 0;
    while i < count
        invariant
            rewards.well_formed(),
            work.well_formed(),
            map.well_formed(),
            *map == *old(map),
            pool == config.total_reward,
            threshold == config.threshold,
            base == map@,
            entries == rewards.entries(),
            count == entries.len(),
            count == rewards.amounts().len(),
            0 <= i <= count,
            total == effective_total(entries, threshold),
            forall|j: int|
                0 <= j < i && entries[j].1 > threshold ==> (#[trigger] script_args(
                    entries[j].0,
                )) is Some,
            !overflowed ==> forall|k: Seq<u8>|
                #![trigger work@.contains_key(k)]
                #![trigger endowed(k, entries.take(i as int), threshold)]
                work@.contains_key(k) <==> base.contains_key(k) || endowed(
                    k,
                    entries.take(i as int),
                    threshold,
                ),
            !overflowed ==> forall|k: Seq<u8>|
                held(work@, k) == held(base, k) + #[trigger] allotted(
                    k,
                    entries.take(i as int),
                    total as nat,
                    pool as nat,
                    threshold,
                ),
            !overflowed ==> work.total() == map.total() + total_allotted(
                entries.take(i as int),
                total as nat,
                pool as nat,
                threshold,
            ),
            overflowed ==> overdrawn(
                base,
                entries.take(i as int),
                total as nat,
                pool as nat,
                threshold,
            ),
        decreases count - i,
    {
        let amount = rewards.amount(i);
        let ghost before = entries.take(i as int);
        let ghost after = entries.take(i + 1);
        proof {
            assert(after.drop_last() =~= before);
            if overflowed {
                let k = choose|k: Seq<u8>|
                    held(base, k) + #[trigger] allotted(
                        k,
                        before,
                        total as nat,
                        pool as nat,
                        threshold,
                    ) > u64::MAX;
                assert(held(base, k) + allotted(k, after, total as nat, pool as nat, threshold)
                    > u64::MAX);
            }
        }
        if amount > threshold {
            match parse_script_args(rewards.key(i)) {
                None => {
                    return Err(AllocationError::MalformedLock);
                },
                Some(args) => {
                    if !overflowed {
                        proof {
                            lemma_survivor_within_total(entries, threshold, i as int);
                            lemma_exact_share_bound(amount as nat, total as nat, pool as nat);
                        }
                        let exact = pool_share(pool, amount, total).low64();
                        let granted = exact / BYTE_SHANNONS * BYTE_SHANNONS;
                        let ghost earlier = work@;
                        match work.credit(&args, granted) {
                            Ok(()) => {
                                proof {
                                    assert forall|k: Seq<u8>|
                                        held(work@, k) == held(base, k) + #[trigger] allotted(
                                            k,
                                            after,
                                            total as nat,
                                            pool as nat,
                                            threshold,
                                        ) by {
                                        assert(held(earlier, k) == held(base, k) + allotted(
                                            k,
                                            before,
                                            total as nat,
                                            pool as nat,
                                            threshold,
                                        ));
                                    }
                                }
                            },
                            Err(_) => {
                                overflowed = true;
                                proof {
                                    assert(held(earlier, args@) == held(base, args@) + allotted(
                                        args@,
                                        before,
                                        total as nat,
                                        pool as nat,
                                        threshold,
                                    ));
                                    assert(held(base, args@) + allotted(
                                        args@,
                                        after,
                                        total as nat,
                                        pool as nat,
                                        threshold,
                                    ) > u64::MAX);
                                }
                            },
                        }
                    }
                },
            }
        } else {
            proof {
                if !overflowed {
                    assert forall|k: Seq<u8>|
                        held(work@, k) == held(base, k) + #[trigger] allotted(
                            k,
                            after,
                            total as nat,
                            pool as nat,
                            threshold,
                        ) by {
                        assert(held(work@, k) == held(base, k) + allotted(
                            k,
                            before,
                            total as nat,
                            pool as nat,
                            threshold,
                        ));
                    }
                }
            }
        }
        i = i + 1;
    }
    proof {
        assert(entries.take(count as int) =~= entries);
        if unreadable(entries, threshold) {
            let j = choose|j: int|
                0 <= j < entries.len() && entries[j].1 > threshold && (#[trigger] script_args(
                    entries[j].0,
                )) is None;
            assert(script_args(entries[j].0) is Some);
        }
    }
    if overflowed {
        Err(AllocationError::Overflow)
    } else {
        *map = work;
        Ok(total)
    }
}

} // verus!
