//! What holds of every allocation: dust receives nothing, the shares stay
//! within the pool, the shortfall is the sum of the truncation remainders, and
//! the order of the reward entries does not matter.

use crate::allocation::{
    allocated, allocation_failure, allotted, effective_total, endowed, grants, overdrawn, share,
    total_allotted, unreadable,
};
use crate::ledger::CapacityMap;
use crate::witness::script_args;
use vstd::prelude::*;

verus! {

/// What one beneficiary loses to rounding, in units of one `total`-th of a
/// shannon: its exact due `pool * amount / total` less its share, times `total`.
pub open spec fn remainder(amount: nat, total: nat, pool: nat) -> int {
    pool * amount - share(amount, total, pool) * total
}

/// The sum of the remainders of all surviving entries.
pub open spec fn total_remainder(
    entries: Seq<(Seq<u8>, u64)>,
    total: nat,
    pool: nat,
    threshold: u64,
) -> int
    decreases entries.len(),
{
    if entries.len() == 0 {
        0
    } else {
        total_remainder(entries.drop_last(), total, pool, threshold) + if entries.last().1
            > threshold {
            remainder(entries.last().1 as nat, total, pool)
        } else {
            0
        }
    }
}

/// A share times the total is at most the pool times the amount: rounding
/// only ever takes away.
pub proof fn lemma_remainder_nonnegative(amount: nat, total: nat, pool: nat)
    requires
        total > 0,
    ensures
        remainder(amount, total, pool) >= 0,
{
    let due = pool * amount;
    let exact = due / total;
    let unit = crate::config::BYTE_SHANNONS as nat;
    let granted = exact / unit * unit;
    assert(exact * total <= due) by (nonlinear_arith)
        requires
            total > 0,
            exact == due / total,
    ;
    assert(granted * total <= exact * total) by (nonlinear_arith)
        requires
            granted <= exact,
    ;
}

/// A key under which only dust is paid out receives nothing.
pub proof fn law_dust_receives_nothing(
    args: Seq<u8>,
    entries: Seq<(Seq<u8>, u64)>,
    total: nat,
    pool: nat,
    threshold: u64,
)
    requires
        forall|i: int|
            0 <= i < entries.len() && (#[trigger] script_args(entries[i].0)) == Some(args)
                ==> entries[i].1 <= threshold,
    ensures
        !endowed(args, entries, threshold),
        allotted(args, entries, total, pool, threshold) == 0,
    decreases entries.len(),
{
    if entries.len() > 0 {
        let rest = entries.drop_last();
        law_dust_receives_nothing(args, rest, total, pool, threshold);
    }
    if endowed(args, entries, threshold) {
        let i = choose|i: int|
            0 <= i < entries.len() && #[trigger] grants(entries[i], args, threshold);
        assert(script_args(entries[i].0) == Some(args));
    }
}

/// A key that held nothing and under which only dust is paid out is absent
/// from the allocation.
pub proof fn law_dust_is_absent(
    args: Seq<u8>,
    base: Map<Seq<u8>, u64>,
    entries: Seq<(Seq<u8>, u64)>,
    pool: u64,
    threshold: u64,
)
    requires
        !base.contains_key(args),
        forall|i: int|
            0 <= i < entries.len() && (#[trigger] script_args(entries[i].0)) == Some(args)
                ==> entries[i].1 <= threshold,
    ensures
        !allocated(base, entries, pool, threshold).contains_key(args),
{
}

/// The shares of a prefix, times the total, stay within the pool times the
/// rewards of that prefix; and the remainders make up the difference exactly.
proof fn lemma_shares_and_remainders(
    entries: Seq<(Seq<u8>, u64)>,
    total: nat,
    pool: nat,
    threshold: u64,
)
    requires
        total > 0,
    ensures
        total_allotted(entries, total, pool, threshold) * total + total_remainder(
            entries,
            total,
            pool,
            threshold,
        ) == pool * effective_total(entries, threshold),
        total_remainder(entries, total, pool, threshold) >= 0,
    decreases entries.len(),
{
    if entries.len() == 0 {
        assert(0 * total == 0) by (nonlinear_arith);
    } else {
        let rest = entries.drop_last();
        lemma_shares_and_remainders(rest, total, pool, threshold);
        let shares = total_allotted(rest, total, pool, threshold);
        let rewards = effective_total(rest, threshold);
        if entries.last().1 > threshold {
            let amount = entries.last().1 as nat;
            let granted = share(amount, total, pool);
            lemma_remainder_nonnegative(amount, total, pool);
            assert((shares + granted) * total == shares * total + granted * total)
                by (nonlinear_arith);
            assert(pool * (rewards + amount) == pool * rewards + pool * amount)
                by (nonlinear_arith);
        }
    }
}

/// The shares of all beneficiaries together never exceed the pool: an
/// allocation adds at most the pool to what the table holds in all.
pub proof fn law_shares_within_pool(entries: Seq<(Seq<u8>, u64)>, pool: nat, threshold: u64)
    ensures
        total_allotted(entries, effective_total(entries, threshold), pool, threshold) <= pool,
{
    let total = effective_total(entries, threshold);
    if total > 0 {
        lemma_shares_and_remainders(entries, total, pool, threshold);
        let shares = total_allotted(entries, total, pool, threshold);
        assert(shares <= pool) by (nonlinear_arith)
            requires
                shares * total <= pool * total,
                total > 0,
        ;
    } else {
        lemma_no_survivors(entries, pool, threshold);
    }
}

/// Where the effective total is zero, nothing survives and nothing is paid out.
proof fn lemma_no_survivors(entries: Seq<(Seq<u8>, u64)>, pool: nat, threshold: u64)
    requires
        effective_total(entries, threshold) == 0,
    ensures
        total_allotted(entries, 0, pool, threshold) == 0,
    decreases entries.len(),
{
    if entries.len() > 0 {
        lemma_no_survivors(entries.drop_last(), pool, threshold);
    }
}

/// Where at least one beneficiary survives, what the pool keeps back is the
/// sum of the truncation remainders of the beneficiaries: with `total` the
/// effective total, `(pool - shares) * total` equals the sum over the
/// survivors of `pool * amount - share * total`, none of which is negative.
pub proof fn law_shortfall_is_remainders(
    entries: Seq<(Seq<u8>, u64)>,
    pool: nat,
    threshold: u64,
)
    requires
        effective_total(entries, threshold) > 0,
    ensures
        ({
            let total = effective_total(entries, threshold);
            let shares = total_allotted(entries, total, pool, threshold);
            &&& shares <= pool
            &&& (pool - shares) * total == total_remainder(entries, total, pool, threshold)
        }),
{
    let total = effective_total(entries, threshold);
    let shares = total_allotted(entries, total, pool, threshold);
    lemma_shares_and_remainders(entries, total, pool, threshold);
    law_shares_within_pool(entries, pool, threshold);
    assert((pool - shares) * total == pool * total - shares * total) by (nonlinear_arith);
}

/// A sum of weights over a sequence.
pub open spec fn tally<E>(entries: Seq<E>, weight: spec_fn(E) -> nat) -> nat
    decreases entries.len(),
{
    if entries.len() == 0 {
        0
    } else {
        tally(entries.drop_last(), weight) + weight(entries.last())
    }
}

/// Taking one entry out of a sequence takes its weight out of the tally.
proof fn lemma_tally_remove<E>(entries: Seq<E>, weight: spec_fn(E) -> nat, i: int)
    requires
        0 <= i < entries.len(),
    ensures
        tally(entries, weight) == tally(entries.remove(i), weight) + weight(entries[i]),
    decreases entries.len(),
{
    if i < entries.len() - 1 {
        lemma_tally_remove(entries.drop_last(), weight, i);
        assert(entries.remove(i).drop_last() =~= entries.drop_last().remove(i));
    }
}

/// Two sequences with the same entries, in whatever order, tally the same.
proof fn lemma_tally_permutation<E>(a: Seq<E>, b: Seq<E>, weight: spec_fn(E) -> nat)
    requires
        a.to_multiset() == b.to_multiset(),
    ensures
        tally(a, weight) == tally(b, weight),
    decreases a.len(),
{
    broadcast use vstd::seq_lib::group_to_multiset_ensures;

    if a.len() == 0 {
        vstd::seq_lib::to_multiset_len(a);
    } else {
        let x = a.last();
        assert(b.to_multiset().count(x) > 0);
        let i = b.index_of(x);
        assert(a.remove(a.len() - 1) =~= a.drop_last());
        lemma_tally_permutation(a.drop_last(), b.remove(i), weight);
        lemma_tally_remove(b, weight, i);
    }
}

/// The effective total as a tally.
proof fn lemma_effective_total_is_tally(entries: Seq<(Seq<u8>, u64)>, threshold: u64)
    ensures
        effective_total(entries, threshold) == tally(
            entries,
            |e: (Seq<u8>, u64)|
                if e.1 > threshold {
                    e.1 as nat
                } else {
                    0
                },
        ),
    decreases entries.len(),
{
    if entries.len() > 0 {
        lemma_effective_total_is_tally(entries.drop_last(), threshold);
    }
}

/// What is paid out under a key as a tally.
proof fn lemma_allotted_is_tally(
    args: Seq<u8>,
    entries: Seq<(Seq<u8>, u64)>,
    total: nat,
    pool: nat,
    threshold: u64,
)
    ensures
        allotted(args, entries, total, pool, threshold) == tally(
            entries,
            |e: (Seq<u8>, u64)|
                if grants(e, args, threshold) {
                    share(e.1 as nat, total, pool)
                } else {
                    0
                },
        ),
    decreases entries.len(),
{
    if entries.len() > 0 {
        lemma_allotted_is_tally(args, entries.drop_last(), total, pool, threshold);
    }
}

/// The allocation does not depend on the order of the reward entries: two
/// sequences that hold the same entries fail alike or yield the same
/// effective total and the same allocation.
pub proof fn law_order_independent(
    a: Seq<(Seq<u8>, u64)>,
    b: Seq<(Seq<u8>, u64)>,
    base: Map<Seq<u8>, u64>,
    pool: u64,
    threshold: u64,
)
    requires
        a.to_multiset() == b.to_multiset(),
    ensures
        effective_total(a, threshold) == effective_total(b, threshold),
        allocation_failure(base, a, pool, threshold) == allocation_failure(
            base,
            b,
            pool,
            threshold,
        ),
        allocated(base, a, pool, threshold) == allocated(base, b, pool, threshold),
{
    let weight = |e: (Seq<u8>, u64)|
        if e.1 > threshold {
            e.1 as nat
        } else {
            0
        };
    lemma_effective_total_is_tally(a, threshold);
    lemma_effective_total_is_tally(b, threshold);
    lemma_tally_permutation(a, b, weight);
    let total = effective_total(a, threshold);
    assert forall|args: Seq<u8>|
        allotted(args, a, total, pool as nat, threshold) == #[trigger] allotted(
            args,
            b,
            total,
            pool as nat,
            threshold,
        ) by {
        let paid = |e: (Seq<u8>, u64)|
            if grants(e, args, threshold) {
                share(e.1 as nat, total, pool as nat)
            } else {
                0
            };
        lemma_allotted_is_tally(args, a, total, pool as nat, threshold);
        lemma_allotted_is_tally(args, b, total, pool as nat, threshold);
        lemma_tally_permutation(a, b, paid);
    }
    assert forall|args: Seq<u8>| endowed(args, a, threshold) == endowed(args, b, threshold) by {
        lemma_endowed_subset(args, a, b, threshold);
        lemma_endowed_subset(args, b, a, threshold);
    }
    lemma_unreadable_subset(a, b, threshold);
    lemma_unreadable_subset(b, a, threshold);
    assert(overdrawn(base, a, total, pool as nat, threshold) == overdrawn(
        base,
        b,
        total,
        pool as nat,
        threshold,
    )) by {
        if overdrawn(base, a, total, pool as nat, threshold) {
            let k = choose|k: Seq<u8>|
                crate::ledger::held(base, k) + #[trigger] allotted(
                    k,
                    a,
                    total,
                    pool as nat,
                    threshold,
                ) > u64::MAX;
            assert(allotted(k, a, total, pool as nat, threshold) == allotted(
                k,
                b,
                total,
                pool as nat,
                threshold,
            ));
        }
        if overdrawn(base, b, total, pool as nat, threshold) {
            let k = choose|k: Seq<u8>|
                crate::ledger::held(base, k) + #[trigger] allotted(
                    k,
                    b,
                    total,
                    pool as nat,
                    threshold,
                ) > u64::MAX;
            assert(allotted(k, a, total, pool as nat, threshold) == allotted(
                k,
                b,
                total,
                pool as nat,
                threshold,
            ));
        }
    }
}

/// Reward tables that agree as maps are allocated alike, however their
/// entries are ordered.
pub proof fn law_same_rewards_same_allocation(
    a: &CapacityMap,
    b: &CapacityMap,
    base: Map<Seq<u8>, u64>,
    pool: u64,
    threshold: u64,
)
    requires
        a.well_formed(),
        b.well_formed(),
        a@ == b@,
    ensures
        effective_total(a.entries(), threshold) == effective_total(b.entries(), threshold),
        allocation_failure(base, a.entries(), pool, threshold) == allocation_failure(
            base,
            b.entries(),
            pool,
            threshold,
        ),
        allocated(base, a.entries(), pool, threshold) == allocated(
            base,
            b.entries(),
            pool,
            threshold,
        ),
{
    a.lemma_same_table_same_entries(b);
    law_order_independent(a.entries(), b.entries(), base, pool, threshold);
}

/// A key endowed by a sequence is endowed by any sequence that holds its entries.
proof fn lemma_endowed_subset(
    args: Seq<u8>,
    a: Seq<(Seq<u8>, u64)>,
    b: Seq<(Seq<u8>, u64)>,
    threshold: u64,
)
    requires
        a.to_multiset() == b.to_multiset(),
    ensures
        endowed(args, a, threshold) ==> endowed(args, b, threshold),
{
    broadcast use vstd::seq_lib::group_to_multiset_ensures;

    if endowed(args, a, threshold) {
        let i = choose|i: int| 0 <= i < a.len() && #[trigger] grants(a[i], args, threshold);
        assert(b.to_multiset().count(a[i]) > 0);
    }
}

/// An unreadable lock in a sequence is in any sequence that holds its entries.
proof fn lemma_unreadable_subset(
    a: Seq<(Seq<u8>, u64)>,
    b: Seq<(Seq<u8>, u64)>,
    threshold: u64,
)
    requires
        a.to_multiset() == b.to_multiset(),
    ensures
        unreadable(a, threshold) ==> unreadable(b, threshold),
{
    broadcast use vstd::seq_lib::group_to_multiset_ensures;

    if unreadable(a, threshold) {
        let i = choose|i: int|
            0 <= i < a.len() && a[i].1 > threshold && (#[trigger] script_args(a[i].0)) is None;
        assert(b.to_multiset().count(a[i]) > 0);
    }
}

} // verus!
