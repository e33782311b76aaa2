//! A table from byte-string keys to capacities, in the order in which the keys
//! were first credited. It serves both as the running reward totals of the
//! scan, keyed by lock, and as the allocation that the caller owns, keyed by
//! the lock's argument bytes.
//!
//! The keys are byte strings, for which the standard maps have no key model
//! to prove against; so the table is two vectors, searched in order, with
//! the invariant that no key occurs twice.

use crate::bytes::{bytes_copy, bytes_eq};
use vstd::prelude::*;

verus! {

/// A checked addition of capacities left the 64-bit range.
#[derive(Clone, Copy, Debug, PartialEq, Eq, Structural)]
pub struct Overflow;

/// What a table holds for a key: its capacity, or zero when the key is absent.
pub open spec fn held(table: Map<Seq<u8>, u64>, key: Seq<u8>) -> nat {
    if table.contains_key(key) {
        table[key] as nat
    } else {
        0
    }
}

/// The table that pairs each key with the amount at the same position.
pub open spec fn table_of(keys: Seq<Seq<u8>>, amounts: Seq<u64>) -> Map<Seq<u8>, u64> {
    Map::new(|key: Seq<u8>| keys.contains(key), |key: Seq<u8>| amounts[keys.index_of(key)])
}

/// The sum of a sequence of capacities.
pub open spec fn sum_of(amounts: Seq<u64>) -> nat
    decreases amounts.len(),
{
    if amounts.len() == 0 {
        0
    } else {
        sum_of(amounts.drop_last()) + amounts.last() as nat
    }
}

/// Replacing one capacity changes the sum by the difference.
proof fn lemma_sum_of_update(amounts: Seq<u64>, index: int, amount: u64)
    requires
        0 <= index < amounts.len(),
    ensures
        sum_of(amounts.update(index, amount)) + amounts[index] == sum_of(amounts) + amount,
    decreases amounts.len(),
{
    let updated = amounts.update(index, amount);
    if index == amounts.len() - 1 {
        assert(updated.drop_last() =~= amounts.drop_last());
    } else {
        lemma_sum_of_update(amounts.drop_last(), index, amount);
        assert(updated.drop_last() =~= amounts.drop_last().update(index, amount));
    }
}

/// Capacities by key. No key occurs twice.
pub struct CapacityMap {
    keys: Vec<Vec<u8>>,
    amounts: Vec<u64>,
}

/// The running totals of a reward scan: capacities by serialized lock.
pub type RewardTotals = CapacityMap;

/// The allocation that the caller owns: capacities by the argument bytes of
/// the beneficiaries' locks.
pub type AllocationMap = CapacityMap;

impl View for CapacityMap {
    type V = Map<Seq<u8>, u64>;

    /// The table as a mathematical map.
    open spec fn view(&self) -> Map<Seq<u8>, u64> {
        table_of(self.keys(), self.amounts())
    }
}

impl CapacityMap {
    /// The keys, in the order in which they were first credited.
    pub closed spec fn keys(&self) -> Seq<Seq<u8>> {
        self.keys@.map_values(|key: Vec<u8>| key@)
    }

    /// The capacities, each at the position of its key.
    pub closed spec fn amounts(&self) -> Seq<u64> {
        self.amounts@
    }

    /// The keys paired with their capacities, in the order of the keys.
    pub open spec fn entries(&self) -> Seq<(Seq<u8>, u64)> {
        Seq::new(self.keys().len(), |i: int| (self.keys()[i], self.amounts()[i]))
    }

    /// The sum of all capacities in the table.
    pub open spec fn total(&self) -> nat {
        sum_of(self.amounts())
    }

    /// Every key has one capacity, and no key occurs twice.
    pub closed spec fn well_formed(&self) -> bool {
        &&& self.keys.len() == self.amounts.len()
        &&& self.keys().no_duplicates()
    }

    /// In a well-formed table every key is held, with the capacity at its position.
    pub proof fn lemma_entries(&self)
        requires
            self.well_formed(),
        ensures
            self.keys().len() == self.amounts().len(),
            self.entries().len() == self.keys().len(),
            forall|i: int|
                0 <= i < self.keys().len() ==> self@.contains_key(#[trigger] self.keys()[i])
                    && self@[self.keys()[i]] == self.amounts()[i],
    {
    }

    /// Two well-formed tables that agree as maps hold the same entries, in
    /// whatever order.
    pub proof fn lemma_same_table_same_entries(&self, other: &CapacityMap)
        requires
            self.well_formed(),
            other.well_formed(),
            self@ == other@,
        ensures
            self.entries().to_multiset() == other.entries().to_multiset(),
    {
        broadcast use vstd::seq_lib::group_to_multiset_ensures;

        self.entries().lemma_multiset_has_no_duplicates();
        other.entries().lemma_multiset_has_no_duplicates();
        assert forall|entry: (Seq<u8>, u64)|
            self.entries().to_multiset().count(entry) == other.entries().to_multiset().count(
                entry,
            ) by {
            self.lemma_entry_held(entry);
            other.lemma_entry_held(entry);
        }
    }

    /// An entry is among the entries of a well-formed table exactly when the
    /// table holds its key with its capacity.
    proof fn lemma_entry_held(&self, entry: (Seq<u8>, u64))
        requires
            self.well_formed(),
        ensures
            self.entries().contains(entry) <==> self@.contains_key(entry.0) && self@[entry.0]
                == entry.1,
    {
        if self@.contains_key(entry.0) && self@[entry.0] == entry.1 {
            let i = self.keys().index_of(entry.0);
            assert(self.entries()[i] == entry);
        }
    }

    /// An empty table.
    pub fn new() -> (table: CapacityMap)
        ensures
            table.well_formed(),
            table.keys() == Seq::<Seq<u8>>::empty(),
            table.amounts() == Seq::<u64>::empty(),
            table@ == Map::<Seq<u8>, u64>::empty(),
    {
        let table = CapacityMap { keys: Vec::new(), amounts: Vec::new() };
        table
    }

    /// The number of keys.
    pub fn len(&self) -> (count: usize)
        requires
            self.well_formed(),
        ensures
            count == self.keys().len(),
            count == self.amounts().len(),
    {
        self.keys.len()
    }

    /// The key at a position.
    pub fn key(&self, index: usize) -> (key: &Vec<u8>)
        requires
            index < self.keys().len(),
        ensures
            key@ == self.keys()[index as int],
    {
        &self.keys[index]
    }

    /// The capacity at a position.
    pub fn amount(&self, index: usize) -> (amount: u64)
        requires
            index < self.amounts().len(),
        ensures
            amount == self.amounts()[index as int],
    {
        self.amounts[index]
    }

    /// A copy of the table.
    pub fn duplicate(&self) -> (copy: CapacityMap)
        requires
            self.well_formed(),
        ensures
            copy.well_formed(),
            copy.keys() == self.keys(),
            copy.amounts() == self.amounts(),
            copy@ == self@,
    {
        let mut keys: Vec<Vec<u8>> = Vec::with_capacity(self.keys.len());
        let mut amounts: Vec<u64> = Vec::with_capacity(self.keys.len());
        let mut i: usize = 0;
        while i < self.keys.len()
            invariant
                self.keys.len() == self.amounts.len(),
                0 <= i <= self.keys.len(),
                keys.len() == i,
                amounts@ == self.amounts@.take(i as int),
                forall|j: int| 0 <= j < i ==> keys@[j]@ == self.keys@[j]@,
            decreases self.keys.len() - i,
        {
            keys.push(bytes_copy(&self.keys[i]));
            amounts.push(self.amounts[i]);
            i = i + 1;
        }
        let copy = CapacityMap { keys, amounts };
        proof {
            assert(copy.keys() =~= self.keys());
        }
        copy
    }

    /// The position of a key, if the table holds it.
    fn position(&self, key: &Vec<u8>) -> (found: Option<usize>)
        ensures
            match found {
                Some(index) => index < self.keys().len() && self.keys()[index as int] == key@,
                None => !self.keys().contains(key@),
            },
    {
        let mut i: usize = 0;
        while i < self.keys.len()
            invariant
                0 <= i <= self.keys.len(),
                forall|j: int| 0 <= j < i ==> self.keys()[j] != key@,
            decreases self.keys.len() - i,
        {
            if bytes_eq(&self.keys[i], key) {
                return Some(i);
            }
            i = i + 1;
        }
        None
    }

    /// The capacity held for a key, if any.
    pub fn get(&self, key: &Vec<u8>) -> (found: Option<u64>)
        requires
            self.well_formed(),
        ensures
            found == if self@.contains_key(key@) {
                Some(self@[key@])
            } else {
                None
            },
    {
        match self.position(key) {
            Some(index) => {
                Some(self.amounts[index])
            },
            None => None,
        }
    }

    /// Adds `amount` to what the table holds for `key`, entering the key when
    /// it is new. When the sum leaves the 64-bit range the table is unchanged.
    pub fn credit(&mut self, key: &Vec<u8>, amount: u64) -> (result: Result<(), Overflow>)
        requires
            old(self).well_formed(),
        ensures
            final(self).well_formed(),
            match result {
                Ok(()) => {
                    &&& held(old(self)@, key@) + amount <= u64::MAX
                    &&& final(self)@ == old(self)@.insert(
                        key@,
                        (held(old(self)@, key@) + amount) as u64,
                    )
                    &&& final(self).keys() == if old(self)@.contains_key(key@) {
                        old(self).keys()
                    } else {
                        old(self).keys().push(key@)
                    }
                    &&& final(self).total() == old(self).total() + amount
                },
                Err(_) => {
                    &&& held(old(self)@, key@) + amount > u64::MAX
                    &&& *final(self) == *old(self)
                },
            },
    {
        match self.position(key) {
            Some(index) => {
                match self.amounts[index].checked_add(amount) {
                    Some(sum) => {
                        let ghost before = *self;
                        self.amounts.set(index, sum);
                        proof {
                            lemma_sum_of_update(before.amounts(), index as int, sum);
                        }
                        Ok(())
                    },
                    None => Err(Overflow),
                }
            },
            None => {
                let ghost before = *self;
                self.keys.push(bytes_copy(key));
                self.amounts.push(amount);
                proof {
                    assert(self.amounts().drop_last() =~= before.amounts());
                    assert(self.keys() =~= before.keys().push(key@));
                    assert forall|k: Seq<u8>| self@.contains_key(k) <==> before@.insert(
                        key@,
                        amount,
                    ).contains_key(k) by {
                        if before.keys().contains(k) {
                            let j = before.keys().index_of(k);
                            assert(self.keys()[j] == k);
                        }
                        if k == key@ {
                            assert(self.keys()[before.keys().len() as int] == k);
                        }
                    }
                }
                Ok(())
            },
        }
    }
}

} // verus!
