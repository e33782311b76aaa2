//! Difficulty derivation: the observed difficulty of the trailing epochs is
//! averaged and rescaled by the share of the reward pool that was judged real.
//!
//! Difficulties are 256-bit numbers. The arithmetic on them and the compact
//! encoding belong to `ckb_types`; this module holds them as plain limbs and
//! proves the derivation on top of those operations.

use ckb_types::utilities::{compact_to_difficulty, difficulty_to_compact};
use ckb_types::U256;
use vstd::prelude::*;

verus! {

/// Two to the power 64, the weight of the second limb.
pub open spec fn limb() -> nat {
    0x1_0000_0000_0000_0000nat
}

/// Two to the power 256, one more than the largest difficulty.
pub open spec fn space() -> nat {
    limb() * limb() * limb() * limb()
}

/// An unsigned 256-bit number held as four 64-bit limbs, least significant first.
#[derive(Clone, Copy, Debug)]
pub struct Difficulty {
    pub limbs: [u64; 4],
}

impl View for Difficulty {
    type V = nat;

    /// The number that the limbs stand for.
    open spec fn view(&self) -> nat {
        (self.limbs[0] as nat) + (self.limbs[1] as nat) * limb() + (self.limbs[2] as nat) * limb()
            * limb() + (self.limbs[3] as nat) * limb() * limb() * limb()
    }
}

/// Why a difficulty could not be derived.
#[derive(Clone, Copy, Debug, PartialEq, Eq, Structural)]
pub enum DifficultyError {
    /// No epoch was given to average over.
    NoEpochs,
    /// The pool that the reward is measured against is empty.
    EmptyPool,
    /// An intermediate value does not fit in 256 bits.
    Overflow,
    /// The rescaled difficulty is zero, which has no compact form.
    Zero,
}

/// The difficulty that `ckb_types` decodes from a compact target.
pub uninterp spec fn compact_difficulty(compact: u32) -> nat;

/// The compact target that `ckb_types` encodes a difficulty to.
pub uninterp spec fn difficulty_compact(difficulty: nat) -> u32;

/// The sum of a sequence of difficulties.
pub open spec fn sum(values: Seq<nat>) -> nat
    decreases values.len(),
{
    if values.len() == 0 {
        0
    } else {
        sum(values.drop_last()) + values.last()
    }
}

/// The integer average of a non-empty sequence of difficulties.
pub open spec fn average(values: Seq<nat>) -> nat {
    sum(values) / values.len()
}

/// An average difficulty raised by the safety margin of three halves and
/// scaled by `total / pool`, each division rounding down in turn.
pub open spec fn rescaled(average: nat, total: nat, pool: nat) -> nat {
    ((average * 3) / 2 * total) / pool
}

/// The views of a vector of difficulties.
pub open spec fn values_of(difficulties: Seq<Difficulty>) -> Seq<nat> {
    difficulties.map_values(|d: Difficulty| d@)
}

/// The difficulties that a sequence of compact targets decodes to.
pub open spec fn decoded(compacts: Seq<u32>) -> Seq<nat> {
    compacts.map_values(|c: u32| compact_difficulty(c))
}

/// What `rescale` returns on difficulties `values`, as a function of its inputs.
pub open spec fn rescale_spec(values: Seq<nat>, total: nat, pool: nat) -> Result<
    nat,
    DifficultyError,
> {
    if values.len() == 0 {
        Err(DifficultyError::NoEpochs)
    } else if pool == 0 {
        Err(DifficultyError::EmptyPool)
    } else if sum(values) >= space() || average(values) * 3 >= space() || (average(values) * 3) / 2
        * total >= space() {
        Err(DifficultyError::Overflow)
    } else {
        Ok(rescaled(average(values), total, pool))
    }
}

/// Wraps `compact_to_difficulty` of `ckb_types`: the result is the decoded
/// difficulty of `compact`, a function of `compact` alone.
#[verifier::external_body]
fn decode_compact(compact: u32) -> (difficulty: Difficulty)
    ensures
        difficulty@ == compact_difficulty(compact),
{
    Difficulty { limbs: compact_to_difficulty(compact).0 }
}

/// Wraps `difficulty_to_compact` of `ckb_types`, which divides by the
/// difficulty and so panics on zero: the result is the compact form of the
/// difficulty, a function of the difficulty alone.
#[verifier::external_body]
fn encode_compact(difficulty: &Difficulty) -> (compact: u32)
    requires
        difficulty@ != 0,
    ensures
        compact == difficulty_compact(difficulty@),
{
    difficulty_to_compact(U256(difficulty.limbs))
}

/// Wraps `U256::checked_add`: the sum, or `None` when it does not fit in 256 bits.
#[verifier::external_body]
fn checked_add(a: &Difficulty, b: &Difficulty) -> (sum: Option<Difficulty>)
    ensures
        match sum {
            Some(s) => s@ == a@ + b@,
            None => a@ + b@ >= space(),
        },
{
    match U256(a.limbs).checked_add(&U256(b.limbs)) {
        Some(s) => Some(Difficulty { limbs: s.0 }),
        None => None,
    }
}

/// Wraps `U256::checked_mul`: the product, or `None` when it does not fit in 256 bits.
#[verifier::external_body]
fn checked_mul(a: &Difficulty, b: &Difficulty) -> (product: Option<Difficulty>)
    ensures
        match product {
            Some(p) => p@ == a@ * b@,
            None => a@ * b@ >= space(),
        },
{
    match U256(a.limbs).checked_mul(&U256(b.limbs)) {
        Some(p) => Some(Difficulty { limbs: p.0 }),
        None => None,
    }
}

/// Wraps the division of `U256`, which panics on a zero divisor: the
/// quotient, rounded down.
#[verifier::external_body]
fn divide(a: &Difficulty, b: &Difficulty) -> (quotient: Difficulty)
    requires
        b@ != 0,
    ensures
        quotient@ == a@ / b@,
{
    Difficulty { limbs: (U256(a.limbs) / U256(b.limbs)).0 }
}

impl Difficulty {
    /// The difficulty zero.
    pub fn zero() -> (d: Difficulty)
        ensures
            d@ == 0,
    {
        Difficulty { limbs: [0, 0, 0, 0] }
    }

    /// The difficulty with the value of `x`.
    pub fn from_u64(x: u64) -> (d: Difficulty)
        ensures
            d@ == x,
    {
        Difficulty { limbs: [x, 0, 0, 0] }
    }

    /// Whether this difficulty is zero.
    pub fn is_zero(&self) -> (zero: bool)
        ensures
            zero == (self@ == 0),
    {
        self.limbs[0] == 0 && self.limbs[1] == 0 && self.limbs[2] == 0 && self.limbs[3] == 0
    }

    /// The lowest 64 bits of the number.
    pub fn low64(&self) -> (low: u64)
        ensures
            low == self@ % limb(),
    {
        proof {
            let high = (self.limbs[1] as nat) + (self.limbs[2] as nat) * limb() + (
            self.limbs[3] as nat) * limb() * limb();
            assert(self@ == high * limb() + self.limbs[0]) by (nonlinear_arith)
                requires
                    self@ == (self.limbs[0] as nat) + (self.limbs[1] as nat) * limb() + (
                    self.limbs[2] as nat) * limb() * limb() + (self.limbs[3] as nat) * limb()
                        * limb() * limb(),
                    high == (self.limbs[1] as nat) + (self.limbs[2] as nat) * limb() + (
                    self.limbs[3] as nat) * limb() * limb(),
            ;
            vstd::arithmetic::div_mod::lemma_fundamental_div_mod_converse_mod(
                self@ as int,
                limb() as int,
                high as int,
                self.limbs[0] as int,
            );
        }
        self.limbs[0]
    }

    /// Decodes a compact target into its difficulty.
    pub fn from_compact(compact: u32) -> (d: Difficulty)
        ensures
            d@ == compact_difficulty(compact),
    {
        decode_compact(compact)
    }

    /// Encodes this difficulty into compact form; zero has none.
    pub fn to_compact(&self) -> (compact: Option<u32>)
        ensures
            compact == if self@ == 0 {
                None
            } else {
                Some(difficulty_compact(self@))
            },
    {
        if self.is_zero() {
            None
        } else {
            Some(encode_compact(self))
        }
    }
}

/// The sum of a prefix never exceeds the sum of the whole.
pub proof fn lemma_sum_prefix(values: Seq<nat>, n: int)
    requires
        0 <= n <= values.len(),
    ensures
        sum(values.take(n)) <= sum(values),
    decreases values.len() - n,
{
    if n == values.len() {
        assert(values.take(n) =~= values);
    } else {
        lemma_sum_prefix(values, n + 1);
        assert(values.take(n + 1).drop_last() =~= values.take(n));
    }
}

/// Averages the difficulties, raises the average by three halves and scales
/// it by `total / pool`.
pub fn rescale(difficulties: &Vec<Difficulty>, total: u64, pool: u64) -> (result: Result<
    Difficulty,
    DifficultyError,
>)
    ensures
        match rescale_spec(values_of(difficulties@), total as nat, pool as nat) {
            Ok(value) => result matches Ok(d) && d@ == value,
            Err(error) => result == Err::<Difficulty, DifficultyError>(error),
        },
{
    let count = difficulties.len();
    if count == 0 {
        return Err(DifficultyError::NoEpochs);
    }
    if pool == 0 {
        return Err(DifficultyError::EmptyPool);
    }
    let ghost values = values_of(difficulties@);
    let mut total_difficulty = Difficulty::zero();
    let mut i: usize = 0;
    while i < count
        invariant
            count == difficulties.len(),
            values == values_of(difficulties@),
            0 <= i <= count,
            count != 0,
            pool != 0,
            total_difficulty@ == sum(values.take(i as int)),
        decreases count - i,
    {
        proof {
            assert(values.take(i + 1).drop_last() =~= values.take(i as int));
            lemma_sum_prefix(values, i + 1);
        }
        match checked_add(&total_difficulty, &difficulties[i]) {
            Some(next) => {
                total_difficulty = next;
            },
            None => {
                return Err(DifficultyError::Overflow);
            },
        }
        i = i + 1;
    }
    proof {
        assert(values.take(count as int) =~= values);
    }
    let average = divide(&total_difficulty, &Difficulty::from_u64(count as u64));
    let tripled = match checked_mul(&average, &Difficulty::from_u64(3)) {
        Some(p) => p,
        None => {
            return Err(DifficultyError::Overflow);
        },
    };
    let raised = divide(&tripled, &Difficulty::from_u64(2));
    let scaled = match checked_mul(&raised, &Difficulty::from_u64(total)) {
        Some(p) => p,
        None => {
            return Err(DifficultyError::Overflow);
        },
    };
    Ok(divide(&scaled, &Difficulty::from_u64(pool)))
}

/// What `derive_target` returns, as a function of its inputs.
pub open spec fn derive_target_spec(compacts: Seq<u32>, total: nat, pool: nat) -> Result<
    u32,
    DifficultyError,
> {
    match rescale_spec(decoded(compacts), total, pool) {
        Ok(value) => if value == 0 {
            Err(DifficultyError::Zero)
        } else {
            Ok(difficulty_compact(value))
        },
        Err(error) => Err(error),
    }
}

/// Derives the compact target of the new chain from the compact targets of
/// the trailing epochs and the reward that survived the dust filter.
pub fn derive_target(compacts: &Vec<u32>, total: u64, pool: u64) -> (result: Result<
    u32,
    DifficultyError,
>)
    ensures
        result == derive_target_spec(compacts@, total as nat, pool as nat),
{
    let mut difficulties: Vec<Difficulty> = Vec::new();
    let mut i: usize = 0;
    while i < compacts.len()
        invariant
            0 <= i <= compacts.len(),
            difficulties.len() == i,
            values_of(difficulties@) == decoded(compacts@.take(i as int)),
        decreases compacts.len() - i,
    {
        let ghost before = difficulties@;
        difficulties.push(Difficulty::from_compact(compacts[i]));
        i = i + 1;
        assert forall|j: int| 0 <= j < i implies values_of(difficulties@)[j] == decoded(
            compacts@.take(i as int),
        )[j] by {
            if j < i - 1 {
                assert(values_of(before)[j] == decoded(compacts@.take(i - 1))[j]);
            }
        }
    }
    assert(compacts@.take(i as int) =~= compacts@);
    match rescale(&difficulties, total, pool) {
        Ok(difficulty) => match difficulty.to_compact() {
            Some(compact) => Ok(compact),
            None => Err(DifficultyError::Zero),
        },
        Err(error) => Err(error),
    }
}

/// The sum of `count` copies of `value` is `count * value`.
proof fn lemma_sum_of_equal(value: nat, count: nat)
    ensures
        sum(Seq::new(count, |i: int| value)) == count * value,
    decreases count,
{
    let values = Seq::new(count, |i: int| value);
    if count > 0 {
        lemma_sum_of_equal(value, (count - 1) as nat);
        assert(values.drop_last() =~= Seq::new((count - 1) as nat, |i: int| value));
        assert(count * value == (count - 1) * value + value) by (nonlinear_arith)
            requires
                count > 0,
        ;
    } else {
        assert(count * value == 0) by (nonlinear_arith)
            requires
                count == 0,
        ;
    }
}

/// Averaging any positive number of equal difficulties yields that difficulty.
pub proof fn law_average_of_equal(value: nat, count: nat)
    requires
        count > 0,
    ensures
        average(Seq::new(count, |i: int| value)) == value,
{
    lemma_sum_of_equal(value, count);
    assert((count * value) / count == value) by (nonlinear_arith)
        requires
            count > 0,
    ;
}

/// When the surviving reward equals the whole pool, rescaling yields exactly
/// the average raised by three halves.
pub proof fn law_rescale_whole_pool(average: nat, pool: nat)
    requires
        pool > 0,
    ensures
        rescaled(average, pool, pool) == (average * 3) / 2,
{
    let raised = (average * 3) / 2;
    assert((raised * pool) / pool == raised) by (nonlinear_arith)
        requires
            pool > 0,
    ;
}

/// Equal difficulties and a surviving reward equal to the whole pool derive
/// three halves of that difficulty, whenever the intermediate values fit in
/// 256 bits.
pub proof fn law_rescale_equal_whole_pool(value: nat, count: nat, pool: nat)
    requires
        count > 0,
        pool > 0,
        count * value < space(),
        value * 3 < space(),
        (value * 3) / 2 * pool < space(),
    ensures
        rescale_spec(Seq::new(count, |i: int| value), pool, pool) == Ok::<nat, DifficultyError>(
            (value * 3) / 2,
        ),
{
    lemma_sum_of_equal(value, count);
    law_average_of_equal(value, count);
    law_rescale_whole_pool(value, pool);
}

} // verus!
