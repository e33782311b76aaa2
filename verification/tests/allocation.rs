use ckb_types::packed::{Byte, Script};
use ckb_types::prelude::{Builder, Entity};
use genesis_explorer::allocation::{allocate, effective_reward, AllocationError};
use genesis_explorer::config::{Config, BYTE_SHANNONS, THRESHOLD, TOTAL_REWARD};
use genesis_explorer::ledger::CapacityMap;

fn lock(args: &[u8], hash_type: u8) -> Vec<u8> {
    Script::new_builder().hash_type(Byte::new(hash_type)).args(args).build().as_slice().to_vec()
}

fn rewards(entries: &[(Vec<u8>, u64)]) -> CapacityMap {
    let mut table = CapacityMap::new();
    for (key, amount) in entries {
        table.credit(key, *amount).unwrap();
    }
    table
}

fn total_of(map: &CapacityMap) -> u128 {
    let mut sum = 0u128;
    for i in 0..map.len() {
        sum += map.amount(i) as u128;
    }
    sum
}

#[test]
fn constants_are_in_shannons() {
    assert_eq!(BYTE_SHANNONS, 100_000_000);
    assert_eq!(TOTAL_REWARD, 1_800_000_000_000_000);
    assert_eq!(THRESHOLD, 100_000_000_000);
    let config = Config::mainnet();
    assert!(config.is_valid());
    assert_eq!(config.total_reward, TOTAL_REWARD);
    assert_eq!(config.threshold, THRESHOLD);
    assert_eq!(config.maturity, 11);
    assert_eq!(config.metric_epochs, 4);
}

#[test]
fn degenerate_configs_are_invalid() {
    let good = Config::mainnet();
    assert!(!Config { total_reward: 0, ..good }.is_valid());
    assert!(!Config { maturity: 0, ..good }.is_valid());
    assert!(!Config { metric_epochs: 0, ..good }.is_valid());
    assert!(Config { threshold: 0, ..good }.is_valid());
}

#[test]
fn effective_reward_skips_dust() {
    let table = rewards(&[
        (vec![1], 3_000 * BYTE_SHANNONS),
        (vec![2], 500 * BYTE_SHANNONS),
        (vec![3], 7_000 * BYTE_SHANNONS),
        (vec![4], THRESHOLD),
        (vec![5], THRESHOLD + 1),
    ]);
    assert_eq!(effective_reward(&table, THRESHOLD), Some(10_000 * BYTE_SHANNONS + THRESHOLD + 1));
    assert_eq!(effective_reward(&table, u64::MAX), Some(0));
    assert_eq!(effective_reward(&CapacityMap::new(), 0), Some(0));
}

#[test]
fn effective_reward_overflow_is_detected() {
    let table = rewards(&[(vec![1], u64::MAX), (vec![2], 1)]);
    assert_eq!(effective_reward(&table, 0), None);
    assert_eq!(effective_reward(&table, 1), Some(u64::MAX));
}

#[test]
fn survivors_share_the_pool_in_proportion() {
    let a = lock(b"alice", 0);
    let b = lock(b"bob", 0);
    let c = lock(b"carol", 0);
    let table = rewards(&[
        (a, 3_000 * BYTE_SHANNONS),
        (b, 7_000 * BYTE_SHANNONS),
        (c, 500 * BYTE_SHANNONS),
    ]);
    let mut map = CapacityMap::new();
    let total = allocate(&table, &Config::mainnet(), &mut map).unwrap();
    assert_eq!(total, 10_000 * BYTE_SHANNONS);
    assert_eq!(map.len(), 2);
    assert_eq!(map.get(&b"alice".to_vec()), Some(540_000_000_000_000));
    assert_eq!(map.get(&b"bob".to_vec()), Some(1_260_000_000_000_000));
    assert_eq!(map.get(&b"carol".to_vec()), None);
}

#[test]
fn shares_are_rounded_down_to_whole_coins() {
    let table = rewards(&[
        (lock(b"a", 0), 1_001 * BYTE_SHANNONS + 1),
        (lock(b"b", 0), 2_003 * BYTE_SHANNONS + 7),
        (lock(b"c", 0), 999 * BYTE_SHANNONS),
        (lock(b"d", 0), 1_000 * BYTE_SHANNONS),
        (lock(b"e", 0), 123_456_789_012),
    ]);
    let mut map = CapacityMap::new();
    let total = allocate(&table, &Config::mainnet(), &mut map).unwrap();
    assert_eq!(total, 423_856_789_020);
    assert_eq!(map.get(&b"a".to_vec()), Some(425_096_400_000_000));
    assert_eq!(map.get(&b"b".to_vec()), Some(850_617_400_000_000));
    assert_eq!(map.get(&b"e".to_vec()), Some(524_286_000_000_000));
    assert_eq!(map.get(&b"c".to_vec()), None);
    assert_eq!(map.get(&b"d".to_vec()), None);
    assert_eq!(map.len(), 3);
    let paid = total_of(&map);
    assert_eq!(paid, 1_799_999_800_000_000);
    assert!(paid <= TOTAL_REWARD as u128);
    for i in 0..map.len() {
        assert_eq!(map.amount(i) % BYTE_SHANNONS, 0);
    }
}

#[test]
fn shortfall_is_the_sum_of_the_remainders() {
    let amounts: [u64; 3] = [1_001 * BYTE_SHANNONS + 1, 2_003 * BYTE_SHANNONS + 7, 123_456_789_012];
    let table = rewards(&[
        (lock(b"a", 0), amounts[0]),
        (lock(b"b", 0), amounts[1]),
        (lock(b"e", 0), amounts[2]),
    ]);
    let mut map = CapacityMap::new();
    let total = allocate(&table, &Config::mainnet(), &mut map).unwrap() as u128;
    let pool = TOTAL_REWARD as u128;
    let mut remainders = 0u128;
    for (i, key) in [b"a", b"b", b"e"].iter().enumerate() {
        let share = map.get(&key.to_vec()).unwrap() as u128;
        remainders += pool * amounts[i] as u128 - share * total;
    }
    assert_eq!((pool - total_of(&map)) * total, remainders);
}

#[test]
fn locks_with_the_same_args_are_summed() {
    let table = rewards(&[
        (lock(b"shared", 0), 2_000 * BYTE_SHANNONS),
        (lock(b"shared", 1), 6_000 * BYTE_SHANNONS),
    ]);
    let mut map = CapacityMap::new();
    let total = allocate(&table, &Config::mainnet(), &mut map).unwrap();
    assert_eq!(total, 8_000 * BYTE_SHANNONS);
    assert_eq!(map.len(), 1);
    assert_eq!(map.get(&b"shared".to_vec()), Some(TOTAL_REWARD));
}

#[test]
fn allocation_accumulates_on_top_of_the_map() {
    let table = rewards(&[(lock(b"x", 0), 2_000 * BYTE_SHANNONS)]);
    let mut map = CapacityMap::new();
    map.credit(&b"x".to_vec(), 5).unwrap();
    map.credit(&b"y".to_vec(), 6).unwrap();
    allocate(&table, &Config::mainnet(), &mut map).unwrap();
    assert_eq!(map.get(&b"x".to_vec()), Some(TOTAL_REWARD + 5));
    assert_eq!(map.get(&b"y".to_vec()), Some(6));
    allocate(&table, &Config::mainnet(), &mut map).unwrap();
    assert_eq!(map.get(&b"x".to_vec()), Some(2 * TOTAL_REWARD + 5));
}

#[test]
fn reward_at_the_threshold_is_dropped() {
    let table = rewards(&[(lock(b"edge", 0), THRESHOLD), (lock(b"over", 0), THRESHOLD + 1)]);
    let mut map = CapacityMap::new();
    let total = allocate(&table, &Config::mainnet(), &mut map).unwrap();
    assert_eq!(total, THRESHOLD + 1);
    assert_eq!(map.get(&b"edge".to_vec()), None);
    assert_eq!(map.get(&b"over".to_vec()), Some(TOTAL_REWARD));
}

#[test]
fn allocation_without_survivors_pays_nothing() {
    let table = rewards(&[(lock(b"tiny", 0), 1)]);
    let mut map = CapacityMap::new();
    assert_eq!(allocate(&table, &Config::mainnet(), &mut map), Ok(0));
    assert_eq!(map.len(), 0);
}

#[test]
fn allocation_does_not_depend_on_the_order_of_the_rewards() {
    let entries = vec![
        (lock(b"a", 0), 1_001 * BYTE_SHANNONS + 1),
        (lock(b"b", 0), 2_003 * BYTE_SHANNONS + 7),
        (lock(b"c", 0), 999 * BYTE_SHANNONS),
        (lock(b"a", 1), 123_456_789_012),
    ];
    let mut reversed = entries.clone();
    reversed.reverse();
    let mut first = CapacityMap::new();
    let mut second = CapacityMap::new();
    let t1 = allocate(&rewards(&entries), &Config::mainnet(), &mut first).unwrap();
    let t2 = allocate(&rewards(&reversed), &Config::mainnet(), &mut second).unwrap();
    assert_eq!(t1, t2);
    assert_eq!(first.len(), second.len());
    for key in [b"a", b"b", b"c"] {
        assert_eq!(first.get(&key.to_vec()), second.get(&key.to_vec()));
    }
    assert_eq!(first.get(&b"a".to_vec()), Some(425_096_400_000_000 + 524_286_000_000_000));
}

#[test]
fn allocation_total_overflow_is_an_error() {
    let table = rewards(&[(lock(b"a", 0), u64::MAX), (lock(b"b", 0), u64::MAX)]);
    let mut map = CapacityMap::new();
    map.credit(&b"kept".to_vec(), 9).unwrap();
    assert_eq!(allocate(&table, &Config::mainnet(), &mut map), Err(AllocationError::Overflow));
    assert_eq!(map.len(), 1);
    assert_eq!(map.get(&b"kept".to_vec()), Some(9));
}

#[test]
fn allocation_credit_overflow_is_an_error_and_changes_nothing() {
    let table = rewards(&[
        (lock(b"a", 0), 2_000 * BYTE_SHANNONS),
        (lock(b"b", 0), 2_000 * BYTE_SHANNONS),
    ]);
    let mut map = CapacityMap::new();
    map.credit(&b"b".to_vec(), u64::MAX).unwrap();
    assert_eq!(allocate(&table, &Config::mainnet(), &mut map), Err(AllocationError::Overflow));
    assert_eq!(map.len(), 1);
    assert_eq!(map.get(&b"a".to_vec()), None);
    assert_eq!(map.get(&b"b".to_vec()), Some(u64::MAX));
}

#[test]
fn allocation_of_a_malformed_lock_is_an_error() {
    let table = rewards(&[
        (lock(b"a", 0), 2_000 * BYTE_SHANNONS),
        (vec![1, 2, 3], 2_000 * BYTE_SHANNONS),
    ]);
    let mut map = CapacityMap::new();
    assert_eq!(
        allocate(&table, &Config::mainnet(), &mut map),
        Err(AllocationError::MalformedLock)
    );
    assert_eq!(map.len(), 0);
}

#[test]
fn malformed_dust_is_ignored() {
    let table = rewards(&[(lock(b"a", 0), 2_000 * BYTE_SHANNONS), (vec![1, 2, 3], 5)]);
    let mut map = CapacityMap::new();
    assert_eq!(allocate(&table, &Config::mainnet(), &mut map), Ok(2_000 * BYTE_SHANNONS));
    assert_eq!(map.get(&b"a".to_vec()), Some(TOTAL_REWARD));
}

#[test]
fn scaled_down_pool_is_shared_exactly() {
    let config = Config { total_reward: 1_000_000_007, threshold: 10, maturity: 3, metric_epochs: 2 };
    let table = rewards(&[(lock(b"a", 0), 11), (lock(b"b", 0), 22), (lock(b"c", 0), 10)]);
    let mut map = CapacityMap::new();
    assert_eq!(allocate(&table, &config, &mut map), Ok(33));
    // 1_000_000_007 / 3 = 333_333_335 and twice that, each cut to whole coins
    assert_eq!(map.get(&b"a".to_vec()), Some(300_000_000));
    assert_eq!(map.get(&b"b".to_vec()), Some(600_000_000));
}

#[test]
fn shares_match_exact_integer_arithmetic() {
    let mut state: u64 = 0x2545_f491_4f6c_dd1d;
    let mut next = || {
        state ^= state << 13;
        state ^= state >> 7;
        state ^= state << 17;
        state
    };
    for round in 0..200 {
        let config = Config {
            total_reward: next() >> (round % 40),
            threshold: next() >> 32,
            maturity: 11,
            metric_epochs: 4,
        };
        let amounts = [next() >> 3, next() >> 3, next() >> 24, next() >> 40];
        let names: [&[u8]; 4] = [b"a", b"b", b"c", b"d"];
        let mut table = CapacityMap::new();
        for (name, amount) in names.iter().zip(amounts) {
            table.credit(&lock(name, 0), amount).unwrap();
        }
        let total: u128 =
            amounts.iter().filter(|a| **a > config.threshold).map(|a| *a as u128).sum();
        let mut map = CapacityMap::new();
        assert_eq!(allocate(&table, &config, &mut map), Ok(total as u64));
        for (name, amount) in names.iter().zip(amounts) {
            let expected = if amount > config.threshold {
                let exact = config.total_reward as u128 * amount as u128 / total;
                Some((exact / BYTE_SHANNONS as u128 * BYTE_SHANNONS as u128) as u64)
            } else {
                None
            };
            assert_eq!(map.get(&name.to_vec()), expected);
        }
    }
}
