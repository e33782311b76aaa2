use ckb_types::packed::{Byte, CellbaseWitness, Script};
use ckb_types::prelude::{Builder, Entity};
use genesis_explorer::chain::Block;
use genesis_explorer::scan::{Demand, RewardScan, ScanError};
use genesis_explorer::window::Window;

fn lock(args: &[u8], hash_type: u8) -> Vec<u8> {
    Script::new_builder().hash_type(Byte::new(hash_type)).args(args).build().as_slice().to_vec()
}

fn witness(args: &[u8], hash_type: u8) -> Vec<u8> {
    let script = Script::new_builder().hash_type(Byte::new(hash_type)).args(args).build();
    CellbaseWitness::new_builder().lock(script).message(&b"mined"[..]).build().as_slice().to_vec()
}

fn block(number: u64, args: &[u8]) -> Block {
    Block {
        number,
        timestamp: 1_000 * number,
        hash: [number as u8; 32],
        cellbase_witness: Some(witness(args, 0)),
    }
}

#[test]
fn window_of_no_capacity_cannot_be_made() {
    assert!(Window::new(0).is_none());
    assert!(Window::new(1).is_some());
}

#[test]
fn window_length_is_the_lesser_of_capacity_and_blocks_seen() {
    let mut window = Window::new(11).unwrap();
    assert_eq!(window.len(), 0);
    assert!(window.front().is_none());
    for seen in 1..=40u64 {
        let evicted = window.push(block(seen, b"x"));
        assert_eq!(window.len() as u64, seen.min(11));
        assert!(window.len() <= 11);
        assert_eq!(window.is_full(), seen >= 11);
        if seen <= 11 {
            assert!(evicted.is_none());
            assert_eq!(window.front().unwrap().number, 1);
        } else {
            assert_eq!(evicted.unwrap().number, seen - 11);
            assert_eq!(window.front().unwrap().number, seen - 10);
        }
    }
}

#[test]
fn window_is_first_in_first_out() {
    let mut window = Window::new(3).unwrap();
    for number in 1..=3u64 {
        assert!(window.push(block(number, b"x")).is_none());
    }
    for number in 4..=9u64 {
        assert_eq!(window.front().unwrap().number, number - 3);
        assert_eq!(window.push(block(number, b"x")).unwrap().number, number - 3);
    }
    assert_eq!(window.len(), 3);
}

#[test]
fn scan_with_an_unusable_maturity_cannot_be_made() {
    assert!(RewardScan::new(0, 5).is_none());
    assert!(RewardScan::new(11, u64::MAX - 10).is_none());
    assert!(RewardScan::new(u64::MAX, 0).is_none());
    assert!(RewardScan::new(11, u64::MAX - 11).is_some());
}

#[test]
fn scan_demands_priming_then_rewards_then_nothing() {
    let mut scan = RewardScan::new(2, 2).unwrap();
    assert_eq!(scan.demand(), Demand::Prime(1));
    scan.prime(block(1, b"a")).unwrap();
    assert_eq!(scan.demand(), Demand::Prime(2));
    scan.prime(block(2, b"b")).unwrap();
    assert_eq!(scan.demand(), Demand::Advance(3));
    scan.advance(block(3, b"c"), 10).unwrap();
    assert_eq!(scan.demand(), Demand::Advance(4));
    scan.advance(block(4, b"d"), 20).unwrap();
    assert_eq!(scan.demand(), Demand::Nothing);
}

#[test]
fn scan_window_never_exceeds_the_maturity_offset() {
    let mut scan = RewardScan::new(11, 30).unwrap();
    assert_eq!(scan.window_len(), 0);
    for number in 1..=41u64 {
        if number <= 11 {
            scan.prime(block(number, b"x")).unwrap();
        } else {
            scan.advance(block(number, b"x"), 1).unwrap();
        }
        assert_eq!(scan.window_len() as u64, number.min(11));
    }
    assert_eq!(scan.demand(), Demand::Nothing);
}

#[test]
fn reward_goes_to_the_beneficiary_eleven_blocks_back() {
    let mut scan = RewardScan::new(11, 3).unwrap();
    for number in 1..=11u64 {
        scan.prime(block(number, &[number as u8])).unwrap();
    }
    scan.advance(block(12, &[12]), 100).unwrap();
    scan.advance(block(13, &[13]), 200).unwrap();
    scan.advance(block(14, &[14]), 300).unwrap();
    let (totals, anchor) = scan.finish().unwrap();
    assert_eq!(totals.len(), 3);
    assert_eq!(totals.get(&lock(&[1], 0)), Some(100));
    assert_eq!(totals.get(&lock(&[2], 0)), Some(200));
    assert_eq!(totals.get(&lock(&[3], 0)), Some(300));
    assert_eq!(totals.get(&lock(&[12], 0)), None);
    assert_eq!(totals.key(0), &lock(&[1], 0));
    assert_eq!(anchor.number, 3);
    assert_eq!(anchor.timestamp, 3_000);
    assert_eq!(anchor.hash, [3u8; 32]);
}

#[test]
fn rewards_of_one_beneficiary_are_summed() {
    let mut scan = RewardScan::new(2, 4).unwrap();
    scan.prime(block(1, b"a")).unwrap();
    scan.prime(block(2, b"b")).unwrap();
    scan.advance(block(3, b"a"), 1).unwrap();
    scan.advance(block(4, b"a"), 10).unwrap();
    scan.advance(block(5, b"z"), 100).unwrap();
    scan.advance(block(6, b"z"), 1_000).unwrap();
    let (totals, anchor) = scan.finish().unwrap();
    assert_eq!(totals.len(), 2);
    assert_eq!(totals.get(&lock(b"a", 0)), Some(1_101));
    assert_eq!(totals.get(&lock(b"b", 0)), Some(10));
    assert_eq!(anchor.number, 4);
}

#[test]
fn locks_that_differ_outside_the_args_are_kept_apart() {
    let mut scan = RewardScan::new(1, 2).unwrap();
    let mut second = block(2, b"a");
    second.cellbase_witness = Some(witness(b"a", 1));
    scan.prime(block(1, b"a")).unwrap();
    scan.advance(second, 5).unwrap();
    scan.advance(block(3, b"a"), 7).unwrap();
    let (totals, _) = scan.finish().unwrap();
    assert_eq!(totals.len(), 2);
    assert_eq!(totals.get(&lock(b"a", 0)), Some(5));
    assert_eq!(totals.get(&lock(b"a", 1)), Some(7));
}

#[test]
fn scan_without_steps_anchors_on_the_first_block() {
    let mut scan = RewardScan::new(3, 0).unwrap();
    for number in 1..=3u64 {
        scan.prime(block(number, b"x")).unwrap();
    }
    assert_eq!(scan.demand(), Demand::Nothing);
    let (totals, anchor) = scan.finish().unwrap();
    assert_eq!(totals.len(), 0);
    assert_eq!(anchor.number, 1);
}

#[test]
fn steps_out_of_turn_are_refused() {
    let mut scan = RewardScan::new(2, 1).unwrap();
    assert_eq!(scan.advance(block(1, b"a"), 1), Err(ScanError::OutOfTurn));
    scan.prime(block(1, b"a")).unwrap();
    scan.prime(block(2, b"a")).unwrap();
    assert_eq!(scan.prime(block(3, b"a")), Err(ScanError::OutOfTurn));
    scan.advance(block(3, b"a"), 1).unwrap();
    assert_eq!(scan.advance(block(4, b"a"), 1), Err(ScanError::OutOfTurn));
    assert_eq!(scan.prime(block(4, b"a")), Err(ScanError::OutOfTurn));
    assert!(scan.finish().is_ok());
}

#[test]
fn finishing_early_is_refused() {
    let mut scan = RewardScan::new(2, 1).unwrap();
    scan.prime(block(1, b"a")).unwrap();
    assert_eq!(scan.finish().err(), Some(ScanError::OutOfTurn));
}

#[test]
fn blocks_out_of_order_are_refused() {
    let mut scan = RewardScan::new(2, 1).unwrap();
    assert_eq!(scan.prime(block(2, b"a")), Err(ScanError::WrongBlock));
    assert_eq!(scan.prime(block(0, b"a")), Err(ScanError::WrongBlock));
    scan.prime(block(1, b"a")).unwrap();
    scan.prime(block(2, b"a")).unwrap();
    assert_eq!(scan.advance(block(4, b"a"), 1), Err(ScanError::WrongBlock));
    assert_eq!(scan.demand(), Demand::Advance(3));
    scan.advance(block(3, b"a"), 1).unwrap();
}

#[test]
fn missing_witness_is_an_error_only_when_it_is_due() {
    let mut scan = RewardScan::new(1, 2).unwrap();
    let mut bare = block(2, b"a");
    bare.cellbase_witness = None;
    scan.prime(block(1, b"a")).unwrap();
    scan.advance(bare, 1).unwrap();
    assert_eq!(scan.advance(block(3, b"a"), 1), Err(ScanError::MissingWitness));
    assert_eq!(scan.window_len(), 1);
    assert_eq!(scan.demand(), Demand::Advance(3));
}

#[test]
fn malformed_witness_is_an_error() {
    let mut scan = RewardScan::new(1, 1).unwrap();
    let mut broken = block(1, b"a");
    broken.cellbase_witness = Some(vec![1, 2, 3]);
    scan.prime(broken).unwrap();
    assert_eq!(scan.advance(block(2, b"a"), 1), Err(ScanError::MalformedWitness));
}

#[test]
fn a_lock_is_not_a_witness() {
    let mut scan = RewardScan::new(1, 1).unwrap();
    let mut broken = block(1, b"a");
    broken.cellbase_witness = Some(lock(b"a", 0));
    scan.prime(broken).unwrap();
    assert_eq!(scan.advance(block(2, b"a"), 1), Err(ScanError::MalformedWitness));
}

#[test]
fn summing_rewards_beyond_64_bits_is_an_overflow_error() {
    let mut scan = RewardScan::new(1, 3).unwrap();
    scan.prime(block(1, b"a")).unwrap();
    scan.advance(block(2, b"b"), u64::MAX - 5).unwrap();
    scan.advance(block(3, b"a"), 5).unwrap();
    assert_eq!(scan.advance(block(4, b"c"), 6), Err(ScanError::Overflow));
    assert_eq!(scan.demand(), Demand::Advance(4));
    scan.advance(block(4, b"c"), 5).unwrap();
    let (totals, anchor) = scan.finish().unwrap();
    assert_eq!(totals.get(&lock(b"a", 0)), Some(u64::MAX));
    assert_eq!(totals.get(&lock(b"b", 0)), Some(5));
    assert_eq!(totals.get(&lock(b"c", 0)), None);
    assert_eq!(anchor.number, 3);
}

#[test]
fn block_copy_keeps_every_field() {
    let source = block(7, b"seven");
    let copy = source.duplicate();
    assert_eq!(copy.number, 7);
    assert_eq!(copy.timestamp, 7_000);
    assert_eq!(copy.hash, [7u8; 32]);
    assert_eq!(copy.cellbase_witness, source.cellbase_witness);
}
