use genesis_explorer::chain::Header;
use genesis_explorer::config::{Config, DEFAULT_EPOCH_DURATION};
use genesis_explorer::estimate::{
    average_epoch_duration, estimate, launch_time, EpochSample, EstimateError, LaunchEstimate,
};

fn tip(epoch_number: u64, epoch_index: u64, epoch_length: u64) -> Header {
    Header {
        number: 10_000,
        epoch_number,
        epoch_index,
        epoch_length,
        timestamp: 1_600_000_000_000,
        hash: [0; 32],
    }
}

fn sample(first: u64, previous: u64, last: u64) -> Option<EpochSample> {
    Some(EpochSample { first, previous, last })
}

#[test]
fn young_chain_uses_the_default_epoch_duration() {
    assert_eq!(DEFAULT_EPOCH_DURATION, 14_400);
    assert_eq!(average_epoch_duration(4, 3, None), Ok(14_400));
    assert_eq!(average_epoch_duration(4, 0, sample(9, 5, 1)), Ok(14_400));
}

#[test]
fn average_epoch_duration_is_taken_from_the_sample() {
    // 4 epochs in 57_600_999 ms: 14_400_249 ms each, 14_400 s
    assert_eq!(average_epoch_duration(4, 4, sample(1_000, 2_000, 57_601_999)), Ok(14_400));
    assert_eq!(average_epoch_duration(4, 9, sample(0, 0, 1_000 * 4 * 7 + 3_999)), Ok(7));
    assert_eq!(average_epoch_duration(1, 1, sample(0, 0, u64::MAX)), Ok(u64::MAX / 1_000));
}

#[test]
fn average_epoch_duration_errors() {
    assert_eq!(average_epoch_duration(0, 5, sample(1, 2, 3)), Err(EstimateError::InvalidConfig));
    assert_eq!(average_epoch_duration(4, 4, None), Err(EstimateError::MissingSample));
    assert_eq!(average_epoch_duration(4, 4, sample(5, 1, 4)), Err(EstimateError::ClockWentBack));
}

#[test]
fn previous_epoch_starting_late_does_not_touch_the_average() {
    assert_eq!(average_epoch_duration(4, 4, sample(1, 5, 4)), Ok(0));
    assert_eq!(
        average_epoch_duration(4, 4, sample(1_000, 99_000_000, 57_601_999)),
        Ok(14_400)
    );
    // average 10_000 s; 2 epochs to go, and 10_000 * (1_800 - 1_799 + 11) / 1_800 = 66 s
    let late = sample(1_000_000, 41_000_001, 41_000_000);
    let e = estimate(&Config::mainnet(), 12, &tip(10, 1_799, 1_800), late).unwrap();
    assert_eq!(e.average_epoch_duration, 10_000);
    assert_eq!(e.remaining_seconds, 20_066);
    assert_eq!(e.last_epoch_millis, None);
    let level = sample(1_000_000, 41_000_000, 41_000_000);
    let e = estimate(&Config::mainnet(), 12, &tip(10, 1_799, 1_800), level).unwrap();
    assert_eq!(e.last_epoch_millis, Some(0));
}

#[test]
fn estimate_for_a_young_chain() {
    // 86 epochs to go at 14_400 s, and 14_400 * (1_000 - 400 + 11) / 1_000 = 8_798 s
    let e = estimate(&Config::mainnet(), 89, &tip(3, 400, 1_000), None).unwrap();
    let remaining = 86 * 14_400 + 8_798;
    assert_eq!(
        e,
        LaunchEstimate {
            average_epoch_duration: 14_400,
            last_epoch_millis: None,
            remaining_seconds: remaining,
            days: Some(14),
            hours: 10,
            minutes: 26,
            seconds: 38,
        }
    );
}

#[test]
fn estimate_from_a_sample() {
    // average 10_000 s; 2 epochs to go, and 10_000 * (1_800 - 1_799 + 11) / 1_800 = 66 s
    let s = sample(1_000_000, 31_000_000, 41_000_000);
    let e = estimate(&Config::mainnet(), 12, &tip(10, 1_799, 1_800), s).unwrap();
    assert_eq!(e.average_epoch_duration, 10_000);
    assert_eq!(e.last_epoch_millis, Some(10_000_000));
    assert_eq!(e.remaining_seconds, 20_066);
    assert_eq!(e.days, None);
    assert_eq!((e.hours, e.minutes, e.seconds), (5, 34, 26));
}

#[test]
fn estimate_inside_the_epoch_after_the_target() {
    // the tip is in epoch target + 1, short of the maturity offset:
    // -14_400 + 14_400 * (1_000 - 5 + 11) / 1_000 = 86 s
    let e = estimate(&Config::mainnet(), 2, &tip(3, 5, 1_000), None).unwrap();
    assert_eq!(e.remaining_seconds, 86);
    assert_eq!((e.days, e.hours, e.minutes, e.seconds), (None, 0, 1, 26));
}

#[test]
fn days_are_shown_only_above_one_day() {
    // one epoch of 86_400 s to go, nothing left of the current one
    let config = Config { maturity: 0, ..Config::mainnet() };
    let s = sample(0, 0, 4 * 86_400_000);
    let e = estimate(&config, 11, &tip(10, 10, 10), s).unwrap();
    assert_eq!(e.remaining_seconds, 86_400);
    assert_eq!((e.days, e.hours, e.minutes, e.seconds), (None, 0, 0, 0));
    let e = estimate(&config, 11, &tip(10, 9, 10), s).unwrap();
    assert_eq!(e.remaining_seconds, 86_400 + 8_640);
    assert_eq!((e.days, e.hours, e.minutes, e.seconds), (Some(1), 2, 24, 0));
}

#[test]
fn estimate_errors() {
    let config = Config::mainnet();
    assert_eq!(
        estimate(&Config { metric_epochs: 0, ..config }, 9, &tip(3, 0, 10), None),
        Err(EstimateError::InvalidConfig)
    );
    assert_eq!(estimate(&config, 9, &tip(4, 0, 10), None), Err(EstimateError::MissingSample));
    assert_eq!(
        estimate(&config, 9, &tip(4, 0, 10), sample(2, 1, 1)),
        Err(EstimateError::ClockWentBack)
    );
    assert_eq!(estimate(&config, 9, &tip(3, 0, 0), None), Err(EstimateError::InvalidEpochPosition));
    assert_eq!(
        estimate(&config, 9, &tip(3, 22, 10), None),
        Err(EstimateError::InvalidEpochPosition)
    );
    assert!(estimate(&config, 9, &tip(3, 21, 10), None).is_ok());
    // far past the target: the formula turns negative
    assert_eq!(estimate(&config, 1, &tip(3, 5, 1_000), None), Err(EstimateError::OutOfRange));
    // far before the target: the formula leaves 64 bits
    assert_eq!(
        estimate(&config, u64::MAX, &tip(0, 0, 1_000), None),
        Err(EstimateError::OutOfRange)
    );
}

#[test]
fn launch_time_adds_the_remaining_seconds() {
    let e = estimate(&Config::mainnet(), 2, &tip(3, 5, 1_000), None).unwrap();
    assert_eq!(launch_time(1_700_000_000, &e), Some(1_700_000_086));
    assert_eq!(launch_time(u64::MAX - 86, &e), Some(u64::MAX));
    assert_eq!(launch_time(u64::MAX - 85, &e), None);
}
