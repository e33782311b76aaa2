//! The launch-time estimator: while the precursor chain has not reached the
//! block at which the derivation can run, the time until it does is
//! estimated from the duration of the most recent epochs.

use crate::chain::Header;
use crate::config::{Config, DEFAULT_EPOCH_DURATION};
use vstd::prelude::*;

verus! {

/// The timestamps, in milliseconds, that the average epoch duration is taken from.
#[derive(Clone, Copy, Debug, PartialEq, Eq, Structural)]
pub struct EpochSample {
    /// The timestamp of the first block of the epoch that lies as many
    /// epochs back as are averaged.
    pub first: u64,
    /// The timestamp of the first block of the previous epoch. It serves the
    /// duration of the last epoch alone, not the average.
    pub previous: u64,
    /// The timestamp of the first block of the current epoch.
    pub last: u64,
}

/// Why no estimate could be made.
#[derive(Clone, Copy, Debug, PartialEq, Eq, Structural)]
pub enum EstimateError {
    /// The configuration averages over no epoch at all.
    InvalidConfig,
    /// Enough epochs have passed to measure them, but no sample was given.
    MissingSample,
    /// The current epoch starts before the first epoch of the sample did.
    ClockWentBack,
    /// The tip's epoch has no length, or the tip lies further past the end
    /// of its epoch than the maturity offset.
    InvalidEpochPosition,
    /// The estimate is negative or does not fit in 64 bits.
    OutOfRange,
}

/// An estimate of the time until the derivation can run.
#[derive(Clone, Copy, Debug, PartialEq, Eq, Structural)]
pub struct LaunchEstimate {
    /// The average duration of an epoch, in seconds.
    pub average_epoch_duration: u64,
    /// The duration of the last full epoch, in milliseconds, where it was
    /// sampled and the current epoch does not start before the previous one.
    pub last_epoch_millis: Option<u64>,
    /// The remaining time, in seconds.
    pub remaining_seconds: u64,
    /// The whole days of the remaining time, given only above one day.
    pub days: Option<u64>,
    /// The hours of the remaining time within the day.
    pub hours: u64,
    /// The minutes within the hour.
    pub minutes: u64,
    /// The seconds within the minute.
    pub seconds: u64,
}

/// The average epoch duration in seconds: the fixed default while fewer
/// epochs have passed than are averaged, else the time from the start of the
/// epoch that lies that many epochs back to the start of the current epoch,
/// divided by their number.
pub open spec fn average_duration_spec(
    metric_epochs: u64,
    epoch_number: u64,
    sample: Option<EpochSample>,
) -> Result<u64, EstimateError> {
    if metric_epochs == 0 {
        Err(EstimateError::InvalidConfig)
    } else if epoch_number < metric_epochs {
        Ok(DEFAULT_EPOCH_DURATION)
    } else {
        match sample {
            None => Err(EstimateError::MissingSample),
            Some(s) => if s.last < s.first {
                Err(EstimateError::ClockWentBack)
            } else {
                Ok(((s.last - s.first) / (metric_epochs as int) / 1000) as u64)
            },
        }
    }
}

/// The remaining seconds: the full epochs still to come, and the part of the
/// current epoch that is left plus the maturity offset.
pub open spec fn remaining_spec(target: u64, tip: Header, average: u64, maturity: u64) -> int {
    (target - tip.epoch_number) * average + (average * (tip.epoch_length - tip.epoch_index
        + maturity)) / (tip.epoch_length as int)
}

/// The remaining seconds that `estimate` reports, or the error that it fails with.
pub open spec fn remaining_seconds_spec(
    config: Config,
    target: u64,
    tip: Header,
    sample: Option<EpochSample>,
) -> Result<u64, EstimateError> {
    match average_duration_spec(config.metric_epochs, tip.epoch_number, sample) {
        Err(error) => Err(error),
        Ok(average) => if tip.epoch_length == 0 || tip.epoch_index > tip.epoch_length
            + config.maturity {
            Err(EstimateError::InvalidEpochPosition)
        } else {
            let remaining = remaining_spec(target, tip, average, config.maturity);
            if 0 <= remaining <= u64::MAX {
                Ok(remaining as u64)
            } else {
                Err(EstimateError::OutOfRange)
            }
        },
    }
}

/// The estimate that belongs to a number of remaining seconds.
pub open spec fn estimate_of(
    average: u64,
    sample: Option<EpochSample>,
    sampled: bool,
    remaining: u64,
) -> LaunchEstimate {
    LaunchEstimate {
        average_epoch_duration: average,
        last_epoch_millis: match sample {
            Some(s) => if sampled && s.last >= s.previous {
                Some((s.last - s.previous) as u64)
            } else {
                None
            },
            None => None,
        },
        remaining_seconds: remaining,
        days: if remaining > 86400 {
            Some(remaining / 86400)
        } else {
            None
        },
        hours: remaining / 3600 % 24,
        minutes: remaining / 60 % 60,
        seconds: remaining % 60,
    }
}

/// An estimate is owed wherever the formula can be worked out: the tip's
/// epoch has a length, the tip lies no further past its end than the
/// maturity offset, the target is not behind the tip's epoch, the current
/// epoch does not start before the first epoch of a sample that is due, and
/// the remaining seconds fit in 64 bits. The average is then the default, or
/// the sampled time divided by the number of epochs and by a thousand.
pub proof fn law_estimate_is_owed(
    config: Config,
    target: u64,
    tip: Header,
    sample: Option<EpochSample>,
)
    requires
        config.metric_epochs > 0,
        tip.epoch_length > 0,
        tip.epoch_index <= tip.epoch_length + config.maturity,
        tip.epoch_number <= target,
        tip.epoch_number >= config.metric_epochs ==> sample is Some && sample->0.last
            >= sample->0.first,
        remaining_spec(
            target,
            tip,
            average_duration_spec(config.metric_epochs, tip.epoch_number, sample)->Ok_0,
            config.maturity,
        ) <= u64::MAX,
    ensures
        average_duration_spec(config.metric_epochs, tip.epoch_number, sample) == Ok::<
            u64,
            EstimateError,
        >(
            if tip.epoch_number < config.metric_epochs {
                DEFAULT_EPOCH_DURATION
            } else {
                ((sample->0.last - sample->0.first) / (config.metric_epochs as int) / 1000) as u64
            },
        ),
        remaining_seconds_spec(config, target, tip, sample) is Ok,
{
    let average = average_duration_spec(config.metric_epochs, tip.epoch_number, sample)->Ok_0;
    let epochs = target - tip.epoch_number;
    let left = tip.epoch_length - tip.epoch_index + config.maturity;
    let length = tip.epoch_length as int;
    assert(epochs * average >= 0) by (nonlinear_arith)
        requires
            epochs >= 0,
            average >= 0,
    ;
    assert((average * left) / length >= 0) by (nonlinear_arith)
        requires
            average >= 0,
            left >= 0,
            length > 0,
    ;
}

/// The average epoch duration in seconds.
pub fn average_epoch_duration(
    metric_epochs: u64,
    epoch_number: u64,
    sample: Option<EpochSample>,
) -> (result: Result<u64, EstimateError>)
    ensures
        result == average_duration_spec(metric_epochs, epoch_number, sample),
        result matches Ok(average) ==> average <= 0x0080_0000_0000_0000,
{
    if metric_epochs == 0 {
        Err(EstimateError::InvalidConfig)
    } else if epoch_number < metric_epochs {
        Ok(DEFAULT_EPOCH_DURATION)
    } else {
        match sample {
            None => Err(EstimateError::MissingSample),
            Some(s) => {
                if s.last < s.first {
                    Err(EstimateError::ClockWentBack)
                } else {
                    let elapsed = s.last - s.first;
                    let per_epoch = elapsed / metric_epochs;
                    Ok(per_epoch / 1000)
                }
            },
        }
    }
}

/// The remaining seconds for an average epoch duration that is known.
fn remaining_seconds(target: u64, tip: &Header, average: u64, maturity: u64) -> (result: Option<
    u64,
>)
    requires
        average <= 0x0080_0000_0000_0000,
        tip.epoch_length > 0,
        tip.epoch_index <= tip.epoch_length + maturity,
    ensures
        match result {
            Some(remaining) => remaining == remaining_spec(target, *tip, average, maturity),
            None => !(0 <= remaining_spec(target, *tip, average, maturity) <= u64::MAX),
        },
{
    let left: u128 = tip.epoch_length as u128 + maturity as u128 - tip.epoch_index as u128;
    let wide: u128 = average as u128;
    assert(wide * left <= 0x0080_0000_0000_0000 * 0x2_0000_0000_0000_0000) by (nonlinear_arith)
        requires
            wide <= 0x0080_0000_0000_0000,
            left <= 0x2_0000_0000_0000_0000,
    ;
    let partial: u128 = wide * left / (tip.epoch_length as u128);
    if target >= tip.epoch_number {
        let epochs: u128 = (target - tip.epoch_number) as u128;
        assert(epochs * wide <= 0x1_0000_0000_0000_0000 * 0x0080_0000_0000_0000)
            by (nonlinear_arith)
            requires
                wide <= 0x0080_0000_0000_0000,
                epochs <= 0x1_0000_0000_0000_0000,
        ;
        let full: u128 = epochs * wide;
        let remaining: u128 = full + partial;
        if remaining <= u64::MAX as u128 {
            Some(remaining as u64)
        } else {
            None
        }
    } else {
        let epochs: u128 = (tip.epoch_number - target) as u128;
        assert(epochs * wide <= 0x1_0000_0000_0000_0000 * 0x0080_0000_0000_0000)
            by (nonlinear_arith)
            requires
                wide <= 0x0080_0000_0000_0000,
                epochs <= 0x1_0000_0000_0000_0000,
        ;
        let past: u128 = epochs * wide;
        assert((target - tip.epoch_number) * average == -past) by (nonlinear_arith)
            requires
                past == epochs * wide,
                epochs == tip.epoch_number - target,
                wide == average,
        ;
        if partial >= past && partial - past <= u64::MAX as u128 {
            Some((partial - past) as u64)
        } else {
            None
        }
    }
}

/// Estimates the time until the chain reaches the block at which the
/// derivation for `target` can run.
pub fn estimate(config: &Config, target: u64, tip: &Header, sample: Option<EpochSample>) -> (result:
    Result<LaunchEstimate, EstimateError>)
    ensures
        match remaining_seconds_spec(*config, target, *tip, sample) {
            Err(error) => result == Err::<LaunchEstimate, EstimateError>(error),
            Ok(remaining) => result == Ok::<LaunchEstimate, EstimateError>(
                estimate_of(
                    average_duration_spec(config.metric_epochs, tip.epoch_number, sample)->Ok_0,
                    sample,
                    tip.epoch_number >= config.metric_epochs,
                    remaining,
                ),
            ),
        },
{
    let average = match average_epoch_duration(config.metric_epochs, tip.epoch_number, sample) {
        Ok(average) => average,
        Err(error) => {
            return Err(error);
        },
    };
    if tip.epoch_length == 0 || tip.epoch_index as u128 > tip.epoch_length as u128
        + config.maturity as u128 {
        return Err(EstimateError::InvalidEpochPosition);
    }
    let remaining = match remaining_seconds(target, tip, average, config.maturity) {
        Some(remaining) => remaining,
        None => {
            return Err(EstimateError::OutOfRange);
        },
    };
    let sampled = tip.epoch_number >= config.metric_epochs;
    let last_epoch_millis = match sample {
        Some(s) => if sampled && s.last >= s.previous {
            Some(s.last - s.previous)
        } else {
            None
        },
        None => None,
    };
    Ok(
        LaunchEstimate {
            average_epoch_duration: average,
            last_epoch_millis,
            remaining_seconds: remaining,
            days: if remaining > 86400 {
                Some(remaining / 86400)
            } else {
                None
            },
            hours: remaining / 3600 % 24,
            minutes: remaining / 60 % 60,
            seconds: remaining % 60,
        },
    )
}

/// The time of launch: the remaining seconds after `now`, a time in seconds,
/// unless that leaves the 64-bit range.
pub fn launch_time(now: u64, estimate: &LaunchEstimate) -> (time: Option<u64>)
    ensures
        time == if now + estimate.remaining_seconds <= u64::MAX {
            Some((now + estimate.remaining_seconds) as u64)
        } else {
            None
        },
{
    now.checked_add(estimate.remaining_seconds)
}

} // verus!
