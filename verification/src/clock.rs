//! The time of day.

use std::time::{Duration, SystemTime};

use vstd::prelude::*;

verus! {

/// `std::time::SystemTime`.
#[verifier::external_type_specification]
#[verifier::external_body]
pub struct ExSystemTime(std::time::SystemTime);

/// How long after the Unix epoch a time is; none for a time before it.
pub uninterp spec fn time_since_epoch(time: SystemTime) -> Option<Duration>;

/// How many whole milliseconds a duration has.
pub uninterp spec fn whole_millis(duration: Duration) -> u128;

/// `std::time::SystemTime::now`: the time of the call, of which nothing is known
/// beforehand.
pub assume_specification[ SystemTime::now ]() -> SystemTime
;

/// `std::time::SystemTime::duration_since`, counted from the Unix epoch: the time
/// in between, or an error for a time before the epoch, here none.
#[verifier::external_body]
fn since_epoch(time: &SystemTime) -> (r: Option<Duration>)
    ensures
        r == time_since_epoch(*time),
{
    time.duration_since(std::time::UNIX_EPOCH).ok()
}

/// `std::time::Duration::as_millis`: the whole milliseconds of a duration.
#[verifier::external_body]
fn millis(duration: &Duration) -> (r: u128)
    ensures
        r == whole_millis(*duration),
{
    duration.as_millis()
}

/// A count of milliseconds as `i64`, its lowest 64 bits where it is larger; 0 where
/// there is none.
pub open spec fn count_of(millis: Option<u128>) -> i64 {
    match millis {
        Some(n) => n as i64,
        None => 0,
    }
}

/// The milliseconds of a time since the Unix epoch; 0 for a time before it.
pub open spec fn millis_of(time: SystemTime) -> i64 {
    count_of(
        match time_since_epoch(time) {
            Some(duration) => Some(whole_millis(duration)),
            None => None,
        },
    )
}

/// A count of milliseconds as `i64`; 0 where there is none.
pub fn millis_or_zero(millis: Option<u128>) -> (r: i64)
    ensures
        r == count_of(millis),
        millis matches Some(n) ==> n <= i64::MAX ==> r == n,
{
    match millis {
        Some(n) => n as i64,
        None => 0,
    }
}

/// The milliseconds of `time` since the Unix epoch; 0 for a time before it.
pub fn epoch_ms(time: &SystemTime) -> (r: i64)
    ensures
        r == millis_of(*time),
{
    match since_epoch(time) {
        Some(duration) => millis_or_zero(Some(millis(&duration))),
        None => millis_or_zero(None),
    }
}

/// The milliseconds since the Unix epoch at the time of the call; 0 where the clock
/// stands before the epoch.
pub fn now_ms() -> (r: i64)
    ensures
        exists|time: SystemTime| r == #[trigger] millis_of(time),
{
    let time = SystemTime::now();
    epoch_ms(&time)
}

/// A count that fits is kept, a larger one keeps its lowest 64 bits, and none is 0.
pub proof fn counts_keep_their_lowest_bits(n: u128)
    ensures
        count_of(None) == 0,
        n <= 0x7fff_ffff_ffff_ffff ==> count_of(Some(n)) == n,
        ({
            let low = n % 0x1_0000_0000_0000_0000;
            low < 0x8000_0000_0000_0000 ==> count_of(Some(n)) == low
        }),
        ({
            let low = n % 0x1_0000_0000_0000_0000;
            low >= 0x8000_0000_0000_0000 ==> count_of(Some(n)) == low - 0x1_0000_0000_0000_0000
        }),
{
    let low = n % 0x1_0000_0000_0000_0000u128;
    assert(low < 0x8000_0000_0000_0000u128 ==> n as i64 == low) by (bit_vector)
        requires
            low == n % 0x1_0000_0000_0000_0000u128,
    ;
    assert(low >= 0x8000_0000_0000_0000u128 ==> n as i64 == low - 0x1_0000_0000_0000_0000)
        by (bit_vector)
        requires
            low == n % 0x1_0000_0000_0000_0000u128,
    ;
}

/// A time is counted in whole milliseconds since the epoch; one before it counts 0.
pub proof fn times_are_counted_from_the_epoch(time: SystemTime)
    ensures
        time_since_epoch(time) is None ==> millis_of(time) == 0,
        time_since_epoch(time) matches Some(duration) ==> whole_millis(duration)
            <= 0x7fff_ffff_ffff_ffff ==> millis_of(time) == whole_millis(duration),
{
}

} // verus!
