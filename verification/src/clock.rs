//! Where the time comes from, and the calendar arithmetic on it.
//!
//! Instants are milliseconds since the Unix epoch. A calendar day is a day of
//! local time: the time zone is given as its offset from UTC in seconds.

use ::time::OffsetDateTime;
use vstd::prelude::*;

verus! {

pub const MILLIS_PER_SECOND: u64 = 1_000;

pub const MILLIS_PER_DAY: u64 = 86_400_000;

/// A source of the current instant.
pub trait Clock {
    /// The current instant, in milliseconds since the Unix epoch.
    fn now(&self) -> u64;
}

/// The system's clock.
pub struct UtcClock;

/// Calls `OffsetDateTime::now_utc` of the `time` crate and takes the
/// result's `unix_timestamp`, in seconds. Nothing is claimed of the value.
#[verifier::external_body]
fn utc_unix_seconds() -> i64 {
    OffsetDateTime::now_utc().unix_timestamp()
}

/// The instant that lies `unix_seconds` after the epoch, held at the epoch
/// for a time before it and at the last instant for a time beyond it.
pub open spec fn millis_since_epoch(unix_seconds: i64) -> int {
    if unix_seconds < 0 {
        0
    } else if unix_seconds * MILLIS_PER_SECOND > u64::MAX {
        u64::MAX as int
    } else {
        unix_seconds * MILLIS_PER_SECOND
    }
}

/// Computes `millis_since_epoch`.
pub fn millis_of_seconds(unix_seconds: i64) -> (millis: u64)
    ensures
        millis == millis_since_epoch(unix_seconds),
{
    if unix_seconds < 0 {
        0
    } else {
        let seconds: u64 = unix_seconds as u64;
        if seconds > u64::MAX / MILLIS_PER_SECOND {
            u64::MAX
        } else {
            seconds * MILLIS_PER_SECOND
        }
    }
}

impl Clock for UtcClock {
    /// The system's time in whole seconds, as an instant: whatever the
    /// system says, the instant is the one that `millis_since_epoch` makes of
    /// a number of seconds.
    fn now(&self) -> (now: u64)
        ensures
            exists|unix_seconds: i64| now == #[trigger] millis_since_epoch(unix_seconds),
    {
        let unix_seconds: i64 = utc_unix_seconds();
        let now: u64 = millis_of_seconds(unix_seconds);
        assert(now == millis_since_epoch(unix_seconds));
        now
    }
}

/// The number of the local calendar day that holds `instant`, counted from
/// the day of the epoch.
pub open spec fn local_day(instant: u64, utc_offset_seconds: i32) -> int {
    (instant + utc_offset_seconds * MILLIS_PER_SECOND) / (MILLIS_PER_DAY as int)
}

/// The instant at which local day number `day` begins.
pub open spec fn start_of_local_day(day: int, utc_offset_seconds: i32) -> int {
    day * MILLIS_PER_DAY - utc_offset_seconds * MILLIS_PER_SECOND
}

/// The instant at which the day after the one that holds `instant` begins.
pub open spec fn start_of_next_day(instant: u64, utc_offset_seconds: i32) -> int {
    start_of_local_day(local_day(instant, utc_offset_seconds) + 1, utc_offset_seconds)
}

/// The last whole second of the day after the one that holds `instant`.
pub open spec fn spec_end_of_tomorrow(instant: u64, utc_offset_seconds: i32) -> int {
    start_of_local_day(local_day(instant, utc_offset_seconds) + 2, utc_offset_seconds)
        - MILLIS_PER_SECOND
}

/// The beginning of the day thirty days before the one that holds `instant`.
pub open spec fn spec_thirty_days_ago(instant: u64, utc_offset_seconds: i32) -> int {
    start_of_local_day(local_day(instant, utc_offset_seconds) - 30, utc_offset_seconds)
}

/// The local day that holds `instant`, held within what sixteen bits count.
pub open spec fn epoch_day(instant: u64, utc_offset_seconds: i32) -> int {
    let day = local_day(instant, utc_offset_seconds);
    if day < 0 {
        0
    } else if day > 0xffff {
        0xffff
    } else {
        day
    }
}

/// Computes `local_day`.
pub fn local_day_of(instant: u64, utc_offset_seconds: i32) -> (day: i128)
    ensures
        day == local_day(instant, utc_offset_seconds),
        -25_000_000 <= day <= 250_000_000_000,
{
    let local: i128 = instant as i128 + utc_offset_seconds as i128 * 1_000;
    if local >= 0 {
        local / 86_400_000
    } else {
        let behind: i128 = -local;
        -((behind + 86_399_999) / 86_400_000)
    }
}

/// The instant at which the day after the one that holds `instant` begins.
pub fn start_of_day_after(instant: u64, utc_offset_seconds: i32) -> (start: i128)
    ensures
        start == start_of_next_day(instant, utc_offset_seconds),
        instant < start <= instant + MILLIS_PER_DAY,
{
    let day: i128 = local_day_of(instant, utc_offset_seconds);
    (day + 1) * 86_400_000 - utc_offset_seconds as i128 * 1_000
}

/// The last whole second of the day after the one that holds `instant`: the
/// end of the span in which reviews count as due by tomorrow.
pub fn end_of_tomorrow(instant: u64, utc_offset_seconds: i32) -> (end: i128)
    ensures
        end == spec_end_of_tomorrow(instant, utc_offset_seconds),
{
    let day: i128 = local_day_of(instant, utc_offset_seconds);
    (day + 2) * 86_400_000 - utc_offset_seconds as i128 * 1_000 - 1_000
}

/// The beginning of the day thirty days before the one that holds `instant`:
/// answers after it count towards the recent accuracy.
pub fn thirty_days_ago(instant: u64, utc_offset_seconds: i32) -> (start: i128)
    ensures
        start == spec_thirty_days_ago(instant, utc_offset_seconds),
{
    let day: i128 = local_day_of(instant, utc_offset_seconds);
    (day - 30) * 86_400_000 - utc_offset_seconds as i128 * 1_000
}

/// The local day that holds `instant`, as the single-file store counts days.
pub fn epoch_day_of(instant: u64, utc_offset_seconds: i32) -> (day: u16)
    ensures
        day == epoch_day(instant, utc_offset_seconds),
{
    let day: i128 = local_day_of(instant, utc_offset_seconds);
    if day < 0 {
        0
    } else if day > 0xffff {
        0xffff
    } else {
        day as u16
    }
}

/// Today's local day according to `clock`.
pub fn now_in_epoch_days<C: Clock>(clock: &C, utc_offset_seconds: i32) -> (day: u16)
    ensures
        exists|instant: u64| day == #[trigger] epoch_day(instant, utc_offset_seconds),
{
    let instant: u64 = clock.now();
    let day: u16 = epoch_day_of(instant, utc_offset_seconds);
    assert(day == epoch_day(instant, utc_offset_seconds));
    day
}

/// The day after the one that holds an instant begins after that instant,
/// and at most a day after it.
pub proof fn lemma_next_day_is_near(instant: u64, utc_offset_seconds: i32)
    ensures
        instant < start_of_next_day(instant, utc_offset_seconds) <= instant + MILLIS_PER_DAY,
{
}

/// A later instant never lies in an earlier day.
pub proof fn law_days_follow_instants(earlier: u64, later: u64, utc_offset_seconds: i32)
    requires
        earlier <= later,
    ensures
        start_of_next_day(earlier, utc_offset_seconds) <= start_of_next_day(
            later,
            utc_offset_seconds,
        ),
{
}

} // verus!
