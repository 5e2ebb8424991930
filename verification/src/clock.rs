//! Reading of the system clock.
use chrono::{Datelike, Timelike};
use vstd::prelude::*;

verus! {

/// The current UTC time, both as milliseconds since the Unix epoch and as
/// calendar fields.
#[derive(Debug, Clone, Copy)]
pub struct UtcNow {
    pub millis: i64,
    pub year: i32,
    pub month: u32,
    pub day: u32,
    pub hour: u32,
    pub minute: u32,
    pub second: u32,
    pub subsec_millis: u32,
}

/// The calendar fields of a clock reading lie in their ranges.
pub open spec fn fields_in_range(t: UtcNow) -> bool {
    &&& 1 <= t.month <= 12
    &&& 1 <= t.day <= 31
    &&& t.hour <= 23
    &&& t.minute <= 59
    &&& t.second <= 59
    &&& t.subsec_millis <= 1999
}

/// Reads `std::time::SystemTime::now()` and measures it from the Unix epoch
/// with `duration_since(UNIX_EPOCH)`, in whole milliseconds
/// (`Duration::as_millis`). `duration_since` fails when the clock stands
/// before the epoch; then the result is `None`. Nothing is claimed of the
/// reading itself: it is whatever the machine's clock says.
#[verifier::external_body]
fn millis_since_epoch() -> (r: Option<u128>)
{
    match std::time::SystemTime::now().duration_since(std::time::UNIX_EPOCH) {
        Ok(d) => Some(d.as_millis()),
        Err(_) => None,
    }
}

/// Turns milliseconds since the Unix epoch into a UTC date and time with
/// `chrono::DateTime::from_timestamp_millis`, and takes it apart with its
/// accessors (`timestamp_millis`, `year`, `month`, `day`, `hour`, `minute`,
/// `second`, `timestamp_subsec_millis`).
///
/// chrono returns `None` for a count out of its range; when it returns a
/// date, its documentation promises that `timestamp_millis` gives the count
/// back, and its accessors give month 1..=12, day 1..=31, hour 0..=23,
/// minute 0..=59, second 0..=59 and sub-second milliseconds up to 1999 (a
/// leap second). The calendar fields themselves are not stated: they take
/// chrono's calendar arithmetic, which is not written out here.
#[verifier::external_body]
fn utc_fields(millis: i64) -> (r: Option<UtcNow>)
    ensures
        r matches Some(t) ==> t.millis == millis && fields_in_range(t),
{
    match chrono::DateTime::from_timestamp_millis(millis) {
        Some(dt) => Some(UtcNow {
            millis: dt.timestamp_millis(),
            year: dt.year(),
            month: dt.month(),
            day: dt.day(),
            hour: dt.hour(),
            minute: dt.minute(),
            second: dt.second(),
            subsec_millis: dt.timestamp_subsec_millis(),
        }),
        None => None,
    }
}

/// The current UTC time, or `None` when the clock stands before the Unix
/// epoch or beyond what an `i64` of milliseconds or chrono can hold. A
/// reading is never negative and its fields lie in their ranges.
pub(crate) fn utc_now() -> (r: Option<UtcNow>)
    ensures
        r matches Some(t) ==> t.millis >= 0 && fields_in_range(t),
{
    match millis_since_epoch() {
        Some(ms) => {
            if ms <= 0x7fff_ffff_ffff_ffffu128 {
                utc_fields(ms as i64)
            } else {
                None
            }
        },
        None => None,
    }
}

} // verus!
