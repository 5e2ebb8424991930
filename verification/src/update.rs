//! When to look for a new release of the application, and whether the
//! user has put an offered release off. Instants are UTC nanoseconds since
//! the Unix epoch.
use vstd::prelude::*;

verus! {

/// A release offered to the user.
#[derive(Debug, Clone)]
pub struct UpdateMeta {
    pub version: String,
    pub notes: String,
    pub pub_date: Option<String>,
}

/// Instants and spans this module works with stay within this bound
/// (far beyond the range of calendar dates).
pub open spec fn time_bound() -> int {
    0x10_0000_0000_0000_0000_0000_0000
}

/// Minimum time between two checks: six hours.
pub fn throttle_nanos() -> (d: i128)
    ensures
        d == 6 * 3600 * 1_000_000_000,
{
    6 * 3600 * 1_000_000_000
}

/// How long a release stays put off: twenty-four hours.
pub fn snooze_nanos() -> (d: i128)
    ensures
        d == 24 * 3600 * 1_000_000_000,
{
    24 * 3600 * 1_000_000_000
}

/// A check is due when none was made yet or the last one lies at least
/// `throttle` back.
pub fn should_check(last_check: Option<i128>, now: i128, throttle: i128) -> (b: bool)
    requires
        -time_bound() <= now <= time_bound(),
        last_check matches Some(l) ==> -time_bound() <= l <= time_bound(),
    ensures
        b == (match last_check { None => true, Some(l) => now - l >= throttle }),
{
    match last_check {
        None => true,
        Some(last) => now - last >= throttle,
    }
}

/// An offered release is put off when the user put off exactly that
/// version and the time they put it off until has not come yet.
pub fn is_snoozed(snoozed_version: Option<&str>, snoozed_until: Option<i128>, remote_version: &str, now: i128) -> (b: bool)
    ensures
        b == (match (snoozed_version, snoozed_until) {
            (Some(v), Some(until)) => v@ == remote_version@ && now < until,
            _ => false,
        }),
{
    match (snoozed_version, snoozed_until) {
        (Some(v), Some(until)) => crate::parse::text_is(v, remote_version) && now < until,
        _ => false,
    }
}

} // verus!
