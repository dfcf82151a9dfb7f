//! The wall clock and the local time zone, reached through chrono. The
//! clock's reading and the zone's offset depend on the machine and the
//! moment, so the trusted contracts state only the field ranges chrono
//! documents; everything further is computed from the returned values by
//! verified code.

use vstd::prelude::*;

use chrono::{Datelike, Timelike, TimeZone};

use crate::names::{decode_stamp_spec, parse_stamp_from_name};
use crate::stamp::{make_stamp, Stamp};

verus! {

/// Relies on chrono's `Local::now` and the `Datelike`/`Timelike` getters:
/// month is 1 to 12, day 1 to 31, hour below 24, minute and second below
/// 60. The year and the epoch milliseconds are whatever the clock says.
#[verifier::external_body]
fn now_local_raw() -> (r: (i64, u32, u32, u32, u32, u32, i64))
    ensures
        1 <= r.1 <= 12,
        1 <= r.2 <= 31,
        r.3 <= 23,
        r.4 <= 59,
        r.5 <= 59,
{
    let now = chrono::Local::now();
    (
        now.year() as i64,
        now.month(),
        now.day(),
        now.hour(),
        now.minute(),
        now.second(),
        now.timestamp_millis(),
    )
}

/// Relies on chrono's `Local::now` and `timestamp_millis`: the current
/// instant as epoch milliseconds, whatever the clock says.
#[verifier::external_body]
pub(crate) fn now_epoch_millis() -> (r: i64) {
    chrono::Local::now().timestamp_millis()
}

/// Relies on chrono's `NaiveDate::from_ymd_opt`, `and_hms_opt` and
/// `TimeZone::from_local_datetime(..).single()`: the epoch milliseconds
/// of the given local wall-clock instant, or nothing when the instant
/// does not exist or is ambiguous in the machine's time zone.
#[verifier::external_body]
fn local_millis_raw(year: i64, month: u32, day: u32, hour: u32, minute: u32, second: u32) -> (r:
    Option<i64>) {
    let year = i32::try_from(year).ok()?;
    let date = chrono::NaiveDate::from_ymd_opt(year, month, day)?;
    let moment = date.and_hms_opt(hour, minute, second)?;
    match chrono::Local.from_local_datetime(&moment).single() {
        Some(instant) => Some(instant.timestamp_millis()),
        None => None,
    }
}

/// Reads the wall clock as a stamp together with the epoch milliseconds
/// of the same reading. Nothing the clock can say is ruled out, so a
/// reading that no stamp can represent (a year outside four digits)
/// comes back as `None`.
pub fn current_local_stamp() -> (r: Option<(Stamp, i64)>)
    ensures
        match r {
            Some(p) => p.0.valid(),
            None => true,
        },
{
    let (year, month, day, hour, minute, second, millis) = now_local_raw();
    if year < 1 || year > 9999 {
        return None;
    }
    match make_stamp(year as u32, month, day, hour, minute, second) {
        Some(st) => Some((st, millis)),
        None => None,
    }
}

/// The epoch milliseconds of a stamp read as local wall-clock time, or
/// nothing when the time zone makes the instant ambiguous or nonexistent.
pub fn stamp_to_local_millis(st: &Stamp) -> (r: Option<i64>) {
    local_millis_raw(st.year as i64, st.month, st.day, st.hour, st.minute, st.second)
}

/// The epoch milliseconds of the stamp embedded in an archive file name:
/// a value can only come from a name that embeds a stamp, and even such a
/// name yields nothing when the time zone makes the decoded instant
/// ambiguous or nonexistent.
pub fn decode_timestamp_millis(name: &str) -> (r: Option<i64>)
    ensures
        decode_stamp_spec(name@) is None ==> r is None,
        r is Some ==> decode_stamp_spec(name@) is Some,
{
    match parse_stamp_from_name(name) {
        None => None,
        Some(st) => stamp_to_local_millis(&st),
    }
}

} // verus!
