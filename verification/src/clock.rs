//! The wall clock of the machine.

use crate::calendar::Timestamp;
use chrono::Datelike;
use chrono::Timelike;
use vstd::prelude::*;

verus! {

/// The local date and time of the machine's clock, read with
/// `chrono::Local::now` and taken apart with the accessors of `Datelike` and
/// `Timelike`.
///
/// The contract is taken on trust from chrono: the accessors return a day of
/// the proleptic Gregorian calendar and a second of the day (a leap second
/// shows as second 59), and the year of a chrono date lies within -262144
/// and 262143. Two calls may return different values. chrono panics
/// if the system clock stands before the year 1970.
#[verifier::external_body]
pub(crate) fn local_now() -> (now: Timestamp)
    ensures
        now@.valid(),
        -262144 <= now@.year <= 262143,
{
    let t = chrono::Local::now();
    Timestamp {
        year: t.year(),
        month: t.month(),
        day: t.day(),
        hour: t.hour(),
        minute: t.minute(),
        second: t.second(),
    }
}

} // verus!
