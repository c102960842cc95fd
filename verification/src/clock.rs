//! The wall clock, reduced to plain calendar fields.
//!
//! Response serialization needs the moment of sending as year,
//! month, day, weekday and time of day. Only the reading of the
//! clock is trusted; turning the fields into the HTTP date line is
//! verified code in [`crate::response`].

use vstd::prelude::*;

use chrono::{Datelike, Timelike};

verus! {

/// One moment in UTC, split into calendar fields.
#[derive(Clone, Copy, Debug, PartialEq, Eq, Structural)]
pub struct DateParts {
    pub year: i32,
    /// Month number, 1 to 12.
    pub month: u32,
    /// Day of month, 1 to 31.
    pub day: u32,
    /// Days since Monday, 0 to 6.
    pub weekday: u32,
    /// Hour, 0 to 23.
    pub hour: u32,
    /// Minute, 0 to 59.
    pub minute: u32,
    /// Second, 0 to 59.
    pub second: u32,
}

impl DateParts {
    /// Every field lies in its calendar range.
    pub open spec fn wf(&self) -> bool {
        &&& 1 <= self.month <= 12
        &&& 1 <= self.day <= 31
        &&& self.weekday < 7
        &&& self.hour < 24
        &&& self.minute < 60
        &&& self.second < 60
    }
}

/// The current UTC time, split into calendar fields.
///
/// Relies on `chrono::Utc::now` and on the documented ranges of the
/// accessors applied to its result: `Datelike::month` (1 to 12),
/// `Datelike::day` (1 to 31), `Weekday::num_days_from_monday` (0 to
/// 6), `Timelike::hour` (0 to 23), `Timelike::minute` and
/// `Timelike::second` (0 to 59). Nothing is assumed about which
/// moment comes back. `Utc::now` itself panics on a system clock
/// set before the Unix epoch.
#[verifier::external_body]
pub(crate) fn now_parts() -> (r: DateParts)
    ensures
        r.wf(),
{
    let d = chrono::Utc::now();
    DateParts {
        year: d.year(),
        month: d.month(),
        day: d.day(),
        weekday: d.weekday().num_days_from_monday(),
        hour: d.hour(),
        minute: d.minute(),
        second: d.second(),
    }
}

} // verus!
