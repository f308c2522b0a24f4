use chrono::Datelike;
use chrono::Timelike;
use vstd::prelude::*;

verus! {

/// A UTC wall-clock instant with millisecond precision, stored as plain
/// calendar fields.
#[derive(Clone, Copy, PartialEq, Eq, Structural, Debug)]
pub struct UtcDateTime {
    pub year: i32,
    pub month: u32,
    pub day: u32,
    pub hour: u32,
    pub min: u32,
    pub secs: u32,
    pub milli: u32,
}

/// Calendar ranges of a well-formed instant. The millisecond bound admits
/// leap seconds, where the sub-second part may reach twice the usual range.
pub open spec fn spec_datetime_wf(dt: UtcDateTime) -> bool {
    &&& 1 <= dt.month <= 12
    &&& 1 <= dt.day <= 31
    &&& dt.hour < 24
    &&& dt.min < 60
    &&& dt.secs < 60
    &&& dt.milli < 2_000
}

/// Relies on `chrono::Utc::now` together with the `Datelike` and `Timelike`
/// accessors of the returned instant: month is 1..=12, day 1..=31, hour
/// below 24, minute and second below 60, and the nanosecond below
/// 2_000_000_000 (the excursion above 10^9 covers leap seconds).
#[verifier::external_body]
fn chrono_utc_now() -> (r: (i32, u32, u32, u32, u32, u32, u32))
    ensures
        1 <= r.1 <= 12,
        1 <= r.2 <= 31,
        r.3 < 24,
        r.4 < 60,
        r.5 < 60,
        r.6 < 2_000_000_000,
{
    let dt = chrono::Utc::now();
    let date = dt.date_naive();
    let time = dt.time();
    (
        date.year(),
        date.month(),
        date.day(),
        time.hour(),
        time.minute(),
        time.second(),
        time.nanosecond(),
    )
}

impl UtcDateTime {
    /// The current UTC time, read once from the system clock.
    pub fn now() -> (r: UtcDateTime)
        ensures
            spec_datetime_wf(r),
    {
        let (year, month, day, hour, min, secs, nanos) = chrono_utc_now();
        UtcDateTime { year, month, day, hour, min, secs, milli: nanos / 1_000_000 }
    }

    /// Builds an instant from plain calendar fields.
    pub fn from_parts(
        year: i32,
        month: u32,
        day: u32,
        hour: u32,
        min: u32,
        secs: u32,
        milli: u32,
    ) -> (r: Option<UtcDateTime>)
        ensures
            r is Some <==> spec_datetime_wf(
                UtcDateTime { year, month, day, hour, min, secs, milli },
            ),
            r matches Some(dt) ==> dt == (UtcDateTime { year, month, day, hour, min, secs, milli }),
    {
        if 1 <= month && month <= 12 && 1 <= day && day <= 31 && hour < 24 && min < 60 && secs < 60
            && milli < 2_000 {
            Some(UtcDateTime { year, month, day, hour, min, secs, milli })
        } else {
            None
        }
    }

    /// The calendar fields, in declaration order.
    pub fn parts(&self) -> (r: (i32, u32, u32, u32, u32, u32, u32))
        ensures
            r == (
                self.year,
                self.month,
                self.day,
                self.hour,
                self.min,
                self.secs,
                self.milli,
            ),
    {
        (self.year, self.month, self.day, self.hour, self.min, self.secs, self.milli)
    }
}

} // verus!
