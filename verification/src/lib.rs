//! Five-field cron expressions: parsing into ordered value sets, canonical
//! text, and the search for the next matching point in time.
//!
//! An expression reads
//! `<minutes> <hours> <days of month> <months> <days of week>`:
//!
//! - a minute is a number in `0..=59`;
//! - an hour is a number in `0..=23`;
//! - a day of the month is a number in `1..=31`;
//! - a month is a number in `1..=12` or a name from `JAN` to `DEC`;
//! - a day of the week is a number in `0..=6` or a name from `SUN` to `SAT`.
//!
//! A field is `*`, or a list of entries separated by commas, each a single
//! value, a range `from-to`, or a series `base/step`.
use vstd::prelude::*;
use vstd::string::StringSliceAdditionalSpecFns;

pub mod cadence;
pub mod calendar;
pub mod earliest;
pub mod error;
pub mod field;
pub mod format;
pub mod glyph;
pub mod kind;
pub mod laws;
pub mod order;
pub mod roundtrip;
pub mod schedule;
pub mod search;
pub mod store;
pub mod text;
pub mod types;

pub use crate::calendar::DateTime;
pub use crate::error::InvalidExpr;
pub use crate::error::ParseError;
pub use crate::kind::FieldKind;
pub use crate::schedule::CronSchedule;
pub use crate::search::Advance;
pub use crate::store::FieldSet;
pub use crate::types::Day;
pub use crate::types::DayOfMonth;
pub use crate::types::Hour;
pub use crate::types::Minute;
pub use crate::types::Month;

verus! {

/// Once a year, at midnight of January 1st.
pub const YEARLY: &'static str = "0 0 1 1 *";

/// Once a month, at midnight of its first day.
pub const MONTHLY: &'static str = "0 0 1 * *";

/// Once a week, at midnight of Sunday.
pub const WEEKLY: &'static str = "0 0 * * 0";

/// Once a day, at midnight.
pub const DAILY: &'static str = "0 0 * * *";

/// Once an hour, at its start.
pub const HOURLY: &'static str = "0 * * * *";

/// Parses `cron` and finds the next point in time after `time` that it
/// allows.
pub fn parse_cron_from_time(cron: &str, time: DateTime) -> (r: Result<
    Option<DateTime>,
    ParseError,
>)
    ensures
        match crate::schedule::parsed_schedule(cron.spec_bytes()) {
            Ok(fields) => r matches Ok(found) && match crate::search::next_occurrence(
                fields,
                time@,
            ) {
                Some(s) => found matches Some(t) && t@ == s,
                None => found is None,
            },
            Err(fault) => r matches Err(e) && crate::schedule::reports(e, fault),
        },
{
    match CronSchedule::parse_str(cron) {
        Ok(schedule) => Ok(schedule.next_time_from(time)),
        Err(e) => Err(e),
    }
}

} // verus!
