//! Calendar dates, times of day, and the instants that they stand for in a time zone.

use chrono::{Datelike, LocalResult, NaiveDate, NaiveTime, TimeZone, Timelike};
use vstd::prelude::*;

verus! {

/// The time zone in which the calendar is written.
pub const SOURCE_ZONE: &'static str = "US/Pacific";

/// The format of a column's date, once the year stands before it.
pub const DATE_FORMAT: &'static str = "%Y/%m/%d";

/// The format of a row's time of day.
pub const TIME_FORMAT: &'static str = "%I:%M %p";

/// The year, month and day that `text` gives when it is read by `format`, in the
/// notation of `chrono::format::strftime`; `None` where `text` does not fit `format`
/// or names no day of the calendar.
pub uninterp spec fn parsed_date(text: Seq<char>, format: Seq<char>) -> Option<(i32, u32, u32)>;

/// The hour, minute and second that `text` gives when it is read by `format`; `None`
/// where `text` does not fit `format` or names no time of day.
pub uninterp spec fn parsed_time(text: Seq<char>, format: Seq<char>) -> Option<(u32, u32, u32)>;

/// The instants, in seconds since 1970-01-01 00:00:00 UTC, at which the clocks of the
/// time zone named `zone` show the day `date` and the time `time`: one as a rule, two
/// in the hour that is repeated when the clocks go back, the earlier first, and none
/// in the hour that is left out when they go forward. `None` where `zone` names no
/// time zone of the IANA database, or `date` and `time` are no day and time of day.
pub uninterp spec fn local_instants(
    zone: Seq<char>,
    date: (i32, u32, u32),
    time: (u32, u32, u32),
) -> Option<Seq<i64>>;

/// Calls `NaiveDate::parse_from_str` and takes the date apart. The result is named, not
/// described: it is whatever `chrono` reads, and depends on the two texts alone.
#[verifier::external_body]
pub(crate) fn parse_date(text: &str, format: &str) -> (r: Option<(i32, u32, u32)>)
    ensures
        r == parsed_date(text@, format@),
{
    NaiveDate::parse_from_str(text, format).ok().map(|d| (d.year(), d.month(), d.day()))
}

/// Calls `NaiveTime::parse_from_str` and takes the time apart. The result is named, not
/// described: it is whatever `chrono` reads, and depends on the two texts alone.
#[verifier::external_body]
pub(crate) fn parse_time(text: &str, format: &str) -> (r: Option<(u32, u32, u32)>)
    ensures
        r == parsed_time(text@, format@),
{
    NaiveTime::parse_from_str(text, format).ok().map(|t| (t.hour(), t.minute(), t.second()))
}

/// Calls `TimeZone::from_local_datetime` on the time zone that `chrono_tz::Tz` parses
/// from `zone`, with the local time made by `NaiveDate::from_ymd_opt` and
/// `NaiveDate::and_hms_opt`, and takes the timestamp of each result. The result is
/// named, not described: it follows the time zone database that `chrono_tz` was built
/// with, and depends on the arguments alone.
#[verifier::external_body]
pub(crate) fn resolve_local(zone: &str, date: (i32, u32, u32), time: (u32, u32, u32)) -> (r:
    Option<Vec<i64>>)
    ensures
        r.deep_view() == local_instants(zone@, date, time),
{
    let tz: chrono_tz::Tz = zone.parse().ok()?;
    let local = NaiveDate::from_ymd_opt(date.0, date.1, date.2)?.and_hms_opt(
        time.0,
        time.1,
        time.2,
    )?;
    Some(
        match tz.from_local_datetime(&local) {
            LocalResult::Single(at) => vec![at.timestamp()],
            LocalResult::Ambiguous(first, second) => vec![first.timestamp(), second.timestamp()],
            LocalResult::None => Vec::new(),
        },
    )
}

/// What a day and a time of day come to in a time zone.
#[derive(Debug, Clone, Copy, PartialEq, Eq, Structural)]
pub enum Resolved {
    /// The one instant at which the zone's clocks show that time.
    Single(i64),
    /// The clocks went forward over that time: there is no such instant.
    Gap,
    /// The clocks went back over that time: there are two such instants.
    Fold,
    /// The zone is not known, or the day or the time does not exist at all.
    Invalid,
}

/// What the instants of a local time come to.
pub open spec fn resolution(instants: Option<Seq<i64>>) -> Resolved {
    match instants {
        Some(at) => if at.len() == 0 {
            Resolved::Gap
        } else if at.len() == 1 {
            Resolved::Single(at[0])
        } else {
            Resolved::Fold
        },
        None => Resolved::Invalid,
    }
}

/// The instant at which an event starts that the calendar puts on the day `date` at
/// the time `time` of the zone `zone`; `None` where that local time is left out or
/// repeated by a change of the clocks, or is no local time at all.
pub open spec fn start_instant(zone: Seq<char>, date: (i32, u32, u32), time: (u32, u32, u32))
    -> Option<i64> {
    match resolution(local_instants(zone, date, time)) {
        Resolved::Single(at) => Some(at),
        _ => None,
    }
}

/// Tells what the instants of a local time come to.
pub fn resolved(instants: &Option<Vec<i64>>) -> (r: Resolved)
    ensures
        r == resolution(instants.deep_view()),
{
    match instants {
        Some(at) => {
            if at.len() == 0 {
                Resolved::Gap
            } else if at.len() == 1 {
                assert(at.deep_view()[0] == at@[0]);
                Resolved::Single(at[0])
            } else {
                Resolved::Fold
            }
        },
        None => Resolved::Invalid,
    }
}

/// Finds what the day `date` and the time `time` come to in the zone `zone`.
pub fn resolve(zone: &str, date: (i32, u32, u32), time: (u32, u32, u32)) -> (r: Resolved)
    ensures
        r == resolution(local_instants(zone@, date, time)),
{
    let instants = resolve_local(zone, date, time);
    resolved(&instants)
}

} // verus!
