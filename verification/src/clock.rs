use vstd::prelude::*;
use chrono::format::ParseError;
use chrono::DateTime;
use chrono::Datelike;
use chrono::NaiveDateTime;
use chrono::Timelike;
use crate::error::ErrorKind;

verus! {

/// 0000-01-01 00:00:00, in seconds since 1970-01-01 00:00:00.
pub const MIN_TIMESTAMP: i64 = -62_167_219_200;

/// 9999-12-31 23:59:59, in seconds since 1970-01-01 00:00:00.
pub const MAX_TIMESTAMP: i64 = 253_402_300_799;

pub const SECONDS_PER_MINUTE: i64 = 60;

pub const SECONDS_PER_HOUR: i64 = 3_600;

pub const SECONDS_PER_DAY: i64 = 86_400;

/// A simulated time is a count of seconds since 1970-01-01 00:00:00 that
/// falls in the years 0000 to 9999, the years that `YYYY-MM-DD HH:MM:SS`
/// can express.
pub open spec fn is_timestamp(seconds: int) -> bool {
    MIN_TIMESTAMP <= seconds <= MAX_TIMESTAMP
}

/// The hour of the day, 0 to 23, that `seconds` falls in.
pub open spec fn hour_at(seconds: int) -> int {
    (seconds % 86_400) / 3_600
}

/// The day of the week that `seconds` falls in, counted from Monday as 0 to
/// Sunday as 6. 1970-01-01 was a Thursday.
pub open spec fn weekday_at(seconds: int) -> int {
    (seconds / 86_400 + 3) % 7
}

/// A parse error of the `chrono` crate.
#[verifier::external_type_specification]
#[verifier::external_body]
pub struct ExParseError(ParseError);

/// What `chrono` reads out of `text` under the format `format`: the seconds
/// since 1970-01-01 00:00:00 of the date and time that it names, or nothing
/// where `text` does not fit the format or names no date and time.
pub uninterp spec fn datetime_seconds(text: Seq<char>, format: Seq<char>) -> Option<int>;

/// How `chrono` writes the date and time that lies `seconds` after
/// 1970-01-01 00:00:00.
pub uninterp spec fn timestamp_text(seconds: int) -> Seq<char>;

/// `NaiveDateTime::parse_from_str`, the result counted in seconds: succeeds
/// exactly where `datetime_seconds` has a value, and returns that value.
#[verifier::external_body]
pub(crate) fn parse_seconds(text: &str, format: &str) -> (result: Result<i64, ParseError>)
    ensures
        result is Ok <==> datetime_seconds(text@, format@) is Some,
        result matches Ok(seconds) ==> datetime_seconds(text@, format@) == Some(seconds as int),
{
    match NaiveDateTime::parse_from_str(text, format) {
        Ok(moment) => Ok(moment.and_utc().timestamp()),
        Err(error) => Err(error),
    }
}

/// `Timelike::hour` of the moment `seconds` after 1970-01-01 00:00:00. Within
/// the years 0000 to 9999 `chrono` has that moment, and its hour is the
/// whole hours of what is left of `seconds` after whole days.
#[verifier::external_body]
pub(crate) fn hour_of(seconds: i64) -> (hour: u32)
    requires
        is_timestamp(seconds as int),
    ensures
        hour == hour_at(seconds as int),
{
    DateTime::from_timestamp(seconds, 0).unwrap().hour()
}

/// `Datelike::weekday` of the moment `seconds` after 1970-01-01 00:00:00, as
/// its number of days from Monday. Within the years 0000 to 9999 `chrono`
/// has that moment; days repeat in sevens from the Thursday that day 0 was.
#[verifier::external_body]
pub(crate) fn weekday_of(seconds: i64) -> (day: u32)
    requires
        is_timestamp(seconds as int),
    ensures
        day == weekday_at(seconds as int),
{
    DateTime::from_timestamp(seconds, 0).unwrap().weekday().num_days_from_monday()
}

/// `NaiveDateTime`'s `to_string` of the moment `seconds` after 1970-01-01
/// 00:00:00: the text that `timestamp_text` names.
#[verifier::external_body]
pub(crate) fn write_seconds(seconds: i64) -> (text: String)
    requires
        is_timestamp(seconds as int),
    ensures
        text@ == timestamp_text(seconds as int),
{
    DateTime::from_timestamp(seconds, 0).unwrap().naive_utc().to_string()
}

/// The format of a start timestamp: `YYYY-MM-DD HH:MM:SS`.
pub open spec fn start_format() -> Seq<char> {
    "%Y-%m-%d %H:%M:%S"@
}

/// What a reading of a start timestamp means: the seconds that were read,
/// where some were and they fall in the years 0000 to 9999; `InvalidDate`
/// otherwise.
pub open spec fn start_from(parsed: Option<int>) -> Result<i64, ErrorKind> {
    match parsed {
        Some(seconds) => if is_timestamp(seconds) {
            Ok(seconds as i64)
        } else {
            Err(ErrorKind::InvalidDate)
        },
        None => Err(ErrorKind::InvalidDate),
    }
}

/// What a start timestamp means: what its reading under
/// `YYYY-MM-DD HH:MM:SS` means.
pub open spec fn start_of(text: Seq<char>) -> Result<i64, ErrorKind> {
    start_from(datetime_seconds(text, start_format()))
}

/// Accepts the seconds read from a start timestamp, where some were read and
/// they are a timestamp.
pub fn checked_start(parsed: Option<i64>) -> (result: Result<i64, ErrorKind>)
    ensures
        result == start_from(
            match parsed {
                Some(seconds) => Some(seconds as int),
                None => None,
            },
        ),
{
    match parsed {
        Some(seconds) => if MIN_TIMESTAMP <= seconds && seconds <= MAX_TIMESTAMP {
            Ok(seconds)
        } else {
            Err(ErrorKind::InvalidDate)
        },
        None => Err(ErrorKind::InvalidDate),
    }
}

/// Reads a start timestamp written as `YYYY-MM-DD HH:MM:SS`.
pub fn parse_start(text: &str) -> (result: Result<i64, ErrorKind>)
    ensures
        result == start_of(text@),
        result matches Ok(seconds) ==> is_timestamp(seconds as int),
{
    match parse_seconds(text, "%Y-%m-%d %H:%M:%S") {
        Ok(seconds) => checked_start(Some(seconds)),
        Err(_) => checked_start(None),
    }
}

/// The hours of a run of `days` days from `start`: twenty-four for each day,
/// or `InvalidDate` where the run ends after the last timestamp.
pub open spec fn hours_of(start: int, days: u64) -> Result<u64, ErrorKind> {
    if is_timestamp(start + days * SECONDS_PER_DAY) {
        Ok((days * 24) as u64)
    } else {
        Err(ErrorKind::InvalidDate)
    }
}

/// The number of hours from `start` to the time `days` days later.
pub fn hour_range(start: i64, days: u64) -> (result: Result<u64, ErrorKind>)
    requires
        is_timestamp(start as int),
    ensures
        result == hours_of(start as int, days),
{
    let room = ((MAX_TIMESTAMP - start) / SECONDS_PER_DAY) as u64;
    if days > room {
        Err(ErrorKind::InvalidDate)
    } else {
        Ok(days * 24)
    }
}

/// Writes a simulated time as `YYYY-MM-DD HH:MM:SS`.
pub fn format_timestamp(seconds: i64) -> (text: String)
    requires
        is_timestamp(seconds as int),
    ensures
        text@ == timestamp_text(seconds as int),
{
    write_seconds(seconds)
}

/// What `advance` returns: the time `seconds` later, or `InvalidDate` where
/// that time is no timestamp.
pub open spec fn advanced(when: int, seconds: int) -> Result<i64, ErrorKind> {
    if is_timestamp(when + seconds) {
        Ok((when + seconds) as i64)
    } else {
        Err(ErrorKind::InvalidDate)
    }
}

/// Moves a simulated time forward by `seconds`.
pub fn advance(when: i64, seconds: u64) -> (result: Result<i64, ErrorKind>)
    requires
        is_timestamp(when as int),
    ensures
        result == advanced(when as int, seconds as int),
{
    if seconds > (MAX_TIMESTAMP - when) as u64 {
        Err(ErrorKind::InvalidDate)
    } else {
        Ok(when + seconds as i64)
    }
}

} // verus!
