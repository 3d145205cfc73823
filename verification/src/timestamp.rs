//! The naive timestamp attached to each reading.
//!
//! The vendor reports a date and a time as separate strings; joined with a
//! space they parse under the fixed format `YYYY-MM-DD HH:MM`.  The vendor's
//! timezone is taken to be the metering device's real-world location and is
//! never converted.  Calendar validation (month lengths, leap years) is the
//! date library's work; the parse is called through one trusted wrapper and
//! its result is named, since it depends on the input text alone.

use chrono::Datelike;
use chrono::Timelike;
use vstd::prelude::*;

verus! {

/// A naive local date-time, minute precision, as the vendor reports it.
#[derive(Debug, Clone, Copy, PartialEq, Eq, Structural)]
pub struct Timestamp {
    pub year: i32,
    pub month: u8,
    pub day: u8,
    pub hour: u8,
    pub minute: u8,
}

/// What the date library's parse returns for a text under the fixed format
/// `%Y-%m-%d %H:%M`: a timestamp for a well-formed calendar date-time, and
/// nothing otherwise.  A function of the text alone.
pub uninterp spec fn timestamp_parse(s: Seq<char>) -> Option<Timestamp>;

/// Relies on `chrono::NaiveDateTime::parse_from_str` with the fixed format
/// `"%Y-%m-%d %H:%M"`: the result is a function of the input text alone,
/// and its calendar fields are in range by construction.
#[verifier::external_body]
pub fn parse_timestamp(s: &str) -> (r: Option<Timestamp>)
    ensures
        r == timestamp_parse(s@),
{
    match chrono::NaiveDateTime::parse_from_str(s, "%Y-%m-%d %H:%M") {
        Ok(dt) => Some(
            Timestamp {
                year: dt.year(),
                month: dt.month() as u8,
                day: dt.day() as u8,
                hour: dt.hour() as u8,
                minute: dt.minute() as u8,
            },
        ),
        Err(_) => None,
    }
}

} // verus!
