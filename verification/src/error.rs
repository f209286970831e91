//! Why a download cannot be planned.
use vstd::prelude::*;
use crate::calendar::{Date, DateTime};

verus! {

/// What is wrong with an hour window.
#[derive(Debug)]
pub enum HourWindowProblem {
    /// The input holds no `-` between START and END.
    MissingSeparator,
    /// A component (as trimmed) is not an hour from 00 to 23.
    NotAnHour { component: String },
    /// END is not after START.
    EndNotAfterStart,
}

/// Why chrono could not read a date or a date-time, one kind for each of
/// the kinds that chrono reports.
#[derive(Debug, Clone, Copy, PartialEq, Eq, Structural)]
pub enum ParseErrorKind {
    /// A field is out of its permitted range.
    OutOfRange,
    /// No date and time has the given fields.
    Impossible,
    /// The fields are not enough for a unique date and time.
    NotEnough,
    /// The input holds characters that the format does not allow there.
    Invalid,
    /// The input ended early.
    TooShort,
    /// Input remains after the whole format was read.
    TooLong,
    /// The format string is malformed or unsupported.
    BadFormat,
    /// A kind that chrono reserves for later use.
    Other,
}

/// The errors of planning a download.
#[derive(Debug)]
pub enum DownloadError {
    /// A start or end date is neither `YYYY-MM-DD-HH` nor `YYYY-MM-DD`.
    ParseDate { input: String, source: ParseErrorKind },
    /// The end date lies before the start date.
    InvalidDateRange { start: DateTime, end: DateTime },
    /// The hour window is malformed.
    InvalidHourWindow { input: String, problem: HourWindowProblem },
    /// The day after `date` cannot be represented.
    DateOverflow { date: Date },
}

}
