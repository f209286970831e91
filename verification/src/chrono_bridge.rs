//! The calls into chrono that the planning logic makes, each behind a
//! trusted item whose contract says what chrono's documentation and source
//! show of it.
use vstd::prelude::*;
use chrono::{Datelike, Timelike};
use chrono::format::ParseErrorKind as ChronoKind;
use crate::error::ParseErrorKind;
use crate::calendar::{
    Date, DateModel, DateTime, DateTimeModel, TimeOfDay, max_epoch_seconds, min_epoch_seconds,
};

verus! {

/// A date-time reading taken by its view.
pub open spec fn date_time_reading(r: Result<DateTime, ParseErrorKind>) -> Result<DateTimeModel, ParseErrorKind> {
    match r {
        Ok(dt) => Ok(dt@),
        Err(k) => Err(k),
    }
}

/// A date reading taken by its view.
pub open spec fn date_reading(r: Result<Date, ParseErrorKind>) -> Result<DateModel, ParseErrorKind> {
    match r {
        Ok(d) => Ok(d@),
        Err(k) => Err(k),
    }
}

/// What `chrono::NaiveDateTime::parse_from_str(s, fmt)` yields: the parsed
/// date-time, or the kind of the error that it reports.
pub uninterp spec fn chrono_parse_date_time(s: Seq<char>, fmt: Seq<char>) -> Result<DateTimeModel, ParseErrorKind>;

/// What `chrono::NaiveDate::parse_from_str(s, fmt)` yields: the parsed date,
/// or the kind of the error that it reports.
pub uninterp spec fn chrono_parse_date(s: Seq<char>, fmt: Seq<char>) -> Result<DateModel, ParseErrorKind>;

/// Calls `chrono::NaiveDateTime::parse_from_str` with the format
/// `%Y-%m-%d-%H-%M`.  Trusted: the result is the named parse result, with
/// chrono's error taken by its kind; a parsed date-time has second 0 and
/// nanosecond 0, since the format names neither and chrono fills absent
/// seconds with 0.  Chrono's strftime parser is not written out here.
#[verifier::external_body]
pub(crate) fn parse_date_time(s: &str, fmt: &str) -> (r: Result<DateTime, ParseErrorKind>)
    requires
        fmt@ == "%Y-%m-%d-%H-%M"@,
    ensures
        date_time_reading(r) == chrono_parse_date_time(s@, fmt@),
        r matches Ok(dt) ==> dt@.time.second == 0 && dt@.time.nanosecond == 0,
{
    match chrono::NaiveDateTime::parse_from_str(s, fmt) {
        Ok(x) => Ok(Date::from_valid_parts(x.year(), x.month(), x.day())
            .and_time(TimeOfDay::from_valid_parts(x.hour(), x.minute(), x.second(), x.nanosecond()))),
        Err(e) => Err(match e.kind() {
            ChronoKind::OutOfRange => ParseErrorKind::OutOfRange,
            ChronoKind::Impossible => ParseErrorKind::Impossible,
            ChronoKind::NotEnough => ParseErrorKind::NotEnough,
            ChronoKind::Invalid => ParseErrorKind::Invalid,
            ChronoKind::TooShort => ParseErrorKind::TooShort,
            ChronoKind::TooLong => ParseErrorKind::TooLong,
            ChronoKind::BadFormat => ParseErrorKind::BadFormat,
            ChronoKind::__Nonexhaustive => ParseErrorKind::Other,
        }),
    }
}

/// Calls `chrono::NaiveDate::parse_from_str`.  Trusted: the result is the
/// named parse result, with chrono's error taken by its kind.
#[verifier::external_body]
pub(crate) fn parse_date(s: &str, fmt: &str) -> (r: Result<Date, ParseErrorKind>)
    ensures
        date_reading(r) == chrono_parse_date(s@, fmt@),
{
    match chrono::NaiveDate::parse_from_str(s, fmt) {
        Ok(x) => Ok(Date::from_valid_parts(x.year(), x.month(), x.day())),
        Err(e) => Err(match e.kind() {
            ChronoKind::OutOfRange => ParseErrorKind::OutOfRange,
            ChronoKind::Impossible => ParseErrorKind::Impossible,
            ChronoKind::NotEnough => ParseErrorKind::NotEnough,
            ChronoKind::Invalid => ParseErrorKind::Invalid,
            ChronoKind::TooShort => ParseErrorKind::TooShort,
            ChronoKind::TooLong => ParseErrorKind::TooLong,
            ChronoKind::BadFormat => ParseErrorKind::BadFormat,
            ChronoKind::__Nonexhaustive => ParseErrorKind::Other,
        }),
    }
}

/// The whole seconds that chrono's `checked_add_signed` starts from when it
/// adds `seconds` whole seconds: a leap second counts as the second before it
/// when moving forward and as the second after it when moving backward.
pub open spec fn add_seconds_base(dt: DateTimeModel, seconds: int) -> int {
    if dt.time.is_leap_second() && seconds < 0 {
        dt.epoch_seconds() + 1
    } else {
        dt.epoch_seconds()
    }
}

/// The nanosecond that chrono's `checked_add_signed` keeps when it adds whole seconds.
pub open spec fn add_seconds_nanosecond(dt: DateTimeModel, seconds: int) -> int {
    if dt.time.is_leap_second() && seconds != 0 {
        dt.time.nanosecond - 1_000_000_000
    } else {
        dt.time.nanosecond
    }
}

/// Calls `chrono::NaiveDateTime::checked_add_signed` with a whole number of
/// seconds.  Trusted: the result is the valid date-time whose whole seconds
/// are those of `dt` plus `seconds` (leap seconds as chrono treats them),
/// with the nanosecond kept; `None` exactly where that instant falls outside
/// chrono's range of dates.
#[verifier::external_body]
pub(crate) fn checked_add_seconds(dt: &DateTime, seconds: i32) -> (r: Option<DateTime>)
    ensures
        r is Some <==> min_epoch_seconds() <= add_seconds_base(dt@, seconds as int) + seconds
            <= max_epoch_seconds(),
        r matches Some(x) ==> x@.epoch_seconds() == add_seconds_base(dt@, seconds as int) + seconds
            && x@.time.nanosecond == add_seconds_nanosecond(dt@, seconds as int),
{
    let (d, t) = (dt.date(), dt.time());
    let naive = chrono::NaiveDate::from_ymd_opt(d.year(), d.month(), d.day())?
        .and_hms_nano_opt(t.hour(), t.minute(), t.second(), t.nanosecond())?;
    let x = naive.checked_add_signed(chrono::TimeDelta::seconds(seconds as i64))?;
    let date = Date::from_valid_parts(x.year(), x.month(), x.day());
    Some(date.and_time(TimeOfDay::from_valid_parts(x.hour(), x.minute(), x.second(), x.nanosecond())))
}

/// Calls `chrono::NaiveDate::succ_opt`.  Trusted: the next calendar day, or
/// `None` on the last representable date.
#[verifier::external_body]
pub(crate) fn succ_date(d: &Date) -> (r: Option<Date>)
    ensures
        r is Some <==> !d@.is_last(),
        r matches Some(x) ==> x@ == d@.next_day(),
{
    let x = chrono::NaiveDate::from_ymd_opt(d.year(), d.month(), d.day())?.succ_opt()?;
    Some(Date::from_valid_parts(x.year(), x.month(), x.day()))
}

pub open spec fn digit_char(n: int) -> char {
    (48 + n) as char
}

/// The decimal digits of a natural number, without leading zeros.
pub open spec fn decimal(n: nat) -> Seq<char>
    decreases n,
{
    if n < 10 {
        seq![digit_char(n as int)]
    } else {
        decimal(n / 10).push(digit_char((n % 10) as int))
    }
}

/// The decimal digits of `n`, with leading zeros up to `width` digits.
pub open spec fn zero_padded(n: nat, width: nat) -> Seq<char> {
    let digits = decimal(n);
    if digits.len() < width {
        Seq::new((width - digits.len()) as nat, |i: int| '0') + digits
    } else {
        digits
    }
}

/// How chrono's `%Y` writes a year: four digits from 0 to 9999, and a sign
/// followed by at least four digits outside that range.
pub open spec fn year_text(y: int) -> Seq<char> {
    if 0 <= y <= 9999 {
        zero_padded(y as nat, 4)
    } else if y < 0 {
        seq!['-'] + zero_padded((-y) as nat, 4)
    } else {
        seq!['+'] + zero_padded(y as nat, 4)
    }
}

/// The text of `%Y-%m-%d-%H` for a date-time.
pub open spec fn date_hour_text(dt: DateTimeModel) -> Seq<char> {
    year_text(dt.date.year) + seq!['-'] + zero_padded(dt.date.month as nat, 2) + seq!['-']
        + zero_padded(dt.date.day as nat, 2) + seq!['-'] + zero_padded(dt.time.hour as nat, 2)
}

/// A number below 100 takes two digits, its tens and its units.
pub proof fn lemma_two_digits(n: nat)
    requires
        n < 100,
    ensures
        zero_padded(n, 2) == seq![(48 + n / 10) as char, (48 + n % 10) as char],
{
    reveal_with_fuel(decimal, 2);
    if n < 10 {
        assert(zero_padded(n, 2) =~= seq!['0', digit_char(n as int)]);
    } else {
        assert(decimal(n / 10) == seq![digit_char((n / 10) as int)]);
        assert(zero_padded(n, 2) =~= seq![digit_char((n / 10) as int), digit_char((n % 10) as int)]);
    }
}

/// A number below 10000 takes four digits, from its thousands to its units.
pub proof fn lemma_four_digits(n: nat)
    requires
        n < 10000,
    ensures
        zero_padded(n, 4) == seq![
            (48 + n / 1000) as char,
            (48 + n / 100 % 10) as char,
            (48 + n / 10 % 10) as char,
            (48 + n % 10) as char,
        ],
{
    reveal_with_fuel(decimal, 4);
    let expect = seq![
        (48 + n / 1000) as char,
        (48 + n / 100 % 10) as char,
        (48 + n / 10 % 10) as char,
        (48 + n % 10) as char,
    ];
    if n < 10 {
        assert(zero_padded(n, 4) =~= expect);
    } else if n < 100 {
        assert(decimal(n / 10) == seq![digit_char((n / 10) as int)]);
        assert(zero_padded(n, 4) =~= expect);
    } else if n < 1000 {
        assert(decimal(n / 10 / 10) == seq![digit_char((n / 10 / 10) as int)]);
        assert(decimal(n / 10) == seq![digit_char((n / 10 / 10) as int), digit_char((n / 10 % 10) as int)]);
        assert(n / 10 / 10 == n / 100);
        assert(zero_padded(n, 4) =~= expect);
    } else {
        assert(decimal(n / 10 / 10 / 10) == seq![digit_char((n / 10 / 10 / 10) as int)]);
        assert(decimal(n / 10 / 10) == seq![
            digit_char((n / 10 / 10 / 10) as int),
            digit_char((n / 10 / 10 % 10) as int),
        ]);
        assert(decimal(n / 10) == seq![
            digit_char((n / 10 / 10 / 10) as int),
            digit_char((n / 10 / 10 % 10) as int),
            digit_char((n / 10 % 10) as int),
        ]);
        assert(n / 10 / 10 == n / 100);
        assert(n / 10 / 10 / 10 == n / 1000);
        assert(zero_padded(n, 4) =~= expect);
    }
}

/// The `%Y-%m-%d-%H` stamp of an instant ends with its hour of day, 00 to
/// 23, in two digits after a `-`; for a year from 0 to 9999 the stamp is
/// the four year digits, then month, day and hour in two digits each, all
/// joined by `-`.
pub proof fn lemma_date_hour_text_digits(dt: DateTimeModel)
    requires
        dt.is_valid(),
    ensures
        ({
            let text = date_hour_text(dt);
            let h = dt.time.hour;
            &&& text.len() >= 3
            &&& text[text.len() - 3] == '-'
            &&& text[text.len() - 2] == (48 + h / 10) as char
            &&& text[text.len() - 1] == (48 + h % 10) as char
        }),
        0 <= dt.date.year <= 9999 ==> date_hour_text(dt) == seq![
            (48 + dt.date.year / 1000) as char,
            (48 + dt.date.year / 100 % 10) as char,
            (48 + dt.date.year / 10 % 10) as char,
            (48 + dt.date.year % 10) as char,
            '-',
            (48 + dt.date.month / 10) as char,
            (48 + dt.date.month % 10) as char,
            '-',
            (48 + dt.date.day / 10) as char,
            (48 + dt.date.day % 10) as char,
            '-',
            (48 + dt.time.hour / 10) as char,
            (48 + dt.time.hour % 10) as char,
        ],
{
    lemma_two_digits(dt.date.month as nat);
    lemma_two_digits(dt.date.day as nat);
    lemma_two_digits(dt.time.hour as nat);
    let text = date_hour_text(dt);
    let head = year_text(dt.date.year) + seq!['-'] + zero_padded(dt.date.month as nat, 2) + seq!['-']
        + zero_padded(dt.date.day as nat, 2) + seq!['-'];
    assert(text == head + zero_padded(dt.time.hour as nat, 2));
    assert(text[text.len() - 3] == head[head.len() - 1]);
    if 0 <= dt.date.year <= 9999 {
        lemma_four_digits(dt.date.year as nat);
        assert(date_hour_text(dt) =~= seq![
            (48 + dt.date.year / 1000) as char,
            (48 + dt.date.year / 100 % 10) as char,
            (48 + dt.date.year / 10 % 10) as char,
            (48 + dt.date.year % 10) as char,
            '-',
            (48 + dt.date.month / 10) as char,
            (48 + dt.date.month % 10) as char,
            '-',
            (48 + dt.date.day / 10) as char,
            (48 + dt.date.day % 10) as char,
            '-',
            (48 + dt.time.hour / 10) as char,
            (48 + dt.time.hour % 10) as char,
        ]);
    }
}

/// Calls `chrono::NaiveDateTime::format(fmt).to_string()` with the format
/// `%Y-%m-%d-%H`.  Trusted: the result is the year (`%Y`: four digits, signed
/// outside 0..=9999), month, day and hour (two digits each) separated by `-`.
#[verifier::external_body]
pub(crate) fn format_date_time(dt: &DateTime, fmt: &str) -> (r: String)
    requires
        fmt@ == "%Y-%m-%d-%H"@,
    ensures
        r@ == date_hour_text(dt@),
{
    let (d, t) = (dt.date(), dt.time());
    let naive = match chrono::NaiveDate::from_ymd_opt(d.year(), d.month(), d.day()) {
        Some(x) => x.and_hms_nano_opt(t.hour(), t.minute(), t.second(), t.nanosecond()),
        None => None,
    };
    match naive {
        Some(x) => x.format(fmt).to_string(),
        None => String::new(),
    }
}

}
