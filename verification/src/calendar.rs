//! A proleptic Gregorian calendar with second and nanosecond resolution.
//!
//! `Date`, `TimeOfDay` and `DateTime` hold the same values as chrono's
//! `NaiveDate`, `NaiveTime` and `NaiveDateTime` (including chrono's leap
//! second representation), as plain integers.  Each exec type has a view
//! (`DateModel`, `TimeModel`, `DateTimeModel`) in which all contracts are
//! stated.
use vstd::prelude::*;
use crate::chrono_bridge::{add_seconds_base, add_seconds_nanosecond, checked_add_seconds};

verus! {

/// First year that chrono's `NaiveDate` represents.
pub const MIN_YEAR: i32 = -262143;

/// Last year that chrono's `NaiveDate` represents.
pub const MAX_YEAR: i32 = 262142;

pub open spec fn is_leap_year(y: int) -> bool {
    (y % 4 == 0 && y % 100 != 0) || y % 400 == 0
}

pub open spec fn days_in_month(y: int, m: int) -> int {
    if m == 2 {
        if is_leap_year(y) { 29 } else { 28 }
    } else if m == 4 || m == 6 || m == 9 || m == 11 {
        30
    } else {
        31
    }
}

/// Days of the year `y` that precede the first day of month `m`.
pub open spec fn days_before_month(y: int, m: int) -> int {
    let base: int = if m <= 1 { 0 }
        else if m == 2 { 31 }
        else if m == 3 { 59 }
        else if m == 4 { 90 }
        else if m == 5 { 120 }
        else if m == 6 { 151 }
        else if m == 7 { 181 }
        else if m == 8 { 212 }
        else if m == 9 { 243 }
        else if m == 10 { 273 }
        else if m == 11 { 304 }
        else { 334 };
    if m > 2 && is_leap_year(y) { base + 1 } else { base }
}

/// Days from 1 January of year 0 to 1 January of year `y` (negative before year 0).
pub open spec fn days_before_year(y: int) -> int {
    365 * y + (y + 3) / 4 - (y + 99) / 100 + (y + 399) / 400
}

/// A calendar date as mathematical integers.
pub struct DateModel {
    pub year: int,
    pub month: int,
    pub day: int,
}

/// A time of day as mathematical integers; `nanosecond` reaches up to
/// 1_999_999_999 on a leap second, as in chrono.
pub struct TimeModel {
    pub hour: int,
    pub minute: int,
    pub second: int,
    pub nanosecond: int,
}

/// A date together with a time of day.
pub struct DateTimeModel {
    pub date: DateModel,
    pub time: TimeModel,
}

impl DateModel {
    pub open spec fn is_valid(self) -> bool {
        &&& MIN_YEAR <= self.year <= MAX_YEAR
        &&& 1 <= self.month <= 12
        &&& 1 <= self.day <= days_in_month(self.year, self.month)
    }

    /// A number that orders dates as the calendar does.
    pub open spec fn key(self) -> int {
        self.year * 416 + self.month * 32 + self.day
    }

    /// Number of days since 1 January of year 0.
    pub open spec fn day_number(self) -> int {
        days_before_year(self.year) + days_before_month(self.year, self.month) + self.day - 1
    }

    pub open spec fn is_last(self) -> bool {
        self.year == MAX_YEAR && self.month == 12 && self.day == 31
    }

    pub open spec fn is_first(self) -> bool {
        self.year == MIN_YEAR && self.month == 1 && self.day == 1
    }

    /// The following calendar day (past the last representable date it
    /// leaves the representable range).
    pub open spec fn next_day(self) -> DateModel {
        if self.day < days_in_month(self.year, self.month) {
            DateModel { year: self.year, month: self.month, day: self.day + 1 }
        } else if self.month < 12 {
            DateModel { year: self.year, month: self.month + 1, day: 1 }
        } else {
            DateModel { year: self.year + 1, month: 1, day: 1 }
        }
    }

    /// The preceding calendar day.
    pub open spec fn prev_day(self) -> DateModel {
        if self.day > 1 {
            DateModel { year: self.year, month: self.month, day: self.day - 1 }
        } else if self.month > 1 {
            DateModel {
                year: self.year,
                month: self.month - 1,
                day: days_in_month(self.year, self.month - 1),
            }
        } else {
            DateModel { year: self.year - 1, month: 12, day: 31 }
        }
    }

    pub open spec fn at(self, t: TimeModel) -> DateTimeModel {
        DateTimeModel { date: self, time: t }
    }
}

pub open spec fn first_date() -> DateModel {
    DateModel { year: MIN_YEAR as int, month: 1, day: 1 }
}

pub open spec fn last_date() -> DateModel {
    DateModel { year: MAX_YEAR as int, month: 12, day: 31 }
}

impl TimeModel {
    pub open spec fn is_valid(self) -> bool {
        &&& 0 <= self.hour < 24
        &&& 0 <= self.minute < 60
        &&& 0 <= self.second < 60
        &&& 0 <= self.nanosecond < 2_000_000_000
        &&& self.nanosecond >= 1_000_000_000 ==> self.second == 59
    }

    pub open spec fn hms(h: int, m: int, s: int) -> TimeModel {
        TimeModel { hour: h, minute: m, second: s, nanosecond: 0 }
    }

    pub open spec fn seconds_of_day(self) -> int {
        self.hour * 3600 + self.minute * 60 + self.second
    }

    /// A number that orders times of day as chrono does.
    pub open spec fn key(self) -> int {
        self.seconds_of_day() * 2_000_000_000 + self.nanosecond
    }

    pub open spec fn is_leap_second(self) -> bool {
        self.nanosecond >= 1_000_000_000
    }

    pub open spec fn is_midnight(self) -> bool {
        self.hour == 0 && self.minute == 0 && self.second == 0
    }

    /// The time one second earlier on the same day (not defined at midnight).
    pub open spec fn second_earlier(self) -> TimeModel {
        if self.second > 0 {
            TimeModel { second: self.second - 1, ..self }
        } else if self.minute > 0 {
            TimeModel { minute: self.minute - 1, second: 59, ..self }
        } else {
            TimeModel { hour: self.hour - 1, minute: 59, second: 59, ..self }
        }
    }
}

impl DateTimeModel {
    pub open spec fn is_valid(self) -> bool {
        self.date.is_valid() && self.time.is_valid()
    }

    /// A number that orders date-times as chrono does.
    pub open spec fn key(self) -> int {
        self.date.key() * 172_800_000_000_000 + self.time.key()
    }

    /// Whole seconds elapsed since 0000-01-01 00:00:00 (the nanosecond is not counted).
    pub open spec fn epoch_seconds(self) -> int {
        self.date.day_number() * 86400 + self.time.seconds_of_day()
    }

    /// The start of the hour that holds this instant.
    pub open spec fn hour_start(self) -> DateTimeModel {
        DateTimeModel { date: self.date, time: TimeModel::hms(self.time.hour, 0, 0) }
    }

    /// The same minute, second and nanosecond one hour later.
    pub open spec fn hour_later(self) -> DateTimeModel {
        if self.time.hour < 23 {
            DateTimeModel { date: self.date, time: TimeModel { hour: self.time.hour + 1, ..self.time } }
        } else {
            DateTimeModel { date: self.date.next_day(), time: TimeModel { hour: 0, ..self.time } }
        }
    }

    /// The last whole second of the hour that holds this instant.
    pub open spec fn hour_last_second(self) -> DateTimeModel {
        DateTimeModel { date: self.date, time: TimeModel::hms(self.time.hour, 59, 59) }
    }

    /// The instant one second earlier (a leap second steps back onto the
    /// second it extends).
    pub open spec fn second_earlier(self) -> DateTimeModel {
        if self.time.is_leap_second() {
            DateTimeModel {
                date: self.date,
                time: TimeModel { nanosecond: self.time.nanosecond - 1_000_000_000, ..self.time },
            }
        } else if self.time.is_midnight() {
            DateTimeModel {
                date: self.date.prev_day(),
                time: TimeModel { hour: 23, minute: 59, second: 59, ..self.time },
            }
        } else {
            DateTimeModel { date: self.date, time: self.time.second_earlier() }
        }
    }

    pub open spec fn earlier_of(self, other: DateTimeModel) -> DateTimeModel {
        if self.key() <= other.key() { self } else { other }
    }

    pub open spec fn later_of(self, other: DateTimeModel) -> DateTimeModel {
        if self.key() >= other.key() { self } else { other }
    }
}

/// Whole seconds of the first representable instant.
pub open spec fn min_epoch_seconds() -> int {
    first_date().at(TimeModel::hms(0, 0, 0)).epoch_seconds()
}

/// Whole seconds of the last representable whole second.
pub open spec fn max_epoch_seconds() -> int {
    last_date().at(TimeModel::hms(23, 59, 59)).epoch_seconds()
}

// ----------------------------------------------------------------------
// Lemmas on the calendar
// ----------------------------------------------------------------------

pub proof fn lemma_days_in_month_bounds(y: int, m: int)
    ensures
        28 <= days_in_month(y, m) <= 31,
        days_before_month(y, 1) == 0,
        1 <= m < 12 ==> days_before_month(y, m) + days_in_month(y, m) == days_before_month(y, m + 1),
        days_before_month(y, 12) + days_in_month(y, 12) == 365 + (if is_leap_year(y) { 1int } else { 0 }),
{
}

#[verifier::spinoff_prover]
proof fn lemma_quarter_step(y: int)
    ensures
        (y + 4) / 4 == (y + 3) / 4 + (if y % 4 == 0 { 1int } else { 0 }),
{
}

#[verifier::spinoff_prover]
proof fn lemma_century_step(y: int)
    ensures
        (y + 100) / 100 == (y + 99) / 100 + (if y % 100 == 0 { 1int } else { 0 }),
{
}

#[verifier::spinoff_prover]
proof fn lemma_four_century_step(y: int)
    ensures
        (y + 400) / 400 == (y + 399) / 400 + (if y % 400 == 0 { 1int } else { 0 }),
{
}

#[verifier::spinoff_prover]
pub proof fn lemma_days_before_year_step(y: int)
    ensures
        days_before_year(y + 1) == days_before_year(y) + 365 + (if is_leap_year(y) { 1int } else { 0 }),
{
    lemma_quarter_step(y);
    lemma_century_step(y);
    lemma_four_century_step(y);
    assert(y % 400 == 0 ==> y % 100 == 0 && y % 4 == 0);
    assert(y % 100 == 0 ==> y % 4 == 0);
}

#[verifier::spinoff_prover]
pub proof fn lemma_days_before_year_mono(a: int, b: int)
    requires
        a < b,
    ensures
        days_before_year(a) + 365 <= days_before_year(b),
{
    assert((a + 3) / 4 <= (b + 3) / 4) by {
        vstd::arithmetic::div_mod::lemma_div_is_ordered(a + 3, b + 3, 4);
    }
    assert((a + 399) / 400 <= (b + 399) / 400) by {
        vstd::arithmetic::div_mod::lemma_div_is_ordered(a + 399, b + 399, 400);
    }
    assert((b + 99) / 100 - (a + 99) / 100 <= (b - a) / 100 + 1);
}

/// The next day of a valid date that is not the last one is valid and one day later.
pub proof fn lemma_next_day(d: DateModel)
    requires
        d.is_valid(),
        !d.is_last(),
    ensures
        d.next_day().is_valid(),
        d.next_day().day_number() == d.day_number() + 1,
        d.next_day().key() > d.key(),
        d.next_day().prev_day() == d,
{
    lemma_days_in_month_bounds(d.year, d.month);
    lemma_days_before_year_step(d.year);
}

/// The previous day of a valid date that is not the first one is valid, and its next day is the date.
pub proof fn lemma_prev_day(d: DateModel)
    requires
        d.is_valid(),
        !d.is_first(),
    ensures
        d.prev_day().is_valid(),
        !d.prev_day().is_last(),
        d.prev_day().next_day() == d,
{
    lemma_days_in_month_bounds(d.year, d.month - 1);
}

/// Between a date and its next day there is no other date.
pub proof fn lemma_next_day_is_successor(d: DateModel, x: DateModel)
    requires
        d.is_valid(),
        x.is_valid(),
        d.key() < x.key(),
    ensures
        d.next_day().key() <= x.key(),
{
    lemma_days_in_month_bounds(d.year, d.month);
    lemma_days_in_month_bounds(x.year, x.month);
}

/// Day numbers order valid dates as the calendar does.
#[verifier::spinoff_prover]
pub proof fn lemma_day_number_order(a: DateModel, b: DateModel)
    requires
        a.is_valid(),
        b.is_valid(),
        a.key() < b.key(),
    ensures
        a.day_number() < b.day_number(),
{
    lemma_days_in_month_bounds(a.year, a.month);
    lemma_days_in_month_bounds(b.year, b.month);
    if a.year == b.year {
        if a.month < b.month {
            lemma_days_before_month_gap(a.year, a.month, b.month);
        }
    } else {
        lemma_days_before_year_mono(a.year, b.year);
        lemma_days_before_month_bounds(a.year, a.month);
        lemma_days_before_month_bounds(b.year, b.month);
    }
}

proof fn lemma_days_before_month_gap(y: int, m1: int, m2: int)
    requires
        1 <= m1 < m2 <= 12,
    ensures
        days_before_month(y, m1) + days_in_month(y, m1) <= days_before_month(y, m2),
{
}

proof fn lemma_days_before_month_bounds(y: int, m: int)
    requires
        1 <= m <= 12,
    ensures
        0 <= days_before_month(y, m),
        days_before_month(y, m) + days_in_month(y, m) <= 365 + (if is_leap_year(y) { 1int } else { 0 }),
{
}

/// Two valid date-times with the same whole seconds and nanosecond are equal.
pub proof fn lemma_epoch_seconds_injective(a: DateTimeModel, b: DateTimeModel)
    requires
        a.is_valid(),
        b.is_valid(),
        a.epoch_seconds() == b.epoch_seconds(),
        a.time.nanosecond == b.time.nanosecond,
    ensures
        a == b,
{
    let da = a.date.day_number();
    let db = b.date.day_number();
    let sa = a.time.seconds_of_day();
    let sb = b.time.seconds_of_day();
    assert(0 <= sa < 86400 && 0 <= sb < 86400);
    assert(da == db) by {
        assert(da * 86400 + sa == db * 86400 + sb);
        if da < db {
            assert(da * 86400 + sa < db * 86400) by (nonlinear_arith)
                requires da < db, sa < 86400;
        } else if db < da {
            assert(db * 86400 + sb < da * 86400) by (nonlinear_arith)
                requires db < da, sb < 86400;
        }
    }
    assert(a.date.key() == b.date.key()) by {
        if a.date.key() < b.date.key() {
            lemma_day_number_order(a.date, b.date);
        } else if b.date.key() < a.date.key() {
            lemma_day_number_order(b.date, a.date);
        }
    }
    assert(a.date == b.date);
    assert(sa == sb);
    assert(a.time == b.time);
}

/// Whole seconds order valid date-times as keys do (up to the nanosecond).
pub proof fn lemma_epoch_seconds_order(a: DateTimeModel, b: DateTimeModel)
    requires
        a.is_valid(),
        b.is_valid(),
        a.key() <= b.key(),
    ensures
        a.epoch_seconds() <= b.epoch_seconds(),
{
    if a.date.key() < b.date.key() {
        lemma_day_number_order(a.date, b.date);
    } else {
        assert(a.date.key() == b.date.key());
    }
}

/// Every valid whole-second instant lies within the representable range of seconds.
pub proof fn lemma_epoch_seconds_range(a: DateTimeModel)
    requires
        a.is_valid(),
    ensures
        min_epoch_seconds() <= a.epoch_seconds() <= max_epoch_seconds(),
{
    let lo = first_date().at(TimeModel::hms(0, 0, 0));
    let hi = last_date().at(TimeModel::hms(23, 59, 59));
    lemma_days_in_month_bounds(MAX_YEAR as int, 12);
    assert(hi.is_valid());
    assert(lo.is_valid());
    let hi_n = last_date().at(TimeModel { hour: 23, minute: 59, second: 59, nanosecond: a.time.nanosecond });
    lemma_epoch_seconds_order(lo, a);
    lemma_epoch_seconds_order(a, hi_n);
}


// ----------------------------------------------------------------------
// Executable values
// ----------------------------------------------------------------------

/// A calendar date in chrono's range (the value of a `NaiveDate`).
#[derive(Clone, Copy, Debug, PartialEq, Eq, Structural)]
pub struct Date {
    year: i32,
    month: u32,
    day: u32,
}

/// A time of day (the value of a `NaiveTime`).
#[derive(Clone, Copy, Debug, PartialEq, Eq, Structural)]
pub struct TimeOfDay {
    hour: u32,
    minute: u32,
    second: u32,
    nanosecond: u32,
}

/// A date and a time of day (the value of a `NaiveDateTime`).
#[derive(Clone, Copy, Debug, PartialEq, Eq, Structural)]
pub struct DateTime {
    date: Date,
    time: TimeOfDay,
}

impl View for Date {
    type V = DateModel;

    closed spec fn view(&self) -> DateModel {
        DateModel { year: self.year as int, month: self.month as int, day: self.day as int }
    }
}

impl View for TimeOfDay {
    type V = TimeModel;

    closed spec fn view(&self) -> TimeModel {
        TimeModel {
            hour: self.hour as int,
            minute: self.minute as int,
            second: self.second as int,
            nanosecond: self.nanosecond as int,
        }
    }
}

impl View for DateTime {
    type V = DateTimeModel;

    closed spec fn view(&self) -> DateTimeModel {
        DateTimeModel { date: self.date@, time: self.time@ }
    }
}

fn days_in_month_exec(y: i32, m: u32) -> (r: u32)
    requires
        MIN_YEAR <= y <= MAX_YEAR,
        1 <= m <= 12,
    ensures
        r == days_in_month(y as int, m as int),
{
    if m == 2 {
        // shifted by a multiple of 400 so that the remainders are taken of a positive number
        let shifted: u32 = (y as i64 + 400_000) as u32;
        assert(shifted % 4 == y % 4 && shifted % 100 == y % 100 && shifted % 400 == y % 400);
        if (shifted % 4 == 0 && shifted % 100 != 0) || shifted % 400 == 0 {
            29
        } else {
            28
        }
    } else if m == 4 || m == 6 || m == 9 || m == 11 {
        30
    } else {
        31
    }
}

impl Date {
    #[verifier::type_invariant]
    pub(crate) open spec fn well_formed(self) -> bool {
        self@.is_valid()
    }

    /// Builds a date from parts already known to form a valid date.
    pub(crate) fn from_valid_parts(year: i32, month: u32, day: u32) -> (r: Date)
        requires
            (DateModel { year: year as int, month: month as int, day: day as int }).is_valid(),
        ensures
            r@ == (DateModel { year: year as int, month: month as int, day: day as int }),
    {
        Date { year, month, day }
    }

    /// The date `year-month-day`, or `None` where no such date exists in chrono's range.
    pub fn from_ymd_opt(year: i32, month: u32, day: u32) -> (r: Option<Date>)
        ensures
            r is Some <==> (DateModel { year: year as int, month: month as int, day: day as int }).is_valid(),
            r matches Some(d) ==> d@ == (DateModel { year: year as int, month: month as int, day: day as int }),
    {
        if year < MIN_YEAR || year > MAX_YEAR || month < 1 || month > 12 {
            return None;
        }
        let dim = days_in_month_exec(year, month);
        if day < 1 || day > dim {
            None
        } else {
            Some(Date { year, month, day })
        }
    }

    pub fn year(&self) -> (r: i32)
        ensures
            r == self@.year,
    {
        self.year
    }

    pub fn month(&self) -> (r: u32)
        ensures
            r == self@.month,
    {
        self.month
    }

    pub fn day(&self) -> (r: u32)
        ensures
            r == self@.day,
    {
        self.day
    }

    /// The date at `hour:minute:second`, or `None` where these do not form a time of day.
    pub fn and_hms_opt(&self, hour: u32, minute: u32, second: u32) -> (r: Option<DateTime>)
        ensures
            r is Some <==> (hour < 24 && minute < 60 && second < 60),
            r matches Some(dt) ==> dt@ == self@.at(TimeModel::hms(hour as int, minute as int, second as int)),
    {
        match TimeOfDay::from_hms_opt(hour, minute, second) {
            Some(t) => Some(self.and_time(t)),
            None => None,
        }
    }

    /// The date at the given time of day.
    pub fn and_time(&self, time: TimeOfDay) -> (r: DateTime)
        ensures
            r@ == self@.at(time@),
    {
        proof {
            use_type_invariant(self);
            use_type_invariant(&time);
        }
        DateTime { date: *self, time }
    }

    pub fn is_last(&self) -> (r: bool)
        ensures
            r == self@.is_last(),
    {
        self.year == MAX_YEAR && self.month == 12 && self.day == 31
    }

    /// A number that orders dates as the calendar does.
    pub fn key(&self) -> (r: i64)
        ensures
            r == self@.key(),
    {
        proof {
            use_type_invariant(self);
        }
        self.year as i64 * 416 + self.month as i64 * 32 + self.day as i64
    }
}

impl TimeOfDay {
    #[verifier::type_invariant]
    pub(crate) open spec fn well_formed(self) -> bool {
        self@.is_valid()
    }

    /// Builds a time of day from parts already known to form a valid one.
    pub(crate) fn from_valid_parts(hour: u32, minute: u32, second: u32, nanosecond: u32) -> (r: TimeOfDay)
        requires
            (TimeModel {
                hour: hour as int,
                minute: minute as int,
                second: second as int,
                nanosecond: nanosecond as int,
            }).is_valid(),
        ensures
            r@ == (TimeModel {
                hour: hour as int,
                minute: minute as int,
                second: second as int,
                nanosecond: nanosecond as int,
            }),
    {
        TimeOfDay { hour, minute, second, nanosecond }
    }

    /// The time `hour:minute:second`, or `None` where these do not form a time of day.
    pub fn from_hms_opt(hour: u32, minute: u32, second: u32) -> (r: Option<TimeOfDay>)
        ensures
            r is Some <==> (hour < 24 && minute < 60 && second < 60),
            r matches Some(t) ==> t@ == TimeModel::hms(hour as int, minute as int, second as int),
    {
        if hour < 24 && minute < 60 && second < 60 {
            Some(TimeOfDay { hour, minute, second, nanosecond: 0 })
        } else {
            None
        }
    }

    pub fn hour(&self) -> (r: u32)
        ensures
            r == self@.hour,
    {
        self.hour
    }

    pub fn minute(&self) -> (r: u32)
        ensures
            r == self@.minute,
    {
        self.minute
    }

    pub fn second(&self) -> (r: u32)
        ensures
            r == self@.second,
    {
        self.second
    }

    pub fn nanosecond(&self) -> (r: u32)
        ensures
            r == self@.nanosecond,
    {
        self.nanosecond
    }

    /// A number that orders times of day as chrono does.
    pub fn key(&self) -> (r: i64)
        ensures
            r == self@.key(),
    {
        proof {
            use_type_invariant(self);
        }
        (self.hour as i64 * 3600 + self.minute as i64 * 60 + self.second as i64) * 2_000_000_000
            + self.nanosecond as i64
    }
}

impl DateTime {
    #[verifier::type_invariant]
    pub(crate) open spec fn well_formed(self) -> bool {
        self@.is_valid()
    }

    pub fn date(&self) -> (r: Date)
        ensures
            r@ == self@.date,
    {
        self.date
    }

    pub fn time(&self) -> (r: TimeOfDay)
        ensures
            r@ == self@.time,
    {
        self.time
    }

    pub fn hour(&self) -> (r: u32)
        ensures
            r == self@.time.hour,
    {
        self.time.hour
    }

    /// The start of the hour that holds this instant.
    pub fn hour_start(&self) -> (r: DateTime)
        ensures
            r@ == self@.hour_start(),
    {
        proof {
            use_type_invariant(self);
        }
        DateTime { date: self.date, time: TimeOfDay { hour: self.time.hour, minute: 0, second: 0, nanosecond: 0 } }
    }

    /// A number that orders date-times as chrono does.
    pub fn key(&self) -> (r: i128)
        ensures
            r == self@.key(),
    {
        self.date.key() as i128 * 172_800_000_000_000 + self.time.key() as i128
    }

    /// The same time one hour later, computed by chrono.
    pub fn plus_one_hour(&self) -> (r: DateTime)
        requires
            !self@.time.is_leap_second(),
            !(self@.date.is_last() && self@.time.hour == 23),
        ensures
            r@ == self@.hour_later(),
    {
        proof {
            use_type_invariant(self);
        }
        let ghost c = self@.hour_later();
        proof {
            if self@.time.hour == 23 {
                lemma_next_day(self@.date);
            }
            assert(c.is_valid());
            assert(c.epoch_seconds() == self@.epoch_seconds() + 3600);
            lemma_epoch_seconds_range(c);
        }
        let r = checked_add_seconds(self, 3600);
        match r {
            Some(x) => {
                proof {
                    use_type_invariant(&x);
                    lemma_epoch_seconds_injective(x@, c);
                }
                x
            },
            None => {
                proof {
                    assert(false);
                }
                *self
            },
        }
    }

    /// The instant one second earlier, computed by chrono.
    pub fn minus_one_second(&self) -> (r: DateTime)
        requires
            !(self@.date.is_first() && self@.time.is_midnight()),
        ensures
            r@ == self@.second_earlier(),
    {
        proof {
            use_type_invariant(self);
        }
        let ghost c = self@.second_earlier();
        proof {
            if !self@.time.is_leap_second() && self@.time.is_midnight() {
                lemma_prev_day(self@.date);
                lemma_next_day(self@.date.prev_day());
            }
            assert(c.is_valid());
            assert(c.epoch_seconds() == add_seconds_base(self@, -1) - 1);
            assert(c.time.nanosecond == add_seconds_nanosecond(self@, -1));
            lemma_epoch_seconds_range(c);
        }
        let r = checked_add_seconds(self, -1);
        match r {
            Some(x) => {
                proof {
                    use_type_invariant(&x);
                    lemma_epoch_seconds_injective(x@, c);
                }
                x
            },
            None => {
                proof {
                    assert(false);
                }
                *self
            },
        }
    }

    /// The later of two instants.
    pub fn later_of(&self, other: &DateTime) -> (r: DateTime)
        ensures
            r@ == self@.later_of(other@),
    {
        if self.key() >= other.key() { *self } else { *other }
    }

    /// The earlier of two instants.
    pub fn earlier_of(&self, other: &DateTime) -> (r: DateTime)
        ensures
            r@ == self@.earlier_of(other@),
    {
        if self.key() <= other.key() { *self } else { *other }
    }
}

}
