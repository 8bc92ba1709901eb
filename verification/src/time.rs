//! Instants, calendar dates and weekdays as plain integers.

use chrono::{Datelike, TimeZone};
use vstd::prelude::*;
use vstd::string::StringExecFns;

verus! {

/// An instant with nanosecond resolution, together with the fixed offset
/// (seconds east of UTC) it is displayed in.
///
/// Two timestamps are ordered by their instant alone; the offset never
/// takes part in a comparison.
#[derive(Clone, Copy, Debug, PartialEq, Eq, Structural)]
pub struct Timestamp {
    /// Whole seconds since 1970-01-01T00:00:00Z.
    pub seconds: i64,
    /// Nanoseconds past `seconds`.
    pub nanos: u32,
    /// Display offset in seconds east of UTC.
    pub offset: i32,
}

impl Timestamp {
    /// `self` is strictly earlier than `other`.
    pub open spec fn before(self, other: Timestamp) -> bool {
        self.seconds < other.seconds || (self.seconds == other.seconds && self.nanos
            < other.nanos)
    }

    /// `self` is not later than `other`.
    pub open spec fn at_or_before(self, other: Timestamp) -> bool {
        !other.before(self)
    }

    /// `self` and `other` denote the same instant.
    pub open spec fn same_instant(self, other: Timestamp) -> bool {
        self.seconds == other.seconds && self.nanos == other.nanos
    }

    /// Whether `self` is strictly earlier than `other`.
    pub fn is_before(&self, other: &Timestamp) -> (b: bool)
        ensures
            b == self.before(*other),
    {
        self.seconds < other.seconds || (self.seconds == other.seconds && self.nanos
            < other.nanos)
    }

    /// Whether `self` is strictly later than `other`.
    pub fn is_after(&self, other: &Timestamp) -> (b: bool)
        ensures
            b == other.before(*self),
    {
        other.is_before(self)
    }
}

/// A day of the week.
#[derive(Clone, Copy, Debug, PartialEq, Eq, Structural)]
pub enum Weekday {
    Mon,
    Tue,
    Wed,
    Thu,
    Fri,
    Sat,
    Sun,
}

impl Weekday {
    /// The number of days since Monday.
    pub open spec fn index(self) -> int {
        match self {
            Weekday::Mon => 0,
            Weekday::Tue => 1,
            Weekday::Wed => 2,
            Weekday::Thu => 3,
            Weekday::Fri => 4,
            Weekday::Sat => 5,
            Weekday::Sun => 6,
        }
    }

    /// The weekday that lies `n` days after a Monday.
    pub open spec fn at(n: int) -> Weekday {
        if n % 7 == 0 {
            Weekday::Mon
        } else if n % 7 == 1 {
            Weekday::Tue
        } else if n % 7 == 2 {
            Weekday::Wed
        } else if n % 7 == 3 {
            Weekday::Thu
        } else if n % 7 == 4 {
            Weekday::Fri
        } else if n % 7 == 5 {
            Weekday::Sat
        } else {
            Weekday::Sun
        }
    }

    /// The weekday that lies `n` days after a Monday, for `n` below 7.
    pub fn from_index(n: u32) -> (res: Option<Weekday>)
        ensures
            res is Some <==> n < 7,
            res matches Some(w) ==> w.index() == n && w == Weekday::at(n as int),
    {
        match n {
            0 => Some(Weekday::Mon),
            1 => Some(Weekday::Tue),
            2 => Some(Weekday::Wed),
            3 => Some(Weekday::Thu),
            4 => Some(Weekday::Fri),
            5 => Some(Weekday::Sat),
            6 => Some(Weekday::Sun),
            _ => None,
        }
    }
}

/// The weekday of a date of the proleptic Gregorian calendar, counted in
/// days since Monday, as `chrono` computes it; `None` where `chrono` has
/// no such date.
pub uninterp spec fn calendar_weekday(year: int, month: int, day: int) -> Option<int>;

/// The instant, in seconds since 1970-01-01T00:00:00Z, at which clocks in
/// the `US/Pacific` zone show the given civil date and time, as `chrono`
/// and `chrono_tz` compute it; `None` where the date or the time of day
/// does not exist, where the clocks skip that time, and where they show it
/// twice.
pub uninterp spec fn pacific_epoch_seconds(
    year: int,
    month: int,
    day: int,
    hour: int,
    minute: int,
    second: int,
) -> Option<int>;

/// Calls `chrono::NaiveDate::from_ymd_opt` and, on the date it returns,
/// `Datelike::weekday` and `Weekday::num_days_from_monday`.
///
/// Not proved: that the result is the value [`calendar_weekday`] names,
/// and that the number of days since Monday is below 7.
#[verifier::external_body]
fn weekday_index(year: i32, month: u32, day: u32) -> (res: Option<u32>)
    ensures
        res is Some <==> calendar_weekday(year as int, month as int, day as int) is Some,
        res matches Some(n) ==> n < 7 && calendar_weekday(year as int, month as int, day as int)
            == Some(n as int),
{
    match chrono::NaiveDate::from_ymd_opt(year, month, day) {
        Some(date) => Some(date.weekday().num_days_from_monday()),
        None => None,
    }
}

/// Calls `chrono::NaiveDate::from_ymd_opt`, `NaiveDate::and_hms_opt`,
/// `TimeZone::from_local_datetime` on `chrono_tz::US::Pacific`,
/// `LocalResult::single` and `DateTime::timestamp`.
///
/// Not proved: that the result is the value [`pacific_epoch_seconds`]
/// names.
#[verifier::external_body]
fn pacific_seconds(year: i32, month: u32, day: u32, hour: u32, minute: u32, second: u32) -> (res:
    Option<i64>)
    ensures
        res is Some <==> pacific_epoch_seconds(
            year as int,
            month as int,
            day as int,
            hour as int,
            minute as int,
            second as int,
        ) is Some,
        res matches Some(t) ==> pacific_epoch_seconds(
            year as int,
            month as int,
            day as int,
            hour as int,
            minute as int,
            second as int,
        ) == Some(t as int),
{
    let date = chrono::NaiveDate::from_ymd_opt(year, month, day)?;
    let local = date.and_hms_opt(hour, minute, second)?;
    let at = chrono_tz::US::Pacific.from_local_datetime(&local).single()?;
    Some(at.timestamp())
}

/// A date of the calendar, with its weekday.
///
/// Every value is a date that exists, and carries the weekday that the
/// date falls on.
#[derive(Clone, Copy, Debug, PartialEq, Eq)]
pub struct Date {
    year: i32,
    month: u32,
    day: u32,
    weekday: Weekday,
}

/// What a [`Date`] holds, as mathematical values.
pub struct DateView {
    pub year: int,
    pub month: int,
    pub day: int,
    pub weekday: Weekday,
}

impl DateView {
    /// `self` is an earlier day than `other`.
    pub open spec fn before(self, other: DateView) -> bool {
        self.year < other.year || (self.year == other.year && (self.month < other.month || (
        self.month == other.month && self.day < other.day)))
    }

    /// `self` is no later day than `other`.
    pub open spec fn at_or_before(self, other: DateView) -> bool {
        !other.before(self)
    }
}

/// The date with the given year, month and day of the month, with its
/// weekday, if the calendar has it.
pub open spec fn date_on_calendar(year: int, month: int, day: int) -> Option<DateView> {
    match calendar_weekday(year, month, day) {
        Some(n) => Some(DateView { year, month, day, weekday: Weekday::at(n) }),
        None => None,
    }
}

/// The date that a number of the form `yyyymmdd` writes down, if there is
/// one: none for a negative number, for a year beyond `i32`, and where the
/// calendar has no such date.
pub open spec fn date_of_num(x: i64) -> Option<DateView> {
    if 0 <= x && x / 10_000 <= i32::MAX {
        date_on_calendar(x / 10_000, (x / 100) % 100, (x % 100) as int)
    } else {
        None
    }
}

impl View for Date {
    type V = DateView;

    closed spec fn view(&self) -> DateView {
        DateView {
            year: self.year as int,
            month: self.month as int,
            day: self.day as int,
            weekday: self.weekday,
        }
    }
}

impl Date {
    #[verifier::type_invariant]
    spec fn on_calendar(self) -> bool {
        date_on_calendar(self.year as int, self.month as int, self.day as int) == Some(self@)
    }

    /// The date with the given year, month (from 1) and day of the month
    /// (from 1), if the calendar has it.
    pub fn from_ymd(year: i32, month: u32, day: u32) -> (res: Option<Date>)
        ensures
            res is Some <==> date_on_calendar(year as int, month as int, day as int) is Some,
            res matches Some(date) ==> Some(date@) == date_on_calendar(
                year as int,
                month as int,
                day as int,
            ),
    {
        match weekday_index(year, month, day) {
            Some(n) => match Weekday::from_index(n) {
                Some(weekday) => Some(Date { year, month, day, weekday }),
                None => None,
            },
            None => None,
        }
    }

    /// The year.
    pub fn year(&self) -> (res: i32)
        ensures
            res == self@.year,
    {
        self.year
    }

    /// The month, from 1.
    pub fn month(&self) -> (res: u32)
        ensures
            res == self@.month,
    {
        self.month
    }

    /// The day of the month, from 1.
    pub fn day(&self) -> (res: u32)
        ensures
            res == self@.day,
    {
        self.day
    }

    /// The day of the week that the date falls on.
    pub fn weekday(&self) -> (res: Weekday)
        ensures
            res == self@.weekday,
            date_on_calendar(self@.year, self@.month, self@.day) == Some(self@),
    {
        proof {
            use_type_invariant(self);
        }
        self.weekday
    }

    /// Whether `self` is an earlier day than `other`.
    pub fn is_before(&self, other: &Date) -> (b: bool)
        ensures
            b == self@.before(other@),
    {
        self.year < other.year || (self.year == other.year && (self.month < other.month || (
        self.month == other.month && self.day < other.day)))
    }

    /// The instant at which clocks in the `US/Pacific` zone show this date
    /// and the given time of day, displayed in UTC.
    pub fn at_pacific(&self, hour: u32, minute: u32, second: u32) -> (res: Option<Timestamp>)
        ensures
            res is Some <==> pacific_epoch_seconds(
                self@.year,
                self@.month,
                self@.day,
                hour as int,
                minute as int,
                second as int,
            ) is Some,
            res matches Some(t) ==> t.nanos == 0 && t.offset == 0 && pacific_epoch_seconds(
                self@.year,
                self@.month,
                self@.day,
                hour as int,
                minute as int,
                second as int,
            ) == Some(t.seconds as int),
    {
        match pacific_seconds(self.year, self.month, self.day, hour, minute, second) {
            Some(seconds) => Some(Timestamp { seconds, nanos: 0, offset: 0 }),
            None => None,
        }
    }
}

/// Reads a date from a number of the form `yyyymmdd`.
pub fn date_from_num(x: i64) -> (res: Option<Date>)
    ensures
        res is Some <==> date_of_num(x) is Some,
        res matches Some(date) ==> Some(date@) == date_of_num(x),
{
    if x < 0 || x / 10_000 > i32::MAX as i64 {
        return None;
    }
    let year = (x / 10_000) as i32;
    let month = ((x / 100) % 100) as u32;
    let day = (x % 100) as u32;
    Date::from_ymd(year, month, day)
}

/// The character of a decimal digit.
pub open spec fn digit_char(d: int) -> char {
    if d == 0 {
        '0'
    } else if d == 1 {
        '1'
    } else if d == 2 {
        '2'
    } else if d == 3 {
        '3'
    } else if d == 4 {
        '4'
    } else if d == 5 {
        '5'
    } else if d == 6 {
        '6'
    } else if d == 7 {
        '7'
    } else if d == 8 {
        '8'
    } else {
        '9'
    }
}

/// The decimal digits of a number that is not negative, without leading
/// zeros.
pub open spec fn digits(n: nat) -> Seq<char>
    decreases n,
{
    if n < 10 {
        seq![digit_char(n as int)]
    } else {
        digits(n / 10).push(digit_char((n % 10) as int))
    }
}

/// A number in decimal digits, at least two characters wide: a number
/// from 0 to 9 gets a zero in front, a negative number its sign.
pub open spec fn two_wide(n: int) -> Seq<char> {
    if n < 0 {
        seq!['-'] + digits((-n) as nat)
    } else if n < 10 {
        seq!['0'] + digits(n as nat)
    } else {
        digits(n as nat)
    }
}

/// The quotient of `a` by 60, rounded towards zero.
pub open spec fn sixtieths(a: int) -> int {
    if a >= 0 {
        a / 60
    } else {
        -((-a) / 60)
    }
}

/// What is left of `a` once [`sixtieths`] of it are taken away.
pub open spec fn past_sixty(a: int) -> int {
    a - 60 * sixtieths(a)
}

/// Formats a number with `format!("{:02}", n)`.
///
/// Not proved: that the standard library writes a number in decimal
/// digits, fills it up to two characters with a zero, and puts the sign
/// of a negative number first.
#[verifier::external_body]
fn pad_two(n: i64) -> (res: String)
    ensures
        res@ == two_wide(n as int),
{
    format!("{:02}", n)
}

/// A number of minutes as hours and minutes, `hh:mm`.
pub fn time_str(minute: i64) -> (res: String)
    ensures
        res@ == two_wide(sixtieths(minute as int)) + seq![':'] + two_wide(
            past_sixty(minute as int),
        ),
{
    let hour = minute / 60;
    let min = minute % 60;
    let mut res = pad_two(hour);
    proof {
        reveal_strlit(":");
        assert(":"@ == seq![':']);
    }
    res.append(":");
    res.append(pad_two(min).as_str());
    res
}

} // verus!
