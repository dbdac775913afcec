//! Points in time as plain calendar values, and the calendar itself: which
//! dates exist, which date follows, and the day of the week.
use vstd::prelude::*;

verus! {

/// First year of the calendar.
pub const MIN_YEAR: i32 = -9999;

/// Last year of the calendar.
pub const MAX_YEAR: i32 = 9999;

/// Leap years of the proleptic Gregorian calendar.
pub open spec fn is_leap_year(year: int) -> bool {
    year % 4 == 0 && (year % 100 != 0 || year % 400 == 0)
}

/// Number of days of a month.
pub open spec fn month_length(year: int, month: int) -> int {
    if month == 2 {
        if is_leap_year(year) {
            29
        } else {
            28
        }
    } else if month == 4 || month == 6 || month == 9 || month == 11 {
        30
    } else {
        31
    }
}

/// Whether the calendar has the date.
pub open spec fn date_exists(year: int, month: int, day: int) -> bool {
    &&& MIN_YEAR <= year <= MAX_YEAR
    &&& 1 <= month <= 12
    &&& 1 <= day <= month_length(year, month)
}

/// A calendar date.
pub struct CalendarDate {
    pub year: int,
    pub month: int,
    pub day: int,
}

/// The date after an existing date; none after the calendar's last.
pub open spec fn next_date(date: CalendarDate) -> Option<CalendarDate> {
    if date.day < month_length(date.year, date.month) {
        Some(CalendarDate { year: date.year, month: date.month, day: date.day + 1 })
    } else if date.month < 12 {
        Some(CalendarDate { year: date.year, month: date.month + 1, day: 1 })
    } else if date.year < MAX_YEAR {
        Some(CalendarDate { year: date.year + 1, month: 1, day: 1 })
    } else {
        None
    }
}

/// The date `days` days after an existing date, if the calendar reaches
/// that far.
pub open spec fn date_after(date: CalendarDate, days: nat) -> Option<CalendarDate>
    decreases days,
{
    if days == 0 {
        Some(date)
    } else {
        match next_date(date) {
            Some(next) => date_after(next, (days - 1) as nat),
            None => None,
        }
    }
}

/// The day of the week that the `time` crate gives an existing date,
/// counted from Sunday as 0. The library does not work it out: it knows it
/// by this name, as a number that the date decides.
pub uninterp spec fn weekday_number(year: int, month: int, day: int) -> int;

/// The day of the week of a date, from 0 for Sunday to 6 for Saturday.
pub closed spec fn day_of_week(date: CalendarDate) -> int {
    weekday_number(date.year, date.month, date.day) % 7
}

/// There are seven days of the week.
pub proof fn lemma_day_of_week(date: CalendarDate)
    ensures
        0 <= day_of_week(date) <= 6,
{
}

/// `time::Date::from_calendar_date`, asked only whether it succeeds. The
/// contract claims that it does for the years -9999 to 9999, the months 1
/// to 12 and the days that the month has in that year, February having 29
/// in leap years; `time::Month::try_from` refuses other months before.
#[verifier::external_body]
pub(crate) fn calendar_date_exists(year: i32, month: u8, day: u8) -> (r: bool)
    ensures
        r == date_exists(year as int, month as int, day as int),
{
    match time::Month::try_from(month) {
        Ok(m) => time::Date::from_calendar_date(year, m, day).is_ok(),
        Err(_) => false,
    }
}

/// `time::Date::weekday` with `time::Weekday::number_days_from_sunday`, on
/// the date that `time::Date::from_calendar_date` makes of the arguments.
/// The contract claims that the result is a number from 0 to 6 that the
/// date decides; which one it is, is not stated.
#[verifier::external_body]
pub(crate) fn weekday_of(year: i32, month: u8, day: u8) -> (r: u8)
    requires
        date_exists(year as int, month as int, day as int),
    ensures
        r == weekday_number(year as int, month as int, day as int),
        r <= 6,
{
    let m = time::Month::try_from(month).unwrap();
    let date = time::Date::from_calendar_date(year, m, day).unwrap();
    date.weekday().number_days_from_sunday()
}

/// `time::Date::checked_add` with a duration of whole days, on the date
/// that `time::Date::from_calendar_date` makes of the arguments. The
/// contract claims that the result is the date that many days later,
/// counted on day by day through the months, or nothing where that lies
/// past the last day of the year 9999.
#[verifier::external_body]
pub(crate) fn date_plus_days(year: i32, month: u8, day: u8, days: u8) -> (r: Option<
    (i32, u8, u8),
>)
    requires
        date_exists(year as int, month as int, day as int),
    ensures
        match date_after(
            CalendarDate { year: year as int, month: month as int, day: day as int },
            days as nat,
        ) {
            Some(d) => r matches Some(n) && n.0 == d.year && n.1 == d.month && n.2 == d.day,
            None => r is None,
        },
{
    let m = time::Month::try_from(month).unwrap();
    let date = time::Date::from_calendar_date(year, m, day).unwrap();
    match date.checked_add(time::Duration::days(i64::from(days))) {
        Some(n) => Some((n.year(), u8::from(n.month()), n.day())),
        None => None,
    }
}

/// The date after an existing date exists and comes later.
pub proof fn lemma_next_date(date: CalendarDate)
    requires
        date_exists(date.year, date.month, date.day),
    ensures
        next_date(date) matches Some(n) ==> date_exists(n.year, n.month, n.day) && date_before(
            date,
            n,
        ),
{
}

/// Whether `a` comes before `b`.
pub open spec fn date_before(a: CalendarDate, b: CalendarDate) -> bool {
    a.year < b.year || (a.year == b.year && (a.month < b.month || (a.month == b.month && a.day
        < b.day)))
}

/// A date some days after an existing date exists and comes later.
pub proof fn lemma_date_after(date: CalendarDate, days: nat)
    requires
        date_exists(date.year, date.month, date.day),
    ensures
        date_after(date, days) matches Some(n) ==> date_exists(n.year, n.month, n.day) && (days
            > 0 ==> date_before(date, n)) && (days == 0 ==> n == date),
    decreases days,
{
    if days > 0 {
        lemma_next_date(date);
        match next_date(date) {
            Some(next) => {
                lemma_date_after(next, (days - 1) as nat);
            },
            None => {},
        }
    }
}

/// Within a month, later days are counted on.
pub proof fn lemma_date_after_within(date: CalendarDate, days: nat)
    requires
        date_exists(date.year, date.month, date.day),
        date.day + days <= month_length(date.year, date.month),
    ensures
        date_after(date, days) == Some(
            CalendarDate { year: date.year, month: date.month, day: date.day + days },
        ),
    decreases days,
{
    if days > 0 {
        lemma_date_after_within(
            CalendarDate { year: date.year, month: date.month, day: date.day + 1 },
            (days - 1) as nat,
        );
    }
}

/// Four weeks on at most, a date lies in the same year or in January of
/// the next.
pub proof fn lemma_date_after_near(date: CalendarDate, days: nat)
    requires
        date_exists(date.year, date.month, date.day),
        days <= 28,
    ensures
        date_after(date, days) matches Some(n) ==> n.year == date.year || (n.year == date.year + 1
            && n.month == 1 && n.day <= days),
    decreases days,
{
    if days > 0 {
        lemma_next_date(date);
        match next_date(date) {
            Some(next) => {
                if next.year == date.year {
                    lemma_date_after_near(next, (days - 1) as nat);
                } else {
                    lemma_date_after_within(next, (days - 1) as nat);
                }
            },
            None => {},
        }
    }
}

/// A point in time as its calendar reading at some offset from UTC.
pub struct Stamp {
    pub year: int,
    pub month: int,
    pub day: int,
    pub hour: int,
    pub minute: int,
    pub second: int,
    pub nanosecond: int,
    /// Seconds east of UTC.
    pub offset: int,
}

impl Stamp {
    /// The calendar date.
    pub open spec fn date(self) -> CalendarDate {
        CalendarDate { year: self.year, month: self.month, day: self.day }
    }

    /// Whether the reading is one that a clock can show.
    pub open spec fn valid(self) -> bool {
        &&& date_exists(self.year, self.month, self.day)
        &&& 0 <= self.hour <= 23
        &&& 0 <= self.minute <= 59
        &&& 0 <= self.second <= 59
        &&& 0 <= self.nanosecond <= 999_999_999
        &&& i32::MIN <= self.offset <= i32::MAX
    }

    /// Whether this reading comes after `other`, both taken at one offset.
    pub open spec fn later_than(self, other: Stamp) -> bool {
        ||| date_before(other.date(), self.date())
        ||| self.date() == other.date() && self.hour > other.hour
        ||| self.date() == other.date() && self.hour == other.hour && self.minute > other.minute
        ||| self.date() == other.date() && self.hour == other.hour && self.minute == other.minute
            && self.second > other.second
        ||| self.date() == other.date() && self.hour == other.hour && self.minute == other.minute
            && self.second == other.second && self.nanosecond > other.nanosecond
    }

    /// The start of a day, at this reading's offset.
    pub open spec fn midnight(self, date: CalendarDate) -> Stamp {
        Stamp {
            year: date.year,
            month: date.month,
            day: date.day,
            hour: 0,
            minute: 0,
            second: 0,
            nanosecond: 0,
            offset: self.offset,
        }
    }

    /// A full minute of this reading's day.
    pub open spec fn at(self, hour: int, minute: int) -> Stamp {
        Stamp {
            year: self.year,
            month: self.month,
            day: self.day,
            hour,
            minute,
            second: 0,
            nanosecond: 0,
            offset: self.offset,
        }
    }

    /// The start of the following day, if the calendar has one.
    pub open spec fn tomorrow(self) -> Option<Stamp> {
        match date_after(self.date(), 1) {
            Some(d) => Some(self.midnight(d)),
            None => None,
        }
    }

    /// The start of the minute after the one that this reading lies in.
    pub open spec fn following_minute(self) -> Option<Stamp> {
        if self.minute < 59 {
            Some(self.at(self.hour, self.minute + 1))
        } else if self.hour < 23 {
            Some(self.at(self.hour + 1, 0))
        } else {
            self.tomorrow()
        }
    }
}

/// A point in time: a date of the calendar, a time of day, and the offset
/// from UTC at which both are read.
#[derive(Debug, Copy, Clone, PartialEq, Eq, Structural)]
pub struct DateTime {
    year: i32,
    month: u8,
    day: u8,
    hour: u8,
    minute: u8,
    second: u8,
    nanosecond: u32,
    offset: i32,
}

impl View for DateTime {
    type V = Stamp;

    /// The calendar reading.
    closed spec fn view(&self) -> Stamp {
        Stamp {
            year: self.year as int,
            month: self.month as int,
            day: self.day as int,
            hour: self.hour as int,
            minute: self.minute as int,
            second: self.second as int,
            nanosecond: self.nanosecond as int,
            offset: self.offset as int,
        }
    }
}

impl DateTime {
    #[verifier::type_invariant]
    spec fn inv(&self) -> bool {
        self@.valid()
    }

    /// A point in time from its calendar reading, where the calendar has
    /// that date and a clock can show that time. `offset` counts seconds
    /// east of UTC.
    pub fn new(
        year: i32,
        month: u8,
        day: u8,
        hour: u8,
        minute: u8,
        second: u8,
        nanosecond: u32,
        offset: i32,
    ) -> (r: Option<DateTime>)
        ensures
            ({
                let stamp = Stamp {
                    year: year as int,
                    month: month as int,
                    day: day as int,
                    hour: hour as int,
                    minute: minute as int,
                    second: second as int,
                    nanosecond: nanosecond as int,
                    offset: offset as int,
                };
                if stamp.valid() {
                    r matches Some(t) && t@ == stamp
                } else {
                    r is None
                }
            }),
    {
        if hour <= 23 && minute <= 59 && second <= 59 && nanosecond <= 999_999_999
            && calendar_date_exists(year, month, day) {
            Some(DateTime { year, month, day, hour, minute, second, nanosecond, offset })
        } else {
            None
        }
    }

    /// A full minute of an existing date.
    pub(crate) fn on(year: i32, month: u8, day: u8, hour: u8, minute: u8, offset: i32) -> (r:
        DateTime)
        requires
            date_exists(year as int, month as int, day as int),
            hour <= 23,
            minute <= 59,
        ensures
            r@ == (Stamp {
                year: year as int,
                month: month as int,
                day: day as int,
                hour: hour as int,
                minute: minute as int,
                second: 0,
                nanosecond: 0,
                offset: offset as int,
            }),
            r@.valid(),
    {
        DateTime { year, month, day, hour, minute, second: 0, nanosecond: 0, offset }
    }

    /// The year, from -9999 to 9999.
    pub fn year(&self) -> (r: i32)
        ensures
            r == self@.year,
            self@.valid(),
    {
        proof {
            use_type_invariant(self);
        }
        self.year
    }

    /// The month, 1 to 12.
    pub fn month(&self) -> (r: u8)
        ensures
            r == self@.month,
            self@.valid(),
    {
        proof {
            use_type_invariant(self);
        }
        self.month
    }

    /// The day of the month, from 1.
    pub fn day(&self) -> (r: u8)
        ensures
            r == self@.day,
            self@.valid(),
    {
        proof {
            use_type_invariant(self);
        }
        self.day
    }

    /// The hour of the day, 0 to 23.
    pub fn hour(&self) -> (r: u8)
        ensures
            r == self@.hour,
            self@.valid(),
    {
        proof {
            use_type_invariant(self);
        }
        self.hour
    }

    /// The minute of the hour, 0 to 59.
    pub fn minute(&self) -> (r: u8)
        ensures
            r == self@.minute,
            self@.valid(),
    {
        proof {
            use_type_invariant(self);
        }
        self.minute
    }

    /// The second of the minute, 0 to 59.
    pub fn second(&self) -> (r: u8)
        ensures
            r == self@.second,
            self@.valid(),
    {
        proof {
            use_type_invariant(self);
        }
        self.second
    }

    /// The nanosecond of the second.
    pub fn nanosecond(&self) -> (r: u32)
        ensures
            r == self@.nanosecond,
            self@.valid(),
    {
        proof {
            use_type_invariant(self);
        }
        self.nanosecond
    }

    /// Seconds east of UTC.
    pub fn offset(&self) -> (r: i32)
        ensures
            r == self@.offset,
            self@.valid(),
    {
        proof {
            use_type_invariant(self);
        }
        self.offset
    }

    /// The day of the week, from 0 for Sunday to 6 for Saturday.
    pub fn weekday(&self) -> (r: u8)
        ensures
            r == day_of_week(self@.date()),
            r <= 6,
            self@.valid(),
    {
        proof {
            use_type_invariant(self);
        }
        weekday_of(self.year, self.month, self.day)
    }

    /// The start of the day `days` days later, if the calendar reaches that
    /// far.
    pub fn days_later(&self, days: u8) -> (r: Option<DateTime>)
        ensures
            match date_after(self@.date(), days as nat) {
                Some(d) => r matches Some(t) && t@ == self@.midnight(d),
                None => r is None,
            },
            r matches Some(t) ==> t@.valid() && (days > 0 ==> t@.later_than(self@)),
    {
        proof {
            use_type_invariant(self);
            lemma_date_after(self@.date(), days as nat);
        }
        match date_plus_days(self.year, self.month, self.day, days) {
            Some((year, month, day)) => Some(DateTime::on(year, month, day, 0, 0, self.offset)),
            None => None,
        }
    }

    /// The start of the minute after the one that this point lies in, if
    /// the calendar has one.
    pub fn following_minute(&self) -> (r: Option<DateTime>)
        ensures
            match self@.following_minute() {
                Some(s) => r matches Some(t) && t@ == s,
                None => r is None,
            },
            r matches Some(t) ==> t@.valid() && t@.later_than(self@),
    {
        proof {
            use_type_invariant(self);
        }
        if self.minute < 59 {
            Some(
                DateTime::on(
                    self.year,
                    self.month,
                    self.day,
                    self.hour,
                    self.minute + 1,
                    self.offset,
                ),
            )
        } else if self.hour < 23 {
            Some(DateTime::on(self.year, self.month, self.day, self.hour + 1, 0, self.offset))
        } else {
            self.days_later(1)
        }
    }
}

} // verus!
