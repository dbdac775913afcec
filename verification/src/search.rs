//! The search for the next point in time that a schedule allows.
//!
//! A candidate starts at the minute after the given point and is moved
//! forward, one field at a time, until every field allows it: month, day of
//! the month, day of the week, hour, minute. A date must satisfy both the
//! day-of-month field and the day-of-week field.
use vstd::prelude::*;
use crate::calendar::calendar_date_exists;
use crate::calendar::date_after;
use crate::calendar::date_exists;
use crate::calendar::day_of_week;
use crate::calendar::lemma_date_after;
use crate::calendar::lemma_day_of_week;
use crate::calendar::CalendarDate;
use crate::calendar::DateTime;
use crate::calendar::MAX_YEAR;
use crate::calendar::Stamp;
use crate::earliest::first_after;
use crate::earliest::lemma_first_after;
use crate::kind::FieldKind;
use crate::schedule::CronSchedule;
use crate::schedule::Fields;

verus! {

/// Number of calendar years, the starting one included, that the search
/// looks through before it gives up.
pub const HORIZON: i32 = 5;

/// The first element of `s` that is greater than `v`.
pub open spec fn least_above(s: Seq<u8>, v: int) -> Option<u8>
    decreases s.len(),
{
    if s.len() == 0 {
        None
    } else if s[0] > v {
        Some(s[0])
    } else {
        least_above(s.skip(1), v)
    }
}

/// What one look at a candidate decides.
pub enum Step {
    /// Every field allows the candidate.
    Found,
    /// Some field does not; the search goes on from the given point.
    Jump(Stamp),
    /// Some field does not, and the calendar ends before the next point.
    End,
}

/// Whether a schedule allows a point in time, given the day of the week of
/// its date.
pub open spec fn allows(s: Fields, t: Stamp, weekday: int) -> bool {
    &&& s.months.contains(t.month as u8)
    &&& s.days_of_month.contains(t.day as u8)
    &&& s.days_of_week.contains(weekday as u8)
    &&& s.hours.contains(t.hour as u8)
    &&& s.minutes.contains(t.minute as u8)
}

/// Whether a point in time is an occurrence of a schedule: a full minute
/// that all five fields allow.
pub open spec fn occurs_at(s: Fields, t: Stamp) -> bool {
    &&& t.second == 0
    &&& t.nanosecond == 0
    &&& allows(s, t, day_of_week(t.date()))
}

/// The start of day `day` of the month after the candidate's.
pub open spec fn in_next_month(c: Stamp, day: int) -> Stamp {
    if c.month < 12 {
        c.midnight(CalendarDate { year: c.year, month: c.month + 1, day })
    } else {
        c.midnight(CalendarDate { year: c.year + 1, month: 1, day })
    }
}

/// The start of a later day, where there is one.
pub open spec fn jump_days(c: Stamp, days: nat) -> Step {
    match date_after(c.date(), days) {
        Some(d) => Step::Jump(c.midnight(d)),
        None => Step::End,
    }
}

/// One look at a candidate whose date falls on the given day of the week.
///
/// The fields are tried in the order month, day of the month, day of the
/// week, hour, minute. The first that does not allow the candidate decides
/// where the search goes on:
///
/// - the month: at the start of the next allowed month of the year, else
///   of January of the next year;
/// - the day of the month: at the start of the next allowed day that the
///   month has, else of the next month;
/// - the day of the week: as many days on as the next allowed day of the
///   week lies ahead in the week, where the month has that day; else on
///   the day of the next month that has that many days as its number; and
///   on the next Sunday where the week has no allowed day left;
/// - the hour: at the start of the next allowed hour of the day, else of
///   the next day;
/// - the minute: at the next allowed minute of the hour, else at the start
///   of the next hour.
pub open spec fn advance(s: Fields, c: Stamp, weekday: int) -> Step {
    if !s.months.contains(c.month as u8) {
        match least_above(s.months, c.month) {
            Some(m) => Step::Jump(
                c.midnight(CalendarDate { year: c.year, month: m as int, day: 1 }),
            ),
            None => Step::Jump(c.midnight(CalendarDate { year: c.year + 1, month: 1, day: 1 })),
        }
    } else if !s.days_of_month.contains(c.day as u8) {
        match least_above(s.days_of_month, c.day) {
            Some(d) => if date_exists(c.year, c.month, d as int) {
                Step::Jump(c.midnight(CalendarDate { year: c.year, month: c.month, day: d as int }))
            } else {
                Step::Jump(in_next_month(c, 1))
            },
            None => Step::Jump(in_next_month(c, 1)),
        }
    } else if !s.days_of_week.contains(weekday as u8) {
        match least_above(s.days_of_week, weekday) {
            Some(w) => if date_exists(c.year, c.month, c.day + w - weekday) {
                Step::Jump(
                    c.midnight(
                        CalendarDate { year: c.year, month: c.month, day: c.day + w - weekday },
                    ),
                )
            } else {
                Step::Jump(in_next_month(c, w - weekday))
            },
            None => jump_days(c, (7 - weekday) as nat),
        }
    } else if !s.hours.contains(c.hour as u8) {
        match least_above(s.hours, c.hour) {
            Some(h) => Step::Jump(c.at(h as int, 0)),
            None => jump_days(c, 1),
        }
    } else if !s.minutes.contains(c.minute as u8) {
        match least_above(s.minutes, c.minute) {
            Some(m) => Step::Jump(c.at(c.hour, m as int)),
            None => if c.hour < 23 {
                Step::Jump(c.at(c.hour + 1, 0))
            } else {
                jump_days(c, 1)
            },
        }
    } else {
        Step::Found
    }
}

/// Calendar years that the search may still enter.
pub open spec fn years_left(c: Stamp, limit: int) -> int {
    if c.year < limit {
        limit - c.year
    } else {
        0
    }
}

/// The first candidate, from `c` on, that the schedule allows, found by
/// looking at one candidate after another; none from the year `limit` on,
/// and none past the end of the calendar.
pub open spec fn search(s: Fields, c: Stamp, limit: int) -> Option<Stamp>
    decreases years_left(c, limit), 12 - c.month, 31 - c.day, 23 - c.hour, 59 - c.minute,
    when s.wf() && c.valid()
    via search_decreases
{
    if c.year >= limit {
        None
    } else {
        match advance(s, c, day_of_week(c.date())) {
            Step::Found => Some(c),
            Step::End => None,
            Step::Jump(n) => if n.valid() {
                search(s, n, limit)
            } else {
                None
            },
        }
    }
}

/// Every jump leads forward, so the search ends.
#[via_fn]
proof fn search_decreases(s: Fields, c: Stamp, limit: int) {
    lemma_day_of_week(c.date());
    lemma_advance_later(s, c, day_of_week(c.date()));
}

/// What `least_above` finds is an element, and is greater.
pub proof fn lemma_least_above(s: Seq<u8>, v: int)
    ensures
        least_above(s, v) matches Some(x) ==> x > v && s.contains(x),
    decreases s.len(),
{
    if s.len() > 0 && !(s[0] > v) {
        lemma_least_above(s.skip(1), v);
        match least_above(s.skip(1), v) {
            Some(x) => {
                let k = choose|k: int| 0 <= k < s.skip(1).len() && s.skip(1)[k] == x;
                assert(s[k + 1] == x);
            },
            None => {},
        }
    } else if s.len() > 0 {
        assert(s[0] == s[0]);
    }
}

/// In an ascending sequence, `least_above` finds what stands at the place
/// where the sought value would stand.
pub proof fn lemma_least_above_at(s: Seq<u8>, v: int, i: int)
    requires
        0 <= i <= s.len(),
        forall|k: int| 0 <= k < i ==> s[k] <= v,
        i < s.len() ==> s[i] > v,
    ensures
        least_above(s, v) == if i < s.len() {
            Some(s[i])
        } else {
            None
        },
    decreases s.len(),
{
    if s.len() > 0 && i > 0 {
        assert(s[0] <= v);
        let t = s.skip(1);
        assert forall|k: int| 0 <= k < i - 1 implies t[k] <= v by {
            assert(t[k] == s[k + 1]);
        }
        lemma_least_above_at(t, v, i - 1);
    }
}

/// Every jump leads to a later point.
pub proof fn lemma_advance_later(s: Fields, c: Stamp, weekday: int)
    requires
        c.valid(),
        0 <= weekday <= 6,
    ensures
        advance(s, c, weekday) matches Step::Jump(n) ==> n.later_than(c) && n.offset == c.offset
            && n.second == 0 && n.nanosecond == 0,
{
    lemma_least_above(s.months, c.month);
    lemma_least_above(s.days_of_month, c.day);
    lemma_least_above(s.days_of_week, weekday);
    lemma_least_above(s.hours, c.hour);
    lemma_least_above(s.minutes, c.minute);
    lemma_date_after(c.date(), 1);
    lemma_date_after(c.date(), (7 - weekday) as nat);
}

/// The occurrence that follows a point in time, as the search finds it.
pub open spec fn next_occurrence(s: Fields, from: Stamp) -> Option<Stamp> {
    match from.following_minute() {
        Some(c) => search(s, c, from.year + HORIZON),
        None => None,
    }
}

/// The reading of a point in time, if there is one.
pub open spec fn stamp_of(r: Option<DateTime>) -> Option<Stamp> {
    match r {
        Some(t) => Some(t@),
        None => None,
    }
}

/// What one look at a candidate decides: see [`Step`].
#[derive(Debug, Copy, Clone, PartialEq, Eq)]
pub enum Advance {
    Found,
    Jump(DateTime),
    End,
}

/// Whether an `Advance` is what a `Step` says. A jump that the calendar
/// cannot hold counts as its end.
pub open spec fn agrees(r: Advance, step: Step) -> bool {
    match step {
        Step::Found => r is Found,
        Step::End => r is End,
        Step::Jump(n) => if n.valid() {
            r matches Advance::Jump(t) && t@ == n
        } else {
            r is End
        },
    }
}

/// The start of day `day` of the month after the candidate's.
fn jump_to_next_month(c: &DateTime, day: u8) -> (r: Advance)
    requires
        1 <= day <= 28,
    ensures
        agrees(r, Step::Jump(in_next_month(c@, day as int))),
{
    let year = c.year();
    let month = c.month();
    if month < 12 {
        Advance::Jump(DateTime::on(year, month + 1, day, 0, 0, c.offset()))
    } else if year < MAX_YEAR {
        Advance::Jump(DateTime::on(year + 1, 1, day, 0, 0, c.offset()))
    } else {
        Advance::End
    }
}

/// The start of a later day.
fn jump_by_days(c: &DateTime, days: u8) -> (r: Advance)
    ensures
        agrees(r, jump_days(c@, days as nat)),
{
    match c.days_later(days) {
        Some(t) => Advance::Jump(t),
        None => Advance::End,
    }
}

impl CronSchedule {
    /// Looks at one candidate, whose date falls on the given day of the
    /// week (0 for Sunday to 6 for Saturday): either every field allows it,
    /// or the first field that does not decides where the search goes on.
    pub fn step(&self, c: &DateTime, weekday: u8) -> (r: Advance)
        requires
            weekday <= 6,
        ensures
            agrees(r, advance(self@, c@, weekday as int)),
            r is Found <==> allows(self@, c@, weekday as int),
            r matches Advance::Jump(t) ==> t@.later_than(c@) && t@.offset == c@.offset
                && t@.second == 0 && t@.nanosecond == 0,
    {
        let year = c.year();
        let month = c.month();
        let day = c.day();
        let hour = c.hour();
        let minute = c.minute();
        let offset = c.offset();
        proof {
            lemma_advance_later(self@, c@, weekday as int);
        }
        let months = self.field(FieldKind::Month);
        match months.search(month) {
            Ok(_) => {},
            Err(i) => {
                proof {
                    lemma_least_above_at(months@, month as int, i as int);
                }
                return match months.get(i) {
                    Some(m) => Advance::Jump(DateTime::on(year, m, 1, 0, 0, offset)),
                    None => if year < MAX_YEAR {
                        Advance::Jump(DateTime::on(year + 1, 1, 1, 0, 0, offset))
                    } else {
                        Advance::End
                    },
                };
            },
        }
        let days = self.field(FieldKind::DayOfMonth);
        match days.search(day) {
            Ok(_) => {},
            Err(i) => {
                proof {
                    lemma_least_above_at(days@, day as int, i as int);
                }
                return match days.get(i) {
                    Some(d) => if calendar_date_exists(year, month, d) {
                        Advance::Jump(DateTime::on(year, month, d, 0, 0, offset))
                    } else {
                        jump_to_next_month(c, 1)
                    },
                    None => jump_to_next_month(c, 1),
                };
            },
        }
        let weekdays = self.field(FieldKind::DayOfWeek);
        match weekdays.search(weekday) {
            Ok(_) => {},
            Err(i) => {
                proof {
                    lemma_least_above_at(weekdays@, weekday as int, i as int);
                }
                return match weekdays.get(i) {
                    Some(w) => {
                        let ahead = w - weekday;
                        if calendar_date_exists(year, month, day + ahead) {
                            Advance::Jump(DateTime::on(year, month, day + ahead, 0, 0, offset))
                        } else {
                            jump_to_next_month(c, ahead)
                        }
                    },
                    None => jump_by_days(c, 7 - weekday),
                };
            },
        }
        let hours = self.field(FieldKind::Hour);
        match hours.search(hour) {
            Ok(_) => {},
            Err(i) => {
                proof {
                    lemma_least_above_at(hours@, hour as int, i as int);
                }
                return match hours.get(i) {
                    Some(h) => Advance::Jump(DateTime::on(year, month, day, h, 0, offset)),
                    None => jump_by_days(c, 1),
                };
            },
        }
        let minutes = self.field(FieldKind::Minute);
        match minutes.search(minute) {
            Ok(_) => {},
            Err(i) => {
                proof {
                    lemma_least_above_at(minutes@, minute as int, i as int);
                }
                return match minutes.get(i) {
                    Some(m) => Advance::Jump(DateTime::on(year, month, day, hour, m, offset)),
                    None => if hour < 23 {
                        Advance::Jump(DateTime::on(year, month, day, hour + 1, 0, offset))
                    } else {
                        jump_by_days(c, 1)
                    },
                };
            },
        }
        Advance::Found
    }

    /// A point in time, after `time`, that the schedule allows: the one at
    /// which the search described by [`advance`] arrives.
    ///
    /// The result is a full minute and keeps the offset of `time`. The
    /// search looks through the calendar year of `time` and the four after
    /// it; it returns `None` where it finds nothing there or reaches the
    /// end of the calendar. For a schedule that allows every day of the
    /// week the result is the first occurrence after `time`. Otherwise the
    /// search may pass over an occurrence when it moves on to the next
    /// month for the sake of the day of the week.
    pub fn next_time_from(&self, time: DateTime) -> (r: Option<DateTime>)
        ensures
            stamp_of(r) == next_occurrence(self@, time@),
            r matches Some(t) ==> {
                &&& occurs_at(self@, t@)
                &&& t@.later_than(time@)
                &&& t@.offset == time@.offset
                &&& t@.valid()
            },
            self@.days_of_week.len() == 7 ==> first_after(self@, time@, stamp_of(r)),
    {
        proof {
            use_type_invariant(self);
            self.lemma_inv();
        }
        let limit = time.year() + HORIZON;
        proof {
            if self@.days_of_week.len() == 7 {
                lemma_first_after(self@, time@);
            }
        }
        let mut c = match time.following_minute() {
            Some(c) => c,
            None => {
                return None;
            },
        };
        proof {
            use_type_invariant(self);
            self.lemma_inv();
        }
        loop
            invariant
                self@.wf(),
                c@.valid(),
                search(self@, c@, limit as int) == next_occurrence(self@, time@),
                self@.days_of_week.len() == 7 ==> first_after(
                    self@,
                    time@,
                    next_occurrence(self@, time@),
                ),
                c@.later_than(time@),
                c@.offset == time@.offset,
                c@.second == 0,
                c@.nanosecond == 0,
            decreases years_left(c@, limit as int), 12 - c@.month, 31 - c@.day, 23 - c@.hour, 59
                    - c@.minute,
        {
            if c.year() >= limit {
                return None;
            }
            let weekday = c.weekday();
            match self.step(&c, weekday) {
                Advance::Found => {
                    return Some(c);
                },
                Advance::End => {
                    return None;
                },
                Advance::Jump(n) => {
                    c = n;
                },
            }
        }
    }
}

} // verus!
