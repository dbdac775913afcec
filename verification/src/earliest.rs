//! What the search finds: always an occurrence after the starting point,
//! and, for schedules that allow every day of the week, the first one.
use vstd::prelude::*;
use crate::calendar::date_after;
use crate::calendar::date_before;
use crate::calendar::date_exists;
use crate::calendar::day_of_week;
use crate::calendar::lemma_date_after;
use crate::calendar::lemma_day_of_week;
use crate::calendar::next_date;
use crate::calendar::CalendarDate;
use crate::calendar::MAX_YEAR;
use crate::calendar::Stamp;
use crate::kind::FieldKind;
use crate::order::ascending;
use crate::roundtrip::lemma_full_listing;
use crate::schedule::Fields;
use crate::search::advance;
use crate::search::allows;
use crate::search::least_above;
use crate::search::lemma_advance_later;
use crate::search::lemma_least_above;
use crate::search::next_occurrence;
use crate::search::occurs_at;
use crate::search::search;
use crate::search::years_left;
use crate::search::HORIZON;
use crate::search::Step;

verus! {

/// A full minute that a clock at the given offset can show.
pub open spec fn minute_mark(t: Stamp, offset: int) -> bool {
    t.valid() && t.second == 0 && t.nanosecond == 0 && t.offset == offset
}

/// Of two full minutes at one offset, one comes after the other unless
/// they are the same.
pub proof fn lemma_marks_ordered(a: Stamp, b: Stamp)
    requires
        minute_mark(a, b.offset),
        minute_mark(b, b.offset),
    ensures
        a == b || a.later_than(b) || b.later_than(a),
        !(a.later_than(b) && b.later_than(a)),
        !a.later_than(a),
{
}

/// In an ascending sequence nothing stands between a value and the first
/// element above it.
pub proof fn lemma_least_above_gap(s: Seq<u8>, v: int, y: u8)
    requires
        ascending(s),
        s.contains(y),
    ensures
        match least_above(s, v) {
            Some(m) => y <= v || y >= m,
            None => y <= v,
        },
    decreases s.len(),
{
    let k = choose|k: int| 0 <= k < s.len() && s[k] == y;
    if s.len() > 0 {
        if s[0] > v {
            if k > 0 {
                assert(s[0] < s[k]);
            }
        } else {
            let t = s.skip(1);
            assert forall|i: int, j: int| 0 <= i < j < t.len() implies t[i] < t[j] by {
                assert(t[i] == s[i + 1] && t[j] == s[j + 1]);
            }
            if k > 0 {
                assert(t[k - 1] == y);
                lemma_least_above_gap(t, v, y);
            }
        }
    }
}

/// No date lies between a date and the next.
pub proof fn lemma_dates_adjacent(d: CalendarDate, x: CalendarDate)
    requires
        date_exists(d.year, d.month, d.day),
        date_exists(x.year, x.month, x.day),
        !date_before(x, d),
        next_date(d) matches Some(n) ==> date_before(x, n),
    ensures
        x == d,
{
}

/// A jump leads to a point that a clock can show, or past the calendar's
/// last year.
pub proof fn lemma_jump_target(f: Fields, c: Stamp, weekday: int)
    requires
        f.wf(),
        c.valid(),
        0 <= weekday <= 6,
    ensures
        advance(f, c, weekday) matches Step::Jump(n) ==> n.valid() || n.year > MAX_YEAR,
{
    lemma_least_above(f.months, c.month);
    lemma_least_above(f.days_of_month, c.day);
    lemma_least_above(f.days_of_week, weekday);
    lemma_least_above(f.hours, c.hour);
    lemma_least_above(f.minutes, c.minute);
    lemma_date_after(c.date(), 1);
    lemma_date_after(c.date(), (7 - weekday) as nat);
    match least_above(f.months, c.month) {
        Some(m) => {
            let k = choose|k: int| 0 <= k < f.months.len() && f.months[k] == m;
            assert(1 <= f.months[k] <= 12);
        },
        None => {},
    }
    match least_above(f.days_of_week, weekday) {
        Some(w) => {
            let k = choose|k: int| 0 <= k < f.days_of_week.len() && f.days_of_week[k] == w;
            assert(f.days_of_week[k] <= 6);
        },
        None => {},
    }
    match least_above(f.hours, c.hour) {
        Some(h) => {
            let k = choose|k: int| 0 <= k < f.hours.len() && f.hours[k] == h;
            assert(f.hours[k] <= 23);
        },
        None => {},
    }
    match least_above(f.minutes, c.minute) {
        Some(m) => {
            let k = choose|k: int| 0 <= k < f.minutes.len() && f.minutes[k] == m;
            assert(f.minutes[k] <= 59);
        },
        None => {},
    }
}

/// What a jump passes over, no field set allows, as long as the day of the
/// week is not what the jump is for: between the candidate and the point
/// where the search goes on lies no full minute that the month, day, hour
/// and minute fields all allow.
pub proof fn lemma_jump_skips(f: Fields, c: Stamp, weekday: int, x: Stamp, other: int)
    requires
        f.wf(),
        minute_mark(c, c.offset),
        minute_mark(x, c.offset),
        0 <= weekday <= 6,
        f.days_of_week.contains(weekday as u8),
        !c.later_than(x),
        !(advance(f, c, weekday) is Found),
        advance(f, c, weekday) matches Step::Jump(n) ==> n.later_than(x),
    ensures
        !allows(f, x, other),
{
    lemma_date_after(c.date(), 1);
    assert(date_after(c.date(), 1) == next_date(c.date())) by {
        reveal_with_fuel(date_after, 2);
    }
    lemma_least_above(f.months, c.month);
    lemma_least_above(f.days_of_month, c.day);
    lemma_least_above(f.hours, c.hour);
    lemma_least_above(f.minutes, c.minute);
    if !f.months.contains(c.month as u8) {
        if f.months.contains(x.month as u8) {
            lemma_least_above_gap(f.months, c.month, x.month as u8);
        }
    } else if !f.days_of_month.contains(c.day as u8) {
        if f.days_of_month.contains(x.day as u8) {
            lemma_least_above_gap(f.days_of_month, c.day, x.day as u8);
        }
    } else if !f.hours.contains(c.hour as u8) {
        if f.hours.contains(x.hour as u8) {
            lemma_least_above_gap(f.hours, c.hour, x.hour as u8);
        }
        if least_above(f.hours, c.hour) is None {
            lemma_dates_adjacent(c.date(), x.date());
        }
    } else {
        if f.minutes.contains(x.minute as u8) {
            lemma_least_above_gap(f.minutes, c.minute, x.minute as u8);
        }
        if least_above(f.minutes, c.minute) is None && c.hour == 23 {
            lemma_dates_adjacent(c.date(), x.date());
        }
    }
}

/// What the search finds is an occurrence, at the candidate or after it.
pub proof fn lemma_search_sound(f: Fields, c: Stamp, limit: int)
    requires
        f.wf(),
        minute_mark(c, c.offset),
    ensures
        search(f, c, limit) matches Some(r) ==> occurs_at(f, r) && minute_mark(r, c.offset) && (r
            == c || r.later_than(c)) && r.year < limit,
    decreases years_left(c, limit), 12 - c.month, 31 - c.day, 23 - c.hour, 59 - c.minute,
{
    if c.year < limit {
        lemma_day_of_week(c.date());
        lemma_advance_later(f, c, day_of_week(c.date()));
        match advance(f, c, day_of_week(c.date())) {
            Step::Jump(n) => {
                if n.valid() {
                    lemma_search_sound(f, n, limit);
                }
            },
            _ => {},
        }
    }
}

/// For a schedule that allows every day of the week, the search passes
/// over no occurrence: no full minute from the candidate on, before what
/// the search finds, is an occurrence; and where the search finds nothing,
/// no full minute from the candidate on, before the year `limit`, is one.
pub proof fn lemma_search_first(f: Fields, c: Stamp, limit: int, x: Stamp)
    requires
        f.wf(),
        f.days_of_week.len() == 7,
        minute_mark(c, c.offset),
        minute_mark(x, c.offset),
        !c.later_than(x),
        match search(f, c, limit) {
            Some(r) => r.later_than(x),
            None => x.year < limit,
        },
    ensures
        !occurs_at(f, x),
    decreases years_left(c, limit), 12 - c.month, 31 - c.day, 23 - c.hour, 59 - c.minute,
{
    let weekday = day_of_week(c.date());
    lemma_day_of_week(c.date());
    lemma_full_listing(FieldKind::DayOfWeek, f.days_of_week, weekday);
    lemma_marks_ordered(x, c);
    if c.year < limit {
        lemma_advance_later(f, c, weekday);
        let other = day_of_week(x.date());
        match advance(f, c, weekday) {
            Step::Found => {},
            Step::End => {
                lemma_jump_skips(f, c, weekday, x, other);
            },
            Step::Jump(n) => {
                if n.valid() {
                    lemma_marks_ordered(x, n);
                    if n.later_than(x) {
                        lemma_jump_skips(f, c, weekday, x, other);
                    } else {
                        lemma_search_first(f, n, limit, x);
                    }
                } else {
                    lemma_jump_target(f, c, weekday);
                    lemma_jump_skips(f, c, weekday, x, other);
                }
            },
        }
    }
}

/// The minute after a point in time is the first full minute after it.
pub proof fn lemma_following_minute(t: Stamp, x: Stamp)
    requires
        t.valid(),
        minute_mark(x, t.offset),
        x.later_than(t),
    ensures
        t.following_minute() matches Some(c) && minute_mark(c, t.offset) && !c.later_than(x)
            && c.later_than(t),
{
    lemma_date_after(t.date(), 1);
    assert(date_after(t.date(), 1) == next_date(t.date())) by {
        reveal_with_fuel(date_after, 2);
    }
    if t.minute == 59 && t.hour == 23 {
        if next_date(t.date()) is None {
            lemma_dates_adjacent(t.date(), x.date());
        }
    }
}

/// What follows a point in time, as the search finds it, is an occurrence
/// of the schedule after that point, at the same offset from UTC.
pub proof fn lemma_next_occurrence_sound(f: Fields, t: Stamp)
    requires
        f.wf(),
        t.valid(),
    ensures
        next_occurrence(f, t) matches Some(r) ==> occurs_at(f, r) && r.later_than(t)
            && minute_mark(r, t.offset) && r.year < t.year + HORIZON,
{
    lemma_date_after(t.date(), 1);
    match t.following_minute() {
        Some(c) => {
            lemma_search_sound(f, c, t.year + HORIZON);
        },
        None => {},
    }
}

/// No occurrence after `t`, within the years that the search looks
/// through, comes before `found`; and there is none where nothing was
/// found.
pub open spec fn first_after(f: Fields, t: Stamp, found: Option<Stamp>) -> bool {
    forall|x: Stamp|
        minute_mark(x, t.offset) && x.later_than(t) && x.year < t.year + HORIZON
            && #[trigger] occurs_at(f, x) ==> (found matches Some(r) && (r == x || x.later_than(
            r,
        )))
}

/// For a schedule that allows every day of the week, the search finds the
/// first occurrence.
pub proof fn lemma_first_after(f: Fields, t: Stamp)
    requires
        f.wf(),
        f.days_of_week.len() == 7,
        t.valid(),
    ensures
        first_after(f, t, next_occurrence(f, t)),
{
    assert forall|x: Stamp|
        minute_mark(x, t.offset) && x.later_than(t) && x.year < t.year + HORIZON
            && #[trigger] occurs_at(f, x) implies (next_occurrence(f, t) matches Some(r) && (r
        == x || x.later_than(r))) by {
        lemma_next_occurrence_first(f, t, x);
    }
}

/// For a schedule that allows every day of the week, the search finds the
/// first occurrence: whenever some full minute after the starting point,
/// within the years that the search looks through, is an occurrence, the
/// search finds one, and none comes before the one it finds.
pub proof fn lemma_next_occurrence_first(f: Fields, t: Stamp, x: Stamp)
    requires
        f.wf(),
        f.days_of_week.len() == 7,
        t.valid(),
        minute_mark(x, t.offset),
        x.later_than(t),
        x.year < t.year + HORIZON,
        occurs_at(f, x),
    ensures
        next_occurrence(f, t) matches Some(r) && (r == x || x.later_than(r)),
{
    lemma_following_minute(t, x);
    let c = t.following_minute().unwrap();
    let limit = t.year + HORIZON;
    lemma_search_sound(f, c, limit);
    match search(f, c, limit) {
        Some(r) => {
            lemma_marks_ordered(r, x);
            if r.later_than(x) {
                lemma_search_first(f, c, limit, x);
            }
        },
        None => {
            lemma_search_first(f, c, limit, x);
        },
    }
}

} // verus!
