//! How often two common schedules recur: the one that runs at the start of
//! every hour, and the one that runs at midnight of every Sunday.
use vstd::prelude::*;
use vstd::string::StringSliceAdditionalSpecFns;
use crate::HOURLY;
use crate::WEEKLY;
use crate::calendar::date_after;
use crate::calendar::day_of_week;
use crate::calendar::lemma_date_after;
use crate::calendar::lemma_date_after_near;
use crate::calendar::lemma_day_of_week;
use crate::calendar::next_date;
use crate::calendar::Stamp;
use crate::earliest::lemma_next_occurrence_first;
use crate::earliest::lemma_next_occurrence_sound;
use crate::earliest::minute_mark;
use crate::field::field_listing;
use crate::field::lemma_field_listing;
use crate::field::STAR;
use crate::format::as_chars;
use crate::format::digits_of;
use crate::format::SPACE;
use crate::kind::FieldKind;
use crate::laws::lemma_single_number;
use crate::laws::lemma_wildcard;
use crate::roundtrip::lemma_ascii_bytes;
use crate::roundtrip::lemma_five_words;
use crate::roundtrip::lemma_full_listing;
use crate::roundtrip::solid_text;
use crate::schedule::parsed_schedule;
use crate::schedule::Fields;
use crate::search::advance;
use crate::search::least_above;
use crate::search::next_occurrence;
use crate::search::occurs_at;
use crate::search::search;
use crate::search::HORIZON;
use crate::search::Step;

verus! {

/// The schedule `0 * * * *`: the start of every hour.
pub open spec fn every_hour(f: Fields) -> bool {
    &&& f.wf()
    &&& f.minutes == seq![0u8]
    &&& f.hours.len() == 24
    &&& f.days_of_month.len() == 31
    &&& f.months.len() == 12
    &&& f.days_of_week.len() == 7
}

/// The schedule `0 0 * * 0`: midnight of every Sunday.
pub open spec fn every_sunday(f: Fields) -> bool {
    &&& f.wf()
    &&& f.minutes == seq![0u8]
    &&& f.hours == seq![0u8]
    &&& f.days_of_month.len() == 31
    &&& f.months.len() == 12
    &&& f.days_of_week == seq![0u8]
}

/// The bytes of `0 * * * *`.
pub open spec fn every_hour_text() -> Seq<u8> {
    seq![0x30u8, SPACE, STAR, SPACE, STAR, SPACE, STAR, SPACE, STAR]
}

/// The bytes of `0 0 * * 0`.
pub open spec fn every_sunday_text() -> Seq<u8> {
    seq![0x30u8, SPACE, 0x30u8, SPACE, STAR, SPACE, STAR, SPACE, 0x30u8]
}

/// The expression `0 * * * *` is read as the schedule of the start of
/// every hour.
pub proof fn lemma_every_hour_text()
    ensures
        HOURLY@ == as_chars(every_hour_text()),
        HOURLY.spec_bytes() == every_hour_text(),
        parsed_schedule(HOURLY.spec_bytes()) matches Ok(f) && every_hour(f),
{
    reveal_strlit("0 * * * *");
    let text = every_hour_text();
    assert(HOURLY@ =~= as_chars(text));
    lemma_ascii_bytes(text);
    let zero = seq![0x30u8];
    let star = seq![STAR];
    assert(zero =~= digits_of(0));
    lemma_single_number(FieldKind::Minute, 0);
    lemma_wildcard(FieldKind::Hour);
    lemma_wildcard(FieldKind::DayOfMonth);
    lemma_wildcard(FieldKind::Month);
    lemma_wildcard(FieldKind::DayOfWeek);
    lemma_field_listing(FieldKind::Hour, star);
    lemma_field_listing(FieldKind::DayOfMonth, star);
    lemma_field_listing(FieldKind::Month, star);
    lemma_field_listing(FieldKind::DayOfWeek, star);
    lemma_field_listing(FieldKind::Minute, zero);
    let f = Fields {
        minutes: seq![0u8],
        hours: field_listing(FieldKind::Hour, star).unwrap(),
        days_of_month: field_listing(FieldKind::DayOfMonth, star).unwrap(),
        months: field_listing(FieldKind::Month, star).unwrap(),
        days_of_week: field_listing(FieldKind::DayOfWeek, star).unwrap(),
    };
    assert(solid_text(zero));
    assert(solid_text(star));
    lemma_five_words(zero, star, star, star, star, f);
    assert(text =~= zero + seq![SPACE] + star + seq![SPACE] + star + seq![SPACE] + star + seq![
        SPACE,
    ] + star);
}

/// The expression `0 0 * * 0` is read as the schedule of midnight of every
/// Sunday.
pub proof fn lemma_every_sunday_text()
    ensures
        WEEKLY@ == as_chars(every_sunday_text()),
        WEEKLY.spec_bytes() == every_sunday_text(),
        parsed_schedule(WEEKLY.spec_bytes()) matches Ok(f) && every_sunday(f),
{
    reveal_strlit("0 0 * * 0");
    let text = every_sunday_text();
    assert(WEEKLY@ =~= as_chars(text));
    lemma_ascii_bytes(text);
    let zero = seq![0x30u8];
    let star = seq![STAR];
    assert(zero =~= digits_of(0));
    lemma_single_number(FieldKind::Minute, 0);
    lemma_single_number(FieldKind::Hour, 0);
    lemma_single_number(FieldKind::DayOfWeek, 0);
    lemma_wildcard(FieldKind::DayOfMonth);
    lemma_wildcard(FieldKind::Month);
    lemma_field_listing(FieldKind::DayOfMonth, star);
    lemma_field_listing(FieldKind::Month, star);
    lemma_field_listing(FieldKind::Minute, zero);
    lemma_field_listing(FieldKind::Hour, zero);
    lemma_field_listing(FieldKind::DayOfWeek, zero);
    let f = Fields {
        minutes: seq![0u8],
        hours: seq![0u8],
        days_of_month: field_listing(FieldKind::DayOfMonth, star).unwrap(),
        months: field_listing(FieldKind::Month, star).unwrap(),
        days_of_week: seq![0u8],
    };
    assert(solid_text(zero));
    assert(solid_text(star));
    lemma_five_words(zero, zero, star, star, zero, f);
    assert(text =~= zero + seq![SPACE] + zero + seq![SPACE] + star + seq![SPACE] + star + seq![
        SPACE,
    ] + zero);
}

/// A schedule that allows every hour, day and month allows the start of
/// every hour whose minute it allows.
proof fn lemma_hour_start(f: Fields, x: Stamp)
    requires
        every_hour(f),
        minute_mark(x, x.offset),
        x.minute == 0,
    ensures
        occurs_at(f, x),
{
    lemma_day_of_week(x.date());
    lemma_full_listing(FieldKind::Hour, f.hours, x.hour);
    lemma_full_listing(FieldKind::DayOfMonth, f.days_of_month, x.day);
    lemma_full_listing(FieldKind::Month, f.months, x.month);
    lemma_full_listing(FieldKind::DayOfWeek, f.days_of_week, day_of_week(x.date()));
    assert(f.minutes[0] == 0u8);
}

/// The schedule that runs at the start of every hour runs next at the
/// start of the hour after the given point: one hour on and on the same
/// date before 23 o'clock, else at midnight of the next day. From one of
/// its occurrences that is exactly one hour later.
pub proof fn lemma_hourly(f: Fields, t: Stamp)
    requires
        every_hour(f),
        t.valid(),
    ensures
        next_occurrence(f, t) == if t.hour < 23 {
            Some(t.at(t.hour + 1, 0))
        } else {
            t.tomorrow()
        },
{
    lemma_date_after(t.date(), 1);
    assert(date_after(t.date(), 1) == next_date(t.date())) by {
        reveal_with_fuel(date_after, 2);
    }
    lemma_next_occurrence_sound(f, t);
    let expected = if t.hour < 23 {
        Some(t.at(t.hour + 1, 0))
    } else {
        t.tomorrow()
    };
    match expected {
        Some(x) => {
            lemma_hour_start(f, x);
            lemma_next_occurrence_first(f, t, x);
            let r = next_occurrence(f, t).unwrap();
            assert(f.minutes.contains(r.minute as u8));
            assert(r.minute == 0);
        },
        None => {
            match next_occurrence(f, t) {
                Some(r) => {
                    assert(f.minutes.contains(r.minute as u8));
                    assert(r.minute == 0);
                },
                None => {},
            }
        },
    }
}

/// The schedule that runs at midnight of every Sunday runs next, after one
/// of its occurrences, at midnight seven days later, provided that the
/// calendar has the day after the occurrence as a Monday and the seventh
/// day after it as a Sunday.
pub proof fn lemma_weekly(f: Fields, t: Stamp)
    requires
        every_sunday(f),
        minute_mark(t, t.offset),
        occurs_at(f, t),
        date_after(t.date(), 1) matches Some(d) && day_of_week(d) == 1,
        date_after(t.date(), 7) matches Some(d) && day_of_week(d) == 0,
    ensures
        next_occurrence(f, t) == Some(t.midnight(date_after(t.date(), 7).unwrap())),
{
    let limit = t.year + HORIZON;
    let monday = date_after(t.date(), 1).unwrap();
    let sunday = date_after(t.date(), 7).unwrap();
    lemma_date_after(t.date(), 1);
    lemma_date_after(t.date(), 7);
    lemma_date_after(monday, 6);
    lemma_date_after_near(t.date(), 7);
    assert(date_after(t.date(), 1) == next_date(t.date())) by {
        reveal_with_fuel(date_after, 2);
    }
    assert(date_after(t.date(), 7) == date_after(monday, 6));
    lemma_full_listing(FieldKind::DayOfMonth, f.days_of_month, t.day);
    lemma_full_listing(FieldKind::Month, f.months, t.month);
    lemma_full_listing(FieldKind::DayOfMonth, f.days_of_month, monday.day);
    lemma_full_listing(FieldKind::Month, f.months, monday.month);
    lemma_full_listing(FieldKind::DayOfMonth, f.days_of_month, sunday.day);
    lemma_full_listing(FieldKind::Month, f.months, sunday.month);
    let zero = seq![0u8];
    assert(zero[0] == 0u8);
    assert(zero.contains(0u8));
    assert(!zero.contains(1u8));
    assert(least_above(zero, 1) is None) by {
        reveal_with_fuel(least_above, 3);
        assert(zero.skip(1).len() == 0);
    }
    assert(f.hours.contains(t.hour as u8));
    assert(f.minutes.contains(t.minute as u8));
    assert(t.hour == 0 && t.minute == 0);
    assert(day_of_week(t.date()) == 0) by {
        lemma_day_of_week(t.date());
        assert(f.days_of_week.contains(day_of_week(t.date()) as u8));
    }
    let c0 = t.at(0, 1);
    let c1 = t.at(1, 0);
    let c2 = t.midnight(monday);
    let c3 = t.midnight(sunday);
    assert(t.following_minute() == Some(c0));
    assert(advance(f, c0, 0) == Step::Jump(c1));
    assert(advance(f, c1, 0) == Step::Jump(c2));
    assert(advance(f, c2, 1) == Step::Jump(c3));
    assert(advance(f, c3, 0) == Step::Found);
    assert(search(f, c3, limit) == Some(c3));
    assert(search(f, c2, limit) == search(f, c3, limit));
    assert(search(f, c1, limit) == search(f, c2, limit));
    assert(search(f, c0, limit) == search(f, c1, limit));
}

} // verus!
