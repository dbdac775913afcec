use cronchik::Advance;
use cronchik::CronSchedule;
use cronchik::DateTime;

fn at(year: i32, month: u8, day: u8, hour: u8, minute: u8) -> DateTime {
    DateTime::new(year, month, day, hour, minute, 0, 0, 0).unwrap()
}

fn next(text: &str, from: DateTime) -> Option<DateTime> {
    CronSchedule::parse_str(text).unwrap().next_time_from(from)
}

fn step(text: &str, c: DateTime) -> Advance {
    CronSchedule::parse_str(text).unwrap().step(&c, c.weekday())
}

#[test]
fn next_minute_of_the_hour() {
    assert_eq!(next("1 * * * *", at(2019, 1, 1, 0, 0)), Some(at(2019, 1, 1, 0, 1)));
    assert_eq!(next("1 * * * *", at(2019, 1, 1, 0, 1)), Some(at(2019, 1, 1, 1, 1)));
}

#[test]
fn next_day_of_the_month() {
    assert_eq!(next("0 20 10 * *", at(2019, 1, 1, 0, 0)), Some(at(2019, 1, 10, 20, 0)));
    assert_eq!(next("0 20 10 * *", at(2019, 1, 21, 0, 0)), Some(at(2019, 2, 10, 20, 0)));
    assert_eq!(next("0 20 10 * *", at(2019, 1, 10, 20, 0)), Some(at(2019, 2, 10, 20, 0)));
    assert_eq!(next("0 20 10 * *", at(2019, 1, 10, 19, 59)), Some(at(2019, 1, 10, 20, 0)));
}

#[test]
fn next_day_of_the_week() {
    assert_eq!(next("0 20 * * SUN", at(2019, 1, 31, 0, 0)), Some(at(2019, 2, 3, 20, 0)));
    assert_eq!(next("0 20 * * SAT", at(2019, 1, 1, 0, 0)), Some(at(2019, 1, 5, 20, 0)));
    assert_eq!(next("0 0 * * MON,THU", at(2019, 1, 1, 0, 0)), Some(at(2019, 1, 3, 0, 0)));
    assert_eq!(next("0 0 * * MON,THU", at(2019, 1, 3, 0, 0)), Some(at(2019, 1, 7, 0, 0)));
}

#[test]
fn result_comes_after_the_start_and_keeps_the_offset() {
    let from = DateTime::new(2019, 6, 15, 12, 30, 45, 123, -18_000).unwrap();
    let found = next("* * * * *", from).unwrap();
    assert_eq!(
        found,
        DateTime::new(2019, 6, 15, 12, 31, 0, 0, -18_000).unwrap()
    );
    let found = next("30 12 15 6 *", from).unwrap();
    assert_eq!(found, DateTime::new(2020, 6, 15, 12, 30, 0, 0, -18_000).unwrap());
    let from = DateTime::new(2019, 6, 15, 12, 29, 59, 999_999_999, 3600).unwrap();
    let found = next("30 12 15 6 *", from).unwrap();
    assert_eq!(found, DateTime::new(2019, 6, 15, 12, 30, 0, 0, 3600).unwrap());
}

#[test]
fn day_of_month_and_day_of_week_must_both_hold() {
    assert_eq!(next("0 0 13 * FRI", at(2019, 1, 1, 0, 0)), Some(at(2019, 9, 13, 0, 0)));
    assert_eq!(next("0 0 13 * FRI", at(2019, 9, 13, 0, 0)), Some(at(2019, 12, 13, 0, 0)));
    assert_eq!(next("0 0 1 1 MON", at(2020, 1, 1, 0, 0)), Some(at(2024, 1, 1, 0, 0)));
}

#[test]
fn months_roll_over_into_the_next_year() {
    assert_eq!(next("0 0 1 3 *", at(2019, 3, 1, 0, 0)), Some(at(2020, 3, 1, 0, 0)));
    assert_eq!(next("0 0 31 * *", at(2019, 1, 31, 0, 0)), Some(at(2019, 3, 31, 0, 0)));
    assert_eq!(next("0 0 30 1,2,3 *", at(2019, 1, 30, 0, 0)), Some(at(2019, 3, 30, 0, 0)));
    assert_eq!(next("59 23 31 12 *", at(2019, 12, 31, 23, 59)), Some(at(2020, 12, 31, 23, 59)));
}

#[test]
fn leap_day_is_found_within_the_horizon() {
    assert_eq!(next("0 0 29 2 *", at(2019, 1, 1, 0, 0)), Some(at(2020, 2, 29, 0, 0)));
    assert_eq!(next("0 0 29 2 *", at(2020, 2, 29, 0, 0)), Some(at(2024, 2, 29, 0, 0)));
    assert_eq!(next("0 0 29 2 *", at(2096, 2, 29, 0, 0)), None);
    assert_eq!(next("0 0 29 2 *", at(2100, 1, 1, 0, 0)), Some(at(2104, 2, 29, 0, 0)));
}

#[test]
fn search_gives_up_after_the_horizon() {
    assert_eq!(next("0 0 31 2 *", at(2019, 1, 1, 0, 0)), None);
    assert_eq!(next("0 0 30 2 *", at(2019, 1, 1, 0, 0)), None);
    assert_eq!(next("0 0 31 4,6,9,11 *", at(2019, 1, 1, 0, 0)), None);
    assert_eq!(next("0 0 1 1 MON", at(2020, 1, 1, 0, 0)), Some(at(2024, 1, 1, 0, 0)));
    assert_eq!(next("0 0 1 1 MON", at(2019, 12, 31, 23, 59)), None);
    assert_eq!(next("0 0 1 1 MON", at(2018, 1, 1, 0, 0)), None);
}

#[test]
fn search_stops_at_the_end_of_the_calendar() {
    assert_eq!(next("* * * * *", at(9999, 12, 31, 23, 58)), Some(at(9999, 12, 31, 23, 59)));
    assert_eq!(next("* * * * *", at(9999, 12, 31, 23, 59)), None);
    assert_eq!(next("0 * * * *", at(9999, 12, 31, 23, 0)), None);
    assert_eq!(next("0 0 * * *", at(9999, 12, 31, 0, 0)), None);
    assert_eq!(next("0 0 1 * *", at(9999, 12, 1, 0, 0)), None);
    assert_eq!(next("0 0 1 1 *", at(9999, 1, 1, 0, 0)), None);
    assert_eq!(next("0 0 * * SUN", at(9999, 12, 27, 0, 0)), None);
    assert_eq!(next("0 0 * * SUN", at(9999, 12, 20, 0, 0)), Some(at(9999, 12, 26, 0, 0)));
}

#[test]
fn weekly_schedule_recurs_every_seven_days() {
    let schedule = CronSchedule::parse_str(cronchik::WEEKLY).unwrap();
    let mut prev = schedule.next_time_from(at(2019, 1, 31, 0, 0)).unwrap();
    assert_eq!(prev, at(2019, 2, 3, 0, 0));
    for _ in 0..120 {
        let found = schedule.next_time_from(prev).unwrap();
        assert_eq!(found.weekday(), 0);
        assert_eq!(Some(found), prev.days_later(7));
        prev = found;
    }
}

#[test]
fn hourly_schedule_recurs_every_hour() {
    let schedule = CronSchedule::parse_str(cronchik::HOURLY).unwrap();
    let mut prev = schedule.next_time_from(at(2019, 1, 31, 0, 30)).unwrap();
    assert_eq!(prev, at(2019, 1, 31, 1, 0));
    for _ in 0..60 {
        let found = schedule.next_time_from(prev).unwrap();
        if prev.hour() < 23 {
            assert_eq!(found, at(prev.year(), prev.month(), prev.day(), prev.hour() + 1, 0));
        } else {
            assert_eq!(Some(found), prev.days_later(1));
        }
        prev = found;
    }
}

#[test]
fn first_occurrence_is_found_when_every_weekday_is_allowed() {
    let texts = ["*/7 */5 */3 */2 *", "59 23 31 * *", "0 12 1,15 1,7 *", "13 7 29 2 *"];
    for text in texts {
        let schedule = CronSchedule::parse_str(text).unwrap();
        let mut from = at(2019, 12, 30, 22, 0);
        for _ in 0..15 {
            let found = schedule.next_time_from(from).unwrap();
            let mut probe = from.following_minute().unwrap();
            let mut steps = 0;
            while probe != found && steps < 3000 {
                let allowed = schedule.months().contains(&probe.month())
                    && schedule.days_of_month().contains(&probe.day())
                    && schedule.hours().contains(&probe.hour())
                    && schedule.minutes().contains(&probe.minute());
                assert!(!allowed, "{} passes over {:?}", text, probe);
                probe = probe.following_minute().unwrap();
                steps += 1;
            }
            from = found;
        }
    }
}

#[test]
fn one_look_at_a_candidate() {
    assert_eq!(step("* * * * *", at(2019, 1, 1, 0, 0)), Advance::Found);
    assert_eq!(step("0 0 1 3,5 *", at(2019, 1, 15, 7, 8)), Advance::Jump(at(2019, 3, 1, 0, 0)));
    assert_eq!(step("0 0 1 3,5 *", at(2019, 4, 15, 7, 8)), Advance::Jump(at(2019, 5, 1, 0, 0)));
    assert_eq!(step("0 0 1 3,5 *", at(2019, 6, 15, 7, 8)), Advance::Jump(at(2020, 1, 1, 0, 0)));
    assert_eq!(step("0 0 1 3,5 *", at(9999, 6, 15, 7, 8)), Advance::End);
    assert_eq!(step("0 0 10,20 * *", at(2019, 1, 15, 7, 8)), Advance::Jump(at(2019, 1, 20, 0, 0)));
    assert_eq!(step("0 0 10,20 * *", at(2019, 1, 21, 7, 8)), Advance::Jump(at(2019, 2, 1, 0, 0)));
    assert_eq!(step("0 0 10,20 * *", at(2019, 12, 21, 7, 8)), Advance::Jump(at(2020, 1, 1, 0, 0)));
    assert_eq!(step("0 0 10,20 * *", at(9999, 12, 21, 7, 8)), Advance::End);
    assert_eq!(step("0 0 30 * *", at(2019, 2, 1, 7, 8)), Advance::Jump(at(2019, 3, 1, 0, 0)));
    assert_eq!(step("0 5,9 * * *", at(2019, 1, 1, 6, 8)), Advance::Jump(at(2019, 1, 1, 9, 0)));
    assert_eq!(step("0 5,9 * * *", at(2019, 1, 1, 10, 8)), Advance::Jump(at(2019, 1, 2, 0, 0)));
    assert_eq!(step("0 5,9 * * *", at(9999, 12, 31, 10, 8)), Advance::End);
    assert_eq!(step("5,9 * * * *", at(2019, 1, 1, 6, 6)), Advance::Jump(at(2019, 1, 1, 6, 9)));
    assert_eq!(step("5,9 * * * *", at(2019, 1, 1, 6, 10)), Advance::Jump(at(2019, 1, 1, 7, 0)));
    assert_eq!(step("5,9 * * * *", at(2019, 1, 1, 23, 10)), Advance::Jump(at(2019, 1, 2, 0, 0)));
    assert_eq!(step("5,9 * * * *", at(9999, 12, 31, 23, 10)), Advance::End);
    assert_eq!(step("5,9 * * * *", at(2019, 1, 1, 23, 9)), Advance::Found);
}

#[test]
fn one_look_at_the_day_of_the_week() {
    let schedule = CronSchedule::parse_str("* * * * WED,FRI").unwrap();
    let c = at(2019, 1, 15, 7, 8);
    assert_eq!(schedule.step(&c, 3), Advance::Found);
    assert_eq!(schedule.step(&c, 5), Advance::Found);
    assert_eq!(schedule.step(&c, 0), Advance::Jump(at(2019, 1, 18, 0, 0)));
    assert_eq!(schedule.step(&c, 2), Advance::Jump(at(2019, 1, 16, 0, 0)));
    assert_eq!(schedule.step(&c, 4), Advance::Jump(at(2019, 1, 16, 0, 0)));
    assert_eq!(schedule.step(&c, 6), Advance::Jump(at(2019, 1, 16, 0, 0)));
    let c = at(2019, 1, 30, 7, 8);
    assert_eq!(schedule.step(&c, 2), Advance::Jump(at(2019, 1, 31, 0, 0)));
    assert_eq!(schedule.step(&c, 0), Advance::Jump(at(2019, 2, 3, 0, 0)));
    assert_eq!(schedule.step(&c, 4), Advance::Jump(at(2019, 1, 31, 0, 0)));
    assert_eq!(schedule.step(&c, 6), Advance::Jump(at(2019, 1, 31, 0, 0)));
    let c = at(2019, 1, 31, 7, 8);
    assert_eq!(schedule.step(&c, 4), Advance::Jump(at(2019, 2, 1, 0, 0)));
    assert_eq!(schedule.step(&c, 0), Advance::Jump(at(2019, 2, 3, 0, 0)));
    let c = at(2019, 12, 31, 7, 8);
    assert_eq!(schedule.step(&c, 2), Advance::Jump(at(2020, 1, 1, 0, 0)));
    assert_eq!(schedule.step(&c, 6), Advance::Jump(at(2020, 1, 1, 0, 0)));
    let c = at(9999, 12, 31, 7, 8);
    assert_eq!(schedule.step(&c, 2), Advance::End);
    assert_eq!(schedule.step(&c, 6), Advance::End);
}

#[test]
fn move_into_the_next_month_counts_days_from_its_start() {
    // Wednesday the 30th: Saturday is three days on, past the end of the
    // month, so the search goes on from the 3rd of the next month.
    let from = at(2019, 1, 30, 0, 0);
    assert_eq!(from.weekday(), 3);
    assert_eq!(step("0 20 * * SAT", from.following_minute().unwrap()), Advance::Jump(at(2019, 2, 3, 0, 0)));
    assert_eq!(next("0 20 * * SAT", from), Some(at(2019, 2, 9, 20, 0)));
}

#[test]
fn expression_and_search_in_one_call() {
    let from = at(2019, 1, 1, 0, 0);
    assert_eq!(
        cronchik::parse_cron_from_time("0 20 10 12 *", from),
        Ok(Some(at(2019, 12, 10, 20, 0)))
    );
    assert_eq!(cronchik::parse_cron_from_time("0 0 31 2 *", from), Ok(None));
    assert_eq!(
        cronchik::parse_cron_from_time("0 20 10 12", from),
        Err(cronchik::ParseError::Incomplete)
    );
    assert_eq!(
        cronchik::parse_cron_from_time("0 20 10 12 * *", from),
        Err(cronchik::ParseError::Unsupported)
    );
}
