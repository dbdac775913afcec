use cronchik::CronSchedule;
use cronchik::Day;
use cronchik::DayOfMonth;
use cronchik::Hour;
use cronchik::Minute;
use cronchik::Month;

#[test]
fn assert_day_of_month_parser() {
    let result = DayOfMonth::from_expr("*").unwrap();
    let result = result.as_slice();
    println!("{}: Verify *", "DayOfMonth");
    for idx in 1..=((DayOfMonth::MAX - DayOfMonth::MIN) as usize) {
        let val: u8 = result[idx].into();
        let prev_val: u8 = result[idx - 1].into();
        assert_eq!(val, prev_val + 1);
    }

    println!("{}: Verify parser from MIN to MAX", "DayOfMonth");
    for idx in DayOfMonth::MIN..=DayOfMonth::MAX {
        let text = format!("{}", idx);
        let result = DayOfMonth::from_expr(&text).unwrap();
        assert_eq!(result.len(), 1);
        let val: u8 = result.as_slice()[0].into();
        assert_eq!(val, idx);
    }

    println!("{}: Verify unique list", "DayOfMonth");
    let mut list = String::new();
    let mut expected_len = 1;
    for idx in DayOfMonth::MIN..=DayOfMonth::MAX {
        list.push_str(&format!("{}", idx));
        let result = DayOfMonth::from_expr(&list).expect("To parse list");
        assert_eq!(result.len(), expected_len, "wrong len");
        expected_len += 1;
        list.push(',');
    }

    println!("{}: Verify list repeats", "DayOfMonth");
    let result = DayOfMonth::from_expr("2,1,2,1").expect("To parse list");
    assert_eq!(result.len(), 2, "wrong len");
    let val: u8 = result.as_slice()[0].into();
    assert_eq!(val, 1);
    let val: u8 = result.as_slice()[1].into();
    assert_eq!(val, 2);

    println!("{}: Verify step by 5", "DayOfMonth");
    let result = DayOfMonth::from_expr("*/5").expect("To parse list");
    for (idx, expected_val) in (DayOfMonth::MIN..=DayOfMonth::MAX).step_by(5).enumerate() {
        let val: u8 = result.as_slice()[idx].into();
        assert_eq!(val, expected_val);
    }

    println!("{}: Verify step by 5 starting from 3", "DayOfMonth");
    let result = DayOfMonth::from_expr("3/5").expect("To parse list");
    for (idx, expected_val) in (3..=DayOfMonth::MAX).step_by(5).enumerate() {
        let val: u8 = result.as_slice()[idx].into();
        assert_eq!(val, expected_val);
    }

    println!("{}: Verify step by 0", "DayOfMonth");
    DayOfMonth::from_expr("*/0").expect_err("Should fail step by 0");
}

#[test]
fn assert_minute_parser() {
    let result = Minute::from_expr("*").unwrap();
    let result = result.as_slice();
    println!("{}: Verify *", "Minute");
    for idx in 1..=((Minute::MAX - Minute::MIN) as usize) {
        let val: u8 = result[idx].into();
        let prev_val: u8 = result[idx - 1].into();
        assert_eq!(val, prev_val + 1);
    }

    println!("{}: Verify parser from MIN to MAX", "Minute");
    for idx in Minute::MIN..=Minute::MAX {
        let text = format!("{}", idx);
        let result = Minute::from_expr(&text).unwrap();
        assert_eq!(result.len(), 1);
        let val: u8 = result.as_slice()[0].into();
        assert_eq!(val, idx);
    }

    println!("{}: Verify unique list", "Minute");
    let mut list = String::new();
    let mut expected_len = 1;
    for idx in Minute::MIN..=Minute::MAX {
        list.push_str(&format!("{}", idx));
        let result = Minute::from_expr(&list).expect("To parse list");
        assert_eq!(result.len(), expected_len, "wrong len");
        expected_len += 1;
        list.push(',');
    }

    println!("{}: Verify list repeats", "Minute");
    let result = Minute::from_expr("2,1,2,1").expect("To parse list");
    assert_eq!(result.len(), 2, "wrong len");
    let val: u8 = result.as_slice()[0].into();
    assert_eq!(val, 1);
    let val: u8 = result.as_slice()[1].into();
    assert_eq!(val, 2);

    println!("{}: Verify step by 5", "Minute");
    let result = Minute::from_expr("*/5").expect("To parse list");
    for (idx, expected_val) in (Minute::MIN..=Minute::MAX).step_by(5).enumerate() {
        let val: u8 = result.as_slice()[idx].into();
        assert_eq!(val, expected_val);
    }

    println!("{}: Verify step by 5 starting from 3", "Minute");
    let result = Minute::from_expr("3/5").expect("To parse list");
    for (idx, expected_val) in (3..=Minute::MAX).step_by(5).enumerate() {
        let val: u8 = result.as_slice()[idx].into();
        assert_eq!(val, expected_val);
    }

    println!("{}: Verify step by 0", "Minute");
    Minute::from_expr("*/0").expect_err("Should fail step by 0");
}

#[test]
fn assert_hour_parser() {
    let result = Hour::from_expr("*").unwrap();
    let result = result.as_slice();
    println!("{}: Verify *", "Hour");
    for idx in 1..=((Hour::MAX - Hour::MIN) as usize) {
        let val: u8 = result[idx].into();
        let prev_val: u8 = result[idx - 1].into();
        assert_eq!(val, prev_val + 1);
    }

    println!("{}: Verify parser from MIN to MAX", "Hour");
    for idx in Hour::MIN..=Hour::MAX {
        let text = format!("{}", idx);
        let result = Hour::from_expr(&text).unwrap();
        assert_eq!(result.len(), 1);
        let val: u8 = result.as_slice()[0].into();
        assert_eq!(val, idx);
    }

    println!("{}: Verify unique list", "Hour");
    let mut list = String::new();
    let mut expected_len = 1;
    for idx in Hour::MIN..=Hour::MAX {
        list.push_str(&format!("{}", idx));
        let result = Hour::from_expr(&list).expect("To parse list");
        assert_eq!(result.len(), expected_len, "wrong len");
        expected_len += 1;
        list.push(',');
    }

    println!("{}: Verify list repeats", "Hour");
    let result = Hour::from_expr("2,1,2,1").expect("To parse list");
    assert_eq!(result.len(), 2, "wrong len");
    let val: u8 = result.as_slice()[0].into();
    assert_eq!(val, 1);
    let val: u8 = result.as_slice()[1].into();
    assert_eq!(val, 2);

    println!("{}: Verify step by 5", "Hour");
    let result = Hour::from_expr("*/5").expect("To parse list");
    for (idx, expected_val) in (Hour::MIN..=Hour::MAX).step_by(5).enumerate() {
        let val: u8 = result.as_slice()[idx].into();
        assert_eq!(val, expected_val);
    }

    println!("{}: Verify step by 5 starting from 3", "Hour");
    let result = Hour::from_expr("3/5").expect("To parse list");
    for (idx, expected_val) in (3..=Hour::MAX).step_by(5).enumerate() {
        let val: u8 = result.as_slice()[idx].into();
        assert_eq!(val, expected_val);
    }

    println!("{}: Verify step by 0", "Hour");
    Hour::from_expr("*/0").expect_err("Should fail step by 0");
}

#[test]
fn assert_day_parser() {
    let result = Day::from_expr("*").unwrap();
    let result = result.as_slice();
    println!("{}: Verify *", "Day");
    for idx in 1..=((Day::MAX - Day::MIN) as usize) {
        let val: u8 = result[idx].into();
        let prev_val: u8 = result[idx - 1].into();
        assert_eq!(val, prev_val + 1);
    }

    println!("{}: Verify parser from MIN to MAX", "Day");
    for idx in Day::MIN..=Day::MAX {
        let text = format!("{}", idx);
        let result = Day::from_expr(&text).unwrap();
        assert_eq!(result.len(), 1);
        let val: u8 = result.as_slice()[0].into();
        assert_eq!(val, idx);
    }

    println!("{}: Verify unique list", "Day");
    let mut list = String::new();
    let mut expected_len = 1;
    for idx in Day::MIN..=Day::MAX {
        list.push_str(&format!("{}", idx));
        let result = Day::from_expr(&list).expect("To parse list");
        assert_eq!(result.len(), expected_len, "wrong len");
        expected_len += 1;
        list.push(',');
    }

    println!("{}: Verify list repeats", "Day");
    let result = Day::from_expr("2,1,2,1").expect("To parse list");
    assert_eq!(result.len(), 2, "wrong len");
    let val: u8 = result.as_slice()[0].into();
    assert_eq!(val, 1);
    let val: u8 = result.as_slice()[1].into();
    assert_eq!(val, 2);

    println!("{}: Verify step by 5", "Day");
    let result = Day::from_expr("*/5").expect("To parse list");
    for (idx, expected_val) in (Day::MIN..=Day::MAX).step_by(5).enumerate() {
        let val: u8 = result.as_slice()[idx].into();
        assert_eq!(val, expected_val);
    }

    println!("{}: Verify step by 5 starting from 3", "Day");
    let result = Day::from_expr("3/5").expect("To parse list");
    for (idx, expected_val) in (3..=Day::MAX).step_by(5).enumerate() {
        let val: u8 = result.as_slice()[idx].into();
        assert_eq!(val, expected_val);
    }

    println!("{}: Verify step by 0", "Day");
    Day::from_expr("*/0").expect_err("Should fail step by 0");
}

#[test]
fn assert_month_parser() {
    let result = Month::from_expr("*").unwrap();
    let result = result.as_slice();
    println!("{}: Verify *", "Month");
    for idx in 1..=((Month::MAX - Month::MIN) as usize) {
        let val: u8 = result[idx].into();
        let prev_val: u8 = result[idx - 1].into();
        assert_eq!(val, prev_val + 1);
    }

    println!("{}: Verify parser from MIN to MAX", "Month");
    for idx in Month::MIN..=Month::MAX {
        let text = format!("{}", idx);
        let result = Month::from_expr(&text).unwrap();
        assert_eq!(result.len(), 1);
        let val: u8 = result.as_slice()[0].into();
        assert_eq!(val, idx);
    }

    println!("{}: Verify unique list", "Month");
    let mut list = String::new();
    let mut expected_len = 1;
    for idx in Month::MIN..=Month::MAX {
        list.push_str(&format!("{}", idx));
        let result = Month::from_expr(&list).expect("To parse list");
        assert_eq!(result.len(), expected_len, "wrong len");
        expected_len += 1;
        list.push(',');
    }

    println!("{}: Verify list repeats", "Month");
    let result = Month::from_expr("2,1,2,1").expect("To parse list");
    assert_eq!(result.len(), 2, "wrong len");
    let val: u8 = result.as_slice()[0].into();
    assert_eq!(val, 1);
    let val: u8 = result.as_slice()[1].into();
    assert_eq!(val, 2);

    println!("{}: Verify step by 5", "Month");
    let result = Month::from_expr("*/5").expect("To parse list");
    for (idx, expected_val) in (Month::MIN..=Month::MAX).step_by(5).enumerate() {
        let val: u8 = result.as_slice()[idx].into();
        assert_eq!(val, expected_val);
    }

    println!("{}: Verify step by 5 starting from 3", "Month");
    let result = Month::from_expr("3/5").expect("To parse list");
    for (idx, expected_val) in (3..=Month::MAX).step_by(5).enumerate() {
        let val: u8 = result.as_slice()[idx].into();
        assert_eq!(val, expected_val);
    }

    println!("{}: Verify step by 0", "Month");
    Month::from_expr("*/0").expect_err("Should fail step by 0");
}

#[test]
fn assert_display_correctness() {
    let crons = [
        "1 * * * *",
        "1 1 * * *",
        "0 20 10 * *",
        "0 20 * * SAT",
        "0 20 * MAR FRI",
    ];

    for cron in crons.iter() {
        let schedule = CronSchedule::parse_str(cron).unwrap();
        let text = schedule.to_text();
        assert_eq!(*cron, text);
        let rev_schedule = CronSchedule::parse_str(&text).unwrap();
        assert_eq!(schedule, rev_schedule);
    }

    //Because it is impossible to reliably decide how to group into step by expression
    let crons = [
        ("0 20 * MAR/2 FRI", "0 20 * MAR,MAY,JUL,SEP,NOV FRI"),
        ("0 1,10-20 * MAR/2 FRI", "0 1,10-20 * MAR,MAY,JUL,SEP,NOV FRI"),
        ("0 1,10/2 * MAR/2 FRI", "0 1,10,12,14,16,18,20,22 * MAR,MAY,JUL,SEP,NOV FRI"),
        (
            "10,20,30/10 1,10/2 * MAR/2 FRI",
            "10,20,30,40,50 1,10,12,14,16,18,20,22 * MAR,MAY,JUL,SEP,NOV FRI",
        ),
    ];

    for (cron, expected_rev) in crons.iter() {
        let schedule = CronSchedule::parse_str(cron).unwrap();
        let text = schedule.to_text();
        assert_eq!(*expected_rev, text);
        let rev_schedule = CronSchedule::parse_str(&text).unwrap();
        assert_eq!(schedule, rev_schedule);
    }
}
