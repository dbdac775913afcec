use cronchik::error::InvalidExpr;
use cronchik::error::ParseError;
use cronchik::field::parse_field;
use cronchik::kind::FieldKind;
use cronchik::CronSchedule;
use cronchik::Day;
use cronchik::DayOfMonth;
use cronchik::Hour;
use cronchik::Minute;
use cronchik::Month;

const KINDS: [FieldKind; 5] = [
    FieldKind::Minute,
    FieldKind::Hour,
    FieldKind::DayOfMonth,
    FieldKind::Month,
    FieldKind::DayOfWeek,
];

fn values(kind: FieldKind, text: &str) -> Vec<u8> {
    parse_field(kind, text.as_bytes()).unwrap().as_slice().to_vec()
}

fn fault(kind: FieldKind, text: &str) -> InvalidExpr {
    parse_field(kind, text.as_bytes()).unwrap_err()
}

fn range(from: u8, to: u8) -> Vec<u8> {
    (from..=to).collect()
}

#[test]
fn bounds_of_every_field() {
    let expected = [(0, 59, 60), (0, 23, 24), (1, 31, 31), (1, 12, 12), (0, 6, 7)];
    for (kind, (min, max, size)) in KINDS.iter().zip(expected) {
        assert_eq!(kind.min(), min);
        assert_eq!(kind.max(), max);
        assert_eq!(kind.size(), size);
    }
    assert_eq!((Minute::MIN, Minute::MAX), (0, 59));
    assert_eq!((Hour::MIN, Hour::MAX), (0, 23));
    assert_eq!((DayOfMonth::MIN, DayOfMonth::MAX), (1, 31));
    assert_eq!((Month::MIN, Month::MAX), (1, 12));
    assert_eq!((Day::MIN, Day::MAX), (0, 6));
}

#[test]
fn names_of_every_field() {
    let names = ["Minute", "Hour", "Day of Month", "Month", "Day of Week"];
    for (kind, name) in KINDS.iter().zip(names) {
        assert_eq!(kind.name(), name);
    }
    assert_eq!(Minute::NAME, "Minute");
    assert_eq!(Hour::NAME, "Hour");
    assert_eq!(DayOfMonth::NAME, "Day of Month");
    assert_eq!(Month::NAME, "Month");
    assert_eq!(Day::NAME, "Day of Week");
}

#[test]
fn wildcard_is_the_whole_range() {
    for kind in KINDS {
        assert_eq!(values(kind, "*"), range(kind.min(), kind.max()));
        let set = parse_field(kind, b"*").unwrap();
        assert!(set.is_full());
        assert_eq!(set.len(), set.capacity());
        assert_eq!(set.kind(), kind);
    }
}

#[test]
fn single_number_is_a_single_value() {
    for kind in KINDS {
        for v in kind.min()..=kind.max() {
            assert_eq!(values(kind, &v.to_string()), vec![v]);
        }
    }
}

#[test]
fn leading_zeros_are_read() {
    assert_eq!(values(FieldKind::Minute, "007"), vec![7]);
    assert_eq!(values(FieldKind::Month, "012"), vec![12]);
    assert_eq!(values(FieldKind::Hour, "00"), vec![0]);
}

#[test]
fn list_keeps_each_value_once_in_order() {
    for kind in KINDS {
        assert_eq!(values(kind, "2,1,2,1"), vec![1, 2]);
    }
    assert_eq!(values(FieldKind::Minute, "59,0,30,0,59"), vec![0, 30, 59]);
}

#[test]
fn list_grows_by_one_per_new_value() {
    for kind in KINDS {
        let mut text = String::new();
        for v in kind.min()..=kind.max() {
            if !text.is_empty() {
                text.push(',');
            }
            text.push_str(&v.to_string());
            assert_eq!(values(kind, &text), range(kind.min(), v));
        }
    }
}

#[test]
fn every_fifth_value() {
    assert_eq!(values(FieldKind::Minute, "*/5"), vec![0, 5, 10, 15, 20, 25, 30, 35, 40, 45, 50, 55]);
    assert_eq!(values(FieldKind::Hour, "*/5"), vec![0, 5, 10, 15, 20]);
    assert_eq!(values(FieldKind::DayOfMonth, "*/5"), vec![1, 6, 11, 16, 21, 26, 31]);
    assert_eq!(values(FieldKind::Month, "*/5"), vec![1, 6, 11]);
    assert_eq!(values(FieldKind::DayOfWeek, "*/5"), vec![0, 5]);
}

#[test]
fn series_from_a_base() {
    assert_eq!(values(FieldKind::Minute, "3/5"), vec![3, 8, 13, 18, 23, 28, 33, 38, 43, 48, 53, 58]);
    assert_eq!(values(FieldKind::Hour, "10/2"), vec![10, 12, 14, 16, 18, 20, 22]);
    assert_eq!(values(FieldKind::Month, "MAR/2"), vec![3, 5, 7, 9, 11]);
    assert_eq!(values(FieldKind::DayOfWeek, "mon/3"), vec![1, 4]);
    assert_eq!(values(FieldKind::Minute, "59/1"), vec![59]);
}

#[test]
fn series_with_a_long_step_is_its_base() {
    assert_eq!(values(FieldKind::Minute, "*/59"), vec![0, 59]);
    assert_eq!(values(FieldKind::Minute, "*/60"), vec![0]);
    assert_eq!(values(FieldKind::Hour, "5/100"), vec![5]);
    assert_eq!(values(FieldKind::Month, "2/256"), vec![2]);
    assert_eq!(values(FieldKind::DayOfWeek, "*/99999999999999999999"), vec![0]);
}

#[test]
fn ranges_run_from_bound_to_bound() {
    assert_eq!(values(FieldKind::Hour, "10-20"), range(10, 20));
    assert_eq!(values(FieldKind::Minute, "5-5"), vec![5]);
    assert_eq!(values(FieldKind::Month, "MAR-MAY"), vec![3, 4, 5]);
    assert_eq!(values(FieldKind::Month, "2-apr"), vec![2, 3, 4]);
    assert_eq!(values(FieldKind::DayOfWeek, "MON-FRI"), vec![1, 2, 3, 4, 5]);
    assert_eq!(values(FieldKind::DayOfMonth, "1-31"), range(1, 31));
}

#[test]
fn entries_of_every_form_mix() {
    assert_eq!(
        values(FieldKind::Minute, "50/5,1-3,2,30/30,0"),
        vec![0, 1, 2, 3, 30, 50, 55]
    );
    assert_eq!(values(FieldKind::Month, "DEC,1,jun-AUG,*/6"), vec![1, 6, 7, 8, 12]);
}

#[test]
fn names_are_read_in_any_case() {
    let months =
        ["JAN", "FEB", "MAR", "APR", "MAY", "JUN", "JUL", "AUG", "SEP", "OCT", "NOV", "DEC"];
    for (i, name) in months.iter().enumerate() {
        let v = i as u8 + 1;
        assert_eq!(values(FieldKind::Month, name), vec![v]);
        assert_eq!(values(FieldKind::Month, &name.to_lowercase()), vec![v]);
        assert_eq!(FieldKind::Month.value_named(name.as_bytes()), Some(v));
    }
    let days = ["SUN", "MON", "TUE", "WED", "THU", "FRI", "SAT"];
    for (i, name) in days.iter().enumerate() {
        let v = i as u8;
        assert_eq!(values(FieldKind::DayOfWeek, name), vec![v]);
        assert_eq!(values(FieldKind::DayOfWeek, &name.to_lowercase()), vec![v]);
    }
    assert_eq!(values(FieldKind::Month, "mAr"), vec![3]);
    assert_eq!(values(FieldKind::DayOfWeek, "sAt"), vec![6]);
}

#[test]
fn names_belong_to_their_field() {
    assert_eq!(fault(FieldKind::Minute, "JAN"), InvalidExpr::InvalidEntryValue);
    assert_eq!(fault(FieldKind::Hour, "SUN"), InvalidExpr::InvalidEntryValue);
    assert_eq!(fault(FieldKind::DayOfMonth, "MON"), InvalidExpr::InvalidEntryValue);
    assert_eq!(fault(FieldKind::Month, "SUN"), InvalidExpr::InvalidEntryValue);
    assert_eq!(fault(FieldKind::DayOfWeek, "JAN"), InvalidExpr::InvalidEntryValue);
    assert_eq!(FieldKind::Minute.value_named(b"JAN"), None);
}

#[test]
fn wildcard_stands_alone() {
    for kind in KINDS {
        assert_eq!(fault(kind, "*,1"), InvalidExpr::InvalidWildCard);
        assert_eq!(fault(kind, "1,*"), InvalidExpr::InvalidWildCard);
        assert_eq!(fault(kind, "*,*"), InvalidExpr::InvalidWildCard);
        assert_eq!(fault(kind, "*,"), InvalidExpr::InvalidWildCard);
        assert_eq!(fault(kind, "*/2,*"), InvalidExpr::InvalidWildCard);
    }
}

#[test]
fn step_of_zero_is_refused() {
    for kind in KINDS {
        assert_eq!(fault(kind, "*/0"), InvalidExpr::InvalidStepRange);
        assert_eq!(fault(kind, "1/0"), InvalidExpr::InvalidStepRange);
        assert_eq!(fault(kind, "*/000"), InvalidExpr::InvalidStepRange);
    }
}

#[test]
fn step_must_be_a_number() {
    for kind in KINDS {
        assert_eq!(fault(kind, "*/x"), InvalidExpr::InvalidStepValue);
        assert_eq!(fault(kind, "*/"), InvalidExpr::InvalidStepValue);
        assert_eq!(fault(kind, "1/-1"), InvalidExpr::InvalidStepValue);
        assert_eq!(fault(kind, "1/+1"), InvalidExpr::InvalidStepValue);
        assert_eq!(fault(kind, "1/*"), InvalidExpr::InvalidStepValue);
    }
    assert_eq!(fault(FieldKind::Month, "*/MAR"), InvalidExpr::InvalidStepValue);
}

#[test]
fn base_of_a_series_fails_as_an_entry() {
    assert_eq!(fault(FieldKind::Minute, "x/5"), InvalidExpr::InvalidEntryValue);
    assert_eq!(fault(FieldKind::Minute, "/5"), InvalidExpr::InvalidEntryValue);
    assert_eq!(fault(FieldKind::Minute, "60/5"), InvalidExpr::InvalidEntryRange);
    assert_eq!(fault(FieldKind::DayOfMonth, "0/5"), InvalidExpr::InvalidEntryRange);
    assert_eq!(fault(FieldKind::Minute, "x/y"), InvalidExpr::InvalidEntryValue);
    assert_eq!(fault(FieldKind::Minute, "1-5/2"), InvalidExpr::InvalidEntryValue);
}

#[test]
fn entry_out_of_range() {
    assert_eq!(fault(FieldKind::Minute, "60"), InvalidExpr::InvalidEntryRange);
    assert_eq!(fault(FieldKind::Hour, "24"), InvalidExpr::InvalidEntryRange);
    assert_eq!(fault(FieldKind::DayOfMonth, "0"), InvalidExpr::InvalidEntryRange);
    assert_eq!(fault(FieldKind::DayOfMonth, "32"), InvalidExpr::InvalidEntryRange);
    assert_eq!(fault(FieldKind::Month, "0"), InvalidExpr::InvalidEntryRange);
    assert_eq!(fault(FieldKind::Month, "13"), InvalidExpr::InvalidEntryRange);
    assert_eq!(fault(FieldKind::DayOfWeek, "7"), InvalidExpr::InvalidEntryRange);
    assert_eq!(fault(FieldKind::Minute, "255"), InvalidExpr::InvalidEntryRange);
    assert_eq!(fault(FieldKind::Minute, "256"), InvalidExpr::InvalidEntryRange);
    assert_eq!(fault(FieldKind::Month, "999"), InvalidExpr::InvalidEntryRange);
    assert_eq!(fault(FieldKind::Hour, "123456789012345678901234567890"), InvalidExpr::InvalidEntryRange);
}

#[test]
fn entry_that_is_no_value() {
    for kind in KINDS {
        assert_eq!(fault(kind, ""), InvalidExpr::InvalidEntryValue);
        assert_eq!(fault(kind, "1,"), InvalidExpr::InvalidEntryValue);
        assert_eq!(fault(kind, ",1"), InvalidExpr::InvalidEntryValue);
        assert_eq!(fault(kind, "abc"), InvalidExpr::InvalidEntryValue);
        assert_eq!(fault(kind, "+1"), InvalidExpr::InvalidEntryValue);
        assert_eq!(fault(kind, "-1"), InvalidExpr::InvalidRange);
        assert_eq!(fault(kind, "1 "), InvalidExpr::InvalidEntryValue);
        assert_eq!(fault(kind, "1/2/3"), InvalidExpr::InvalidEntryValue);
        assert_eq!(fault(kind, "1-2-3"), InvalidExpr::InvalidEntryValue);
        assert_eq!(fault(kind, "**"), InvalidExpr::InvalidEntryValue);
        assert_eq!(fault(kind, "1x"), InvalidExpr::InvalidEntryValue);
    }
    assert_eq!(fault(FieldKind::Month, "JANU"), InvalidExpr::InvalidEntryValue);
    assert_eq!(fault(FieldKind::Month, "JA"), InvalidExpr::InvalidEntryValue);
    assert_eq!(fault(FieldKind::Month, "XYZ"), InvalidExpr::InvalidEntryValue);
}

#[test]
fn range_with_a_bad_bound() {
    for kind in KINDS {
        assert_eq!(fault(kind, "a-5"), InvalidExpr::InvalidRange);
        assert_eq!(fault(kind, "1-b"), InvalidExpr::InvalidRange);
        assert_eq!(fault(kind, "1-"), InvalidExpr::InvalidRange);
        assert_eq!(fault(kind, "-"), InvalidExpr::InvalidRange);
        assert_eq!(fault(kind, "1-99"), InvalidExpr::InvalidRange);
        assert_eq!(fault(kind, "99-1"), InvalidExpr::InvalidRange);
        assert_eq!(fault(kind, "*-3"), InvalidExpr::InvalidRange);
    }
}

#[test]
fn range_in_reverse_is_refused() {
    assert_eq!(fault(FieldKind::Minute, "5-1"), InvalidExpr::InvalidRangeRev);
    assert_eq!(fault(FieldKind::Month, "MAY-MAR"), InvalidExpr::InvalidRangeRev);
    assert_eq!(fault(FieldKind::DayOfWeek, "6-0"), InvalidExpr::InvalidRangeRev);
}

#[test]
fn first_faulty_entry_decides() {
    assert_eq!(fault(FieldKind::Minute, "x,*"), InvalidExpr::InvalidEntryValue);
    assert_eq!(fault(FieldKind::Minute, "5-1,61"), InvalidExpr::InvalidRangeRev);
    assert_eq!(fault(FieldKind::Minute, "61,5-1"), InvalidExpr::InvalidEntryRange);
    assert_eq!(fault(FieldKind::Minute, "1,2,*/0,x"), InvalidExpr::InvalidStepRange);
}

#[test]
fn no_field_overflows() {
    for kind in KINDS {
        let text = "*/1,0-6,1-6,1,2,3,4,5,6,1/1,2/2";
        match parse_field(kind, text.as_bytes()) {
            Ok(set) => assert!(set.len() <= set.capacity()),
            Err(e) => assert_ne!(e, InvalidExpr::ParserOverflow),
        }
    }
    assert_eq!(values(FieldKind::DayOfWeek, "0-6,0/1,6,5,4,3,2,1,0"), range(0, 6));
}

#[test]
fn field_set_looks_values_up() {
    let set = parse_field(FieldKind::Minute, b"10,20,30").unwrap();
    assert_eq!(set.len(), 3);
    assert_eq!(set.capacity(), 60);
    assert!(!set.is_full());
    assert_eq!(set.get(0), Some(10));
    assert_eq!(set.get(2), Some(30));
    assert_eq!(set.get(3), None);
    assert!(set.contains(20));
    assert!(!set.contains(21));
    assert_eq!(set.search(10), Ok(0));
    assert_eq!(set.search(30), Ok(2));
    assert_eq!(set.search(0), Err(0));
    assert_eq!(set.search(15), Err(1));
    assert_eq!(set.search(59), Err(3));
    assert_eq!(set.clone(), set);
    assert_ne!(set, parse_field(FieldKind::Hour, b"10,20").unwrap());
    assert_ne!(set, parse_field(FieldKind::Minute, b"10,20,31").unwrap());
}

#[test]
fn typed_parsers_read_their_field() {
    assert_eq!(Minute::from_expr("59").unwrap().as_slice(), &[59]);
    assert_eq!(Minute::from_expr("60").unwrap_err(), InvalidExpr::InvalidEntryRange);
    assert_eq!(Hour::from_expr("23").unwrap().as_slice(), &[23]);
    assert_eq!(Hour::from_expr("24").unwrap_err(), InvalidExpr::InvalidEntryRange);
    assert_eq!(DayOfMonth::from_expr("31").unwrap().as_slice(), &[31]);
    assert_eq!(DayOfMonth::from_expr("0").unwrap_err(), InvalidExpr::InvalidEntryRange);
    assert_eq!(Month::from_expr("DEC").unwrap().as_slice(), &[12]);
    assert_eq!(Month::from_expr("SUN").unwrap_err(), InvalidExpr::InvalidEntryValue);
    assert_eq!(Day::from_expr("SAT").unwrap().as_slice(), &[6]);
    assert_eq!(Day::from_expr("7").unwrap_err(), InvalidExpr::InvalidEntryRange);
    assert_eq!(Minute::from_expr("*").unwrap().kind(), FieldKind::Minute);
    assert_eq!(Day::from_expr("*").unwrap().kind(), FieldKind::DayOfWeek);
}

#[test]
fn values_from_numbers() {
    assert_eq!(Minute::from_num(0).map(|v| v.value()), Some(0));
    assert_eq!(Minute::from_num(59).map(|v| v.value()), Some(59));
    assert_eq!(Minute::from_num(60), None);
    assert_eq!(Hour::from_num(23).map(|v| v.value()), Some(23));
    assert_eq!(Hour::from_num(24), None);
    assert_eq!(DayOfMonth::from_num(0), None);
    assert_eq!(DayOfMonth::from_num(1).map(|v| v.value()), Some(1));
    assert_eq!(DayOfMonth::from_num(31).map(|v| v.value()), Some(31));
    assert_eq!(DayOfMonth::from_num(32), None);
    assert_eq!(Day::from_num(0), Some(Day::Sunday));
    assert_eq!(Day::from_num(6), Some(Day::Saturday));
    assert_eq!(Day::from_num(7), None);
    assert_eq!(Month::from_num(0), None);
    assert_eq!(Month::from_num(1), Some(Month::January));
    assert_eq!(Month::from_num(12), Some(Month::December));
    assert_eq!(Month::from_num(13), None);
    for v in 0..=6 {
        assert_eq!(Day::from_num(v).unwrap().value(), v);
    }
    for v in 1..=12 {
        assert_eq!(Month::from_num(v).unwrap().value(), v);
    }
    assert!(Minute::from_num(1).unwrap() < Minute::from_num(2).unwrap());
    assert!(Day::Sunday < Day::Saturday);
    assert!(Month::January < Month::December);
}

#[test]
fn values_and_their_names() {
    let months =
        ["JAN", "FEB", "MAR", "APR", "MAY", "JUN", "JUL", "AUG", "SEP", "OCT", "NOV", "DEC"];
    for (i, name) in months.iter().enumerate() {
        let month = Month::from_num(i as u8 + 1).unwrap();
        assert_eq!(month.to_textual_repr(), *name);
        assert_eq!(Month::from_bytes(name.as_bytes()), Some(month));
        assert_eq!(Month::from_bytes(name.to_lowercase().as_bytes()), Some(month));
        assert_eq!(Month::from_textual_repr(name.as_bytes()), Some(month));
        assert_eq!(Month::from_bytes((i + 1).to_string().as_bytes()), Some(month));
    }
    let days = ["SUN", "MON", "TUE", "WED", "THU", "FRI", "SAT"];
    for (i, name) in days.iter().enumerate() {
        let day = Day::from_num(i as u8).unwrap();
        assert_eq!(day.to_textual_repr(), *name);
        assert_eq!(Day::from_bytes(name.as_bytes()), Some(day));
        assert_eq!(Day::from_bytes(name.to_lowercase().as_bytes()), Some(day));
        assert_eq!(Day::from_textual_repr(name.as_bytes()), Some(day));
        assert_eq!(Day::from_bytes(i.to_string().as_bytes()), Some(day));
    }
}

#[test]
fn values_from_bytes_at_the_edges() {
    assert_eq!(Month::from_bytes(b""), None);
    assert_eq!(Month::from_bytes(b"0"), None);
    assert_eq!(Month::from_bytes(b"01"), None);
    assert_eq!(Month::from_bytes(b"13"), None);
    assert_eq!(Month::from_bytes(b"1x"), None);
    assert_eq!(Month::from_bytes(b"012"), None);
    assert_eq!(Month::from_bytes(b"JANU"), None);
    assert_eq!(Month::from_bytes(b"SUN"), None);
    assert_eq!(Month::from_textual_repr(b"JANUARY"), Some(Month::January));
    assert_eq!(Day::from_bytes(b""), None);
    assert_eq!(Day::from_bytes(b"7"), None);
    assert_eq!(Day::from_bytes(b"/"), None);
    assert_eq!(Day::from_bytes(b"00"), None);
    assert_eq!(Day::from_bytes(b"JAN"), None);
    assert_eq!(Day::from_bytes(b"SUND"), None);
    assert_eq!(Day::from_textual_repr(b"sunday"), Some(Day::Sunday));
}

#[test]
fn expression_needs_five_fields() {
    assert_eq!(CronSchedule::parse_str("").unwrap_err(), ParseError::Incomplete);
    assert_eq!(CronSchedule::parse_str("   ").unwrap_err(), ParseError::Incomplete);
    assert_eq!(CronSchedule::parse_str("*").unwrap_err(), ParseError::Incomplete);
    assert_eq!(CronSchedule::parse_str("* * * *").unwrap_err(), ParseError::Incomplete);
    assert_eq!(CronSchedule::parse_str("* * * * * *").unwrap_err(), ParseError::Unsupported);
    assert_eq!(CronSchedule::parse_str("* * * * * 2019").unwrap_err(), ParseError::Unsupported);
    assert!(CronSchedule::parse_str("* * * * *").is_ok());
}

#[test]
fn faulty_field_is_named() {
    let cases = [
        ("x * * * *", "Minute", InvalidExpr::InvalidEntryValue),
        ("* 24 * * *", "Hour", InvalidExpr::InvalidEntryRange),
        ("* * 5-1 * *", "Day of Month", InvalidExpr::InvalidRangeRev),
        ("* * * */0 *", "Month", InvalidExpr::InvalidStepRange),
        ("* * * * *,1", "Day of Week", InvalidExpr::InvalidWildCard),
        ("* * * * a-b", "Day of Week", InvalidExpr::InvalidRange),
        ("*/x * * * *", "Minute", InvalidExpr::InvalidStepValue),
    ];
    for (text, name, cause) in cases {
        assert_eq!(
            CronSchedule::parse_str(text).unwrap_err(),
            ParseError::InvalidExpr(name, cause)
        );
    }
}

#[test]
fn first_fault_in_field_order_decides() {
    assert_eq!(
        CronSchedule::parse_str("x").unwrap_err(),
        ParseError::InvalidExpr("Minute", InvalidExpr::InvalidEntryValue)
    );
    assert_eq!(
        CronSchedule::parse_str("* 99 x").unwrap_err(),
        ParseError::InvalidExpr("Hour", InvalidExpr::InvalidEntryRange)
    );
    assert_eq!(CronSchedule::parse_str("* * * * * x").unwrap_err(), ParseError::Unsupported);
    assert_eq!(
        CronSchedule::parse_str("* * * * x y").unwrap_err(),
        ParseError::InvalidExpr("Day of Week", InvalidExpr::InvalidEntryValue)
    );
}

#[test]
fn white_space_of_any_kind_separates_fields() {
    let plain = CronSchedule::parse_str("1 2 3 4 5").unwrap();
    let texts = [
        "  1 2 3 4 5  ",
        "1\t2\n3\r4\x0b5\x0c",
        "1  2   3    4     5",
        "\u{a0}1\u{85}2\u{1680}3\u{2000}4\u{200a}5\u{3000}",
        "1\u{2028}2\u{2029}3\u{202f}4\u{205f}5",
    ];
    for text in texts {
        assert_eq!(CronSchedule::parse_str(text).unwrap(), plain);
    }
    assert_eq!(
        CronSchedule::parse_str("1\u{200b}2 3 4 5 6").unwrap_err(),
        ParseError::InvalidExpr("Minute", InvalidExpr::InvalidEntryValue)
    );
}

#[test]
fn named_expressions() {
    let yearly = CronSchedule::parse_str(cronchik::YEARLY).unwrap();
    assert_eq!(yearly.minutes(), &[0]);
    assert_eq!(yearly.hours(), &[0]);
    assert_eq!(yearly.days_of_month(), &[1]);
    assert_eq!(yearly.months(), &[1]);
    assert_eq!(yearly.days_of_week(), &[0, 1, 2, 3, 4, 5, 6]);
    let monthly = CronSchedule::parse_str(cronchik::MONTHLY).unwrap();
    assert_eq!(monthly.days_of_month(), &[1]);
    assert_eq!(monthly.months().len(), 12);
    let weekly = CronSchedule::parse_str(cronchik::WEEKLY).unwrap();
    assert_eq!(weekly.days_of_week(), &[0]);
    assert_eq!(weekly.days_of_month().len(), 31);
    let daily = CronSchedule::parse_str(cronchik::DAILY).unwrap();
    assert_eq!(daily.hours(), &[0]);
    assert_eq!(daily.days_of_week().len(), 7);
    let hourly = CronSchedule::parse_str(cronchik::HOURLY).unwrap();
    assert_eq!(hourly.minutes(), &[0]);
    assert_eq!(hourly.hours().len(), 24);
    assert_eq!(cronchik::YEARLY, "0 0 1 1 *");
    assert_eq!(cronchik::MONTHLY, "0 0 1 * *");
    assert_eq!(cronchik::WEEKLY, "0 0 * * 0");
    assert_eq!(cronchik::DAILY, "0 0 * * *");
    assert_eq!(cronchik::HOURLY, "0 * * * *");
}

#[test]
fn schedule_gives_its_fields() {
    let schedule = CronSchedule::parse_str("1,2 3-5 */10 JAN,DEC SUN").unwrap();
    assert_eq!(schedule.minutes(), &[1, 2]);
    assert_eq!(schedule.hours(), &[3, 4, 5]);
    assert_eq!(schedule.days_of_month(), &[1, 11, 21, 31]);
    assert_eq!(schedule.months(), &[1, 12]);
    assert_eq!(schedule.days_of_week(), &[0]);
    assert_eq!(schedule.field(FieldKind::Hour).as_slice(), schedule.hours());
    assert_eq!(schedule.field(FieldKind::Month).kind(), FieldKind::Month);
    assert_eq!(schedule.clone(), schedule);
    assert_ne!(schedule, CronSchedule::parse_str("1,2 3-5 */10 JAN,DEC MON").unwrap());
}
