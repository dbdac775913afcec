use cronchik::format::digit_str;
use cronchik::format::value_name;
use cronchik::format::write_field;
use cronchik::format::write_value;
use cronchik::field::is_wildcard;
use cronchik::field::parse_field;
use cronchik::field::read_value;
use cronchik::error::InvalidExpr;
use cronchik::kind::FieldKind;
use cronchik::text::find_byte;
use cronchik::text::parse_number;
use cronchik::text::space_at;
use cronchik::text::split_once;
use cronchik::text::take_word;
use cronchik::text::upper_byte;
use cronchik::CronSchedule;

fn written(text: &str) -> String {
    CronSchedule::parse_str(text).unwrap().to_text()
}

fn field_written(kind: FieldKind, text: &str) -> String {
    let mut out = String::new();
    write_field(&mut out, &parse_field(kind, text.as_bytes()).unwrap());
    out
}

#[test]
fn full_field_is_written_as_wildcard() {
    assert_eq!(written("* * * * *"), "* * * * *");
    assert_eq!(written("0-59 0-23 1-31 1-12 0-6"), "* * * * *");
    assert_eq!(written("*/1 0/1 1/1 JAN-DEC SUN-SAT"), "* * * * *");
}

#[test]
fn neighbours_are_written_as_ranges() {
    assert_eq!(field_written(FieldKind::Minute, "1,2,3,5"), "1-3,5");
    assert_eq!(field_written(FieldKind::Minute, "1,2"), "1-2");
    assert_eq!(field_written(FieldKind::Minute, "1,3,5"), "1,3,5");
    assert_eq!(field_written(FieldKind::Minute, "7"), "7");
    assert_eq!(field_written(FieldKind::Minute, "0-58"), "0-58");
    assert_eq!(field_written(FieldKind::Minute, "1-59"), "1-59");
    assert_eq!(field_written(FieldKind::Hour, "0,1,2,10,11,23,22"), "0-2,10-11,22-23");
    assert_eq!(field_written(FieldKind::DayOfMonth, "31,1,15,16"), "1,15-16,31");
    assert_eq!(field_written(FieldKind::Minute, "9,10,11,20"), "9-11,20");
}

#[test]
fn named_values_are_written_by_name() {
    assert_eq!(field_written(FieldKind::Month, "1"), "JAN");
    assert_eq!(field_written(FieldKind::Month, "3-5,12"), "MAR-MAY,DEC");
    assert_eq!(field_written(FieldKind::Month, "2-12"), "FEB-DEC");
    assert_eq!(field_written(FieldKind::DayOfWeek, "0,6"), "SUN,SAT");
    assert_eq!(field_written(FieldKind::DayOfWeek, "1-5"), "MON-FRI");
    assert_eq!(field_written(FieldKind::DayOfWeek, "0-5"), "SUN-FRI");
}

#[test]
fn schedule_is_written_with_single_spaces() {
    assert_eq!(written("  5   */5\t10/2 MAR-MAY   * "), "5 0,5,10,15,20 10,12,14,16,18,20,22,24,26,28,30 MAR-MAY *");
    assert_eq!(written("0 0 1 1 0"), "0 0 1 JAN SUN");
    assert_eq!(written("0,1,2,3,4,5 * * * 1,2,3,4,5"), "0-5 * * * MON-FRI");
}

#[test]
fn written_schedule_reads_back() {
    let texts = [
        "* * * * *",
        "0 0 1 1 0",
        "1,3,5-9,59 */7 1,15,31 feb,APR-jun 1-5",
        "0-58 1-23 2-31 2-12 1-6",
        "30/7 5/5 29 2 SAT",
        "59 23 31 12 6",
        "0 0 1-30 JAN-NOV SUN-FRI",
    ];
    for text in texts {
        let schedule = CronSchedule::parse_str(text).unwrap();
        let once = schedule.to_text();
        let again = CronSchedule::parse_str(&once).unwrap();
        assert_eq!(again, schedule);
        assert_eq!(again.to_text(), once);
        assert!(once.is_ascii());
    }
}

#[test]
fn every_single_value_reads_back() {
    let kinds = [
        FieldKind::Minute,
        FieldKind::Hour,
        FieldKind::DayOfMonth,
        FieldKind::Month,
        FieldKind::DayOfWeek,
    ];
    for kind in kinds {
        for v in kind.min()..=kind.max() {
            let mut out = String::new();
            write_value(&mut out, kind, v);
            assert_eq!(read_value(kind, out.as_bytes()), Ok(v));
            let set = parse_field(kind, out.as_bytes()).unwrap();
            assert_eq!(field_written(kind, &out), out);
            assert_eq!(set.as_slice(), &[v]);
        }
    }
}

#[test]
fn values_are_written_in_decimal_or_by_name() {
    let mut out = String::new();
    write_value(&mut out, FieldKind::Minute, 0);
    out.push('|');
    write_value(&mut out, FieldKind::Minute, 9);
    out.push('|');
    write_value(&mut out, FieldKind::Minute, 10);
    out.push('|');
    write_value(&mut out, FieldKind::Minute, 59);
    out.push('|');
    write_value(&mut out, FieldKind::Month, 9);
    out.push('|');
    write_value(&mut out, FieldKind::DayOfWeek, 3);
    assert_eq!(out, "0|9|10|59|SEP|WED");
    for d in 0..=9u8 {
        assert_eq!(digit_str(d), d.to_string());
    }
    assert_eq!(value_name(FieldKind::Month, 12), "DEC");
    assert_eq!(value_name(FieldKind::DayOfWeek, 0), "SUN");
}

#[test]
fn tokens_are_numbers_or_names() {
    assert_eq!(read_value(FieldKind::Minute, b"59"), Ok(59));
    assert_eq!(read_value(FieldKind::Minute, b"60"), Err(InvalidExpr::InvalidEntryRange));
    assert_eq!(read_value(FieldKind::Minute, b""), Err(InvalidExpr::InvalidEntryValue));
    assert_eq!(read_value(FieldKind::Month, b"feb"), Ok(2));
    assert_eq!(read_value(FieldKind::Month, b"2"), Ok(2));
    assert_eq!(read_value(FieldKind::Month, b"fe"), Err(InvalidExpr::InvalidEntryValue));
    assert_eq!(read_value(FieldKind::DayOfWeek, b"*"), Err(InvalidExpr::InvalidEntryValue));
    assert!(is_wildcard(b"*"));
    assert!(!is_wildcard(b"**"));
    assert!(!is_wildcard(b""));
    assert!(!is_wildcard(b"1"));
}

#[test]
fn numbers_are_runs_of_digits() {
    assert_eq!(parse_number(b"0"), Some(0));
    assert_eq!(parse_number(b"42"), Some(42));
    assert_eq!(parse_number(b"0042"), Some(42));
    assert_eq!(parse_number(b"255"), Some(255));
    assert_eq!(parse_number(b"256"), Some(256));
    assert_eq!(parse_number(b"257"), Some(256));
    assert_eq!(parse_number(b"65536"), Some(256));
    assert_eq!(parse_number(b"99999999999999999999999999"), Some(256));
    assert_eq!(parse_number(b""), None);
    assert_eq!(parse_number(b"+1"), None);
    assert_eq!(parse_number(b"-1"), None);
    assert_eq!(parse_number(b"1a"), None);
    assert_eq!(parse_number(b" 1"), None);
    assert_eq!(parse_number(b"1_0"), None);
    assert_eq!(parse_number("١".as_bytes()), None);
}

#[test]
fn separators_are_found() {
    assert_eq!(find_byte(b"a,b,c", b','), 1);
    assert_eq!(find_byte(b"abc", b','), 3);
    assert_eq!(find_byte(b"", b','), 0);
    assert_eq!(find_byte(b",", b','), 0);
    assert_eq!(split_once(b"a/b", b'/'), Some((&b"a"[..], &b"b"[..])));
    assert_eq!(split_once(b"/", b'/'), Some((&b""[..], &b""[..])));
    assert_eq!(split_once(b"ab", b'/'), None);
    assert_eq!(split_once(b"a/b/c", b'/'), None);
    assert_eq!(split_once(b"", b'/'), None);
}

#[test]
fn letters_are_raised() {
    assert_eq!(upper_byte(b'a'), b'A');
    assert_eq!(upper_byte(b'z'), b'Z');
    assert_eq!(upper_byte(b'A'), b'A');
    assert_eq!(upper_byte(b'0'), b'0');
    assert_eq!(upper_byte(b'`'), b'`');
    assert_eq!(upper_byte(b'{'), b'{');
    for b in 0..=255u8 {
        assert_eq!(upper_byte(b), b.to_ascii_uppercase());
    }
}

#[test]
fn white_space_is_what_unicode_calls_so() {
    for c in '\0'..='\u{3100}' {
        let mut buffer = [0u8; 4];
        let bytes = c.encode_utf8(&mut buffer).as_bytes();
        let expected = if c.is_whitespace() { bytes.len() } else { 0 };
        assert_eq!(space_at(bytes, 0), expected, "{:?}", c);
    }
    assert_eq!(space_at(b"a b", 1), 1);
    assert_eq!(space_at(b"a b", 2), 0);
    assert_eq!(space_at(b"a b", 3), 0);
    assert_eq!(space_at(&[0xe2, 0x80], 0), 0);
    assert_eq!(space_at(&[0xc2], 0), 0);
}

#[test]
fn words_are_taken_one_by_one() {
    assert_eq!(take_word(b"  ab  cd "), Some((&b"ab"[..], &b"  cd "[..])));
    assert_eq!(take_word(b"  cd "), Some((&b"cd"[..], &b" "[..])));
    assert_eq!(take_word(b" "), None);
    assert_eq!(take_word(b""), None);
    assert_eq!(take_word(b"x"), Some((&b"x"[..], &b""[..])));
    let text = "a\u{3000}b".as_bytes();
    assert_eq!(take_word(text), Some((&b"a"[..], &text[1..])));
}
