//! The values of the five fields, each a number within its field's bounds.
use vstd::prelude::*;
use vstd::slice::slice_subrange;
use vstd::string::StringSliceAdditionalSpecFns;
use crate::error::InvalidExpr;
use crate::field::field_listing;
use crate::field::parse_field;
use crate::format::as_chars;
use crate::format::digits_of;
use crate::format::value_name;
use crate::kind::month_abbrev;
use crate::kind::weekday_abbrev;
use crate::kind::FieldKind;
use crate::store::FieldSet;
use crate::text::number_of;
use crate::text::parse_number;

verus! {

/// Whether `r` is what parsing `text` as a field of kind `kind` yields.
pub open spec fn parses_as(r: Result<FieldSet, InvalidExpr>, kind: FieldKind, text: Seq<u8>) -> bool {
    match field_listing(kind, text) {
        Ok(values) => r matches Ok(set) && set@ == values && set.spec_kind() == kind && set.wf(),
        Err(e) => r matches Err(x) && x == e,
    }
}

/// Day of the month, `1..=31`.
#[derive(Debug, Clone, Copy, PartialEq, Eq, PartialOrd, Ord)]
pub struct DayOfMonth(u8);

impl DayOfMonth {
    /// Smallest value.
    pub const MIN: u8 = 1;

    /// Greatest value.
    pub const MAX: u8 = 31;

    /// Name of the field in errors.
    pub const NAME: &'static str = "Day of Month";

    #[verifier::type_invariant]
    spec fn inv(self) -> bool {
        1 <= self.0 <= 31
    }

    /// The number.
    pub closed spec fn view(self) -> u8 {
        self.0
    }

    /// The value with the given number, where the field has one.
    pub fn from_num(num: u8) -> (r: Option<Self>)
        ensures
            match r {
                Some(v) => v@ == num && 1 <= num <= 31,
                None => !(1 <= num <= 31),
            },
    {
        if 1 <= num && num <= 31 {
            Some(Self(num))
        } else {
            None
        }
    }

    /// The number.
    pub fn value(self) -> (r: u8)
        ensures
            r == self@,
            1 <= r <= 31,
    {
        proof {
            use_type_invariant(self);
        }
        self.0
    }

    /// Parses the day-of-month field of an expression.
    pub fn from_expr(text: &str) -> (r: Result<FieldSet, InvalidExpr>)
        ensures
            parses_as(r, FieldKind::DayOfMonth, text.spec_bytes()),
    {
        parse_field(FieldKind::DayOfMonth, text.as_bytes())
    }
}

/// Minute of the hour, `0..=59`.
#[derive(Debug, Clone, Copy, PartialEq, Eq, PartialOrd, Ord)]
pub struct Minute(u8);

impl Minute {
    /// Smallest value.
    pub const MIN: u8 = 0;

    /// Greatest value.
    pub const MAX: u8 = 59;

    /// Name of the field in errors.
    pub const NAME: &'static str = "Minute";

    #[verifier::type_invariant]
    spec fn inv(self) -> bool {
        self.0 <= 59
    }

    /// The number.
    pub closed spec fn view(self) -> u8 {
        self.0
    }

    /// The value with the given number, where the field has one.
    pub fn from_num(num: u8) -> (r: Option<Self>)
        ensures
            match r {
                Some(v) => v@ == num && num <= 59,
                None => num > 59,
            },
    {
        if num <= 59 {
            Some(Self(num))
        } else {
            None
        }
    }

    /// The number.
    pub fn value(self) -> (r: u8)
        ensures
            r == self@,
            r <= 59,
    {
        proof {
            use_type_invariant(self);
        }
        self.0
    }

    /// Parses the minute field of an expression.
    pub fn from_expr(text: &str) -> (r: Result<FieldSet, InvalidExpr>)
        ensures
            parses_as(r, FieldKind::Minute, text.spec_bytes()),
    {
        parse_field(FieldKind::Minute, text.as_bytes())
    }
}

/// Hour of the day, `0..=23`.
#[derive(Debug, Clone, Copy, PartialEq, Eq, PartialOrd, Ord)]
pub struct Hour(u8);

impl Hour {
    /// Smallest value.
    pub const MIN: u8 = 0;

    /// Greatest value.
    pub const MAX: u8 = 23;

    /// Name of the field in errors.
    pub const NAME: &'static str = "Hour";

    #[verifier::type_invariant]
    spec fn inv(self) -> bool {
        self.0 <= 23
    }

    /// The number.
    pub closed spec fn view(self) -> u8 {
        self.0
    }

    /// The value with the given number, where the field has one.
    pub fn from_num(num: u8) -> (r: Option<Self>)
        ensures
            match r {
                Some(v) => v@ == num && num <= 23,
                None => num > 23,
            },
    {
        if num <= 23 {
            Some(Self(num))
        } else {
            None
        }
    }

    /// The number.
    pub fn value(self) -> (r: u8)
        ensures
            r == self@,
            r <= 23,
    {
        proof {
            use_type_invariant(self);
        }
        self.0
    }

    /// Parses the hour field of an expression.
    pub fn from_expr(text: &str) -> (r: Result<FieldSet, InvalidExpr>)
        ensures
            parses_as(r, FieldKind::Hour, text.spec_bytes()),
    {
        parse_field(FieldKind::Hour, text.as_bytes())
    }
}

/// Day of the week, `0..=6` or `SUN..=SAT`.
#[derive(Debug, Clone, Copy, PartialEq, Eq, PartialOrd, Ord)]
pub enum Day {
    Sunday,
    Monday,
    Tuesday,
    Wednesday,
    Thursday,
    Friday,
    Saturday,
}

/// The day of the week with number `v`, counted from Sunday as 0.
pub open spec fn day_numbered(v: int) -> Day {
    if v == 0 {
        Day::Sunday
    } else if v == 1 {
        Day::Monday
    } else if v == 2 {
        Day::Tuesday
    } else if v == 3 {
        Day::Wednesday
    } else if v == 4 {
        Day::Thursday
    } else if v == 5 {
        Day::Friday
    } else {
        Day::Saturday
    }
}

/// The day of the week that a one-digit number or a three-letter name
/// stands for.
pub open spec fn day_written(text: Seq<u8>) -> Option<Day> {
    if text.len() == 1 {
        if 0x30 <= text[0] <= 0x36 {
            Some(day_numbered(text[0] - 0x30))
        } else {
            None
        }
    } else {
        match FieldKind::DayOfWeek.named_value(text) {
            Some(v) => Some(day_numbered(v as int)),
            None => None,
        }
    }
}

impl Day {
    /// Smallest value.
    pub const MIN: u8 = 0;

    /// Greatest value.
    pub const MAX: u8 = 6;

    /// Name of the field in errors.
    pub const NAME: &'static str = "Day of Week";

    /// The number, counted from Sunday as 0.
    pub open spec fn view(self) -> u8 {
        match self {
            Day::Sunday => 0,
            Day::Monday => 1,
            Day::Tuesday => 2,
            Day::Wednesday => 3,
            Day::Thursday => 4,
            Day::Friday => 5,
            Day::Saturday => 6,
        }
    }

    /// The day with the given number, where there is one.
    pub fn from_num(num: u8) -> (r: Option<Self>)
        ensures
            r == if num <= 6 {
                Some(day_numbered(num as int))
            } else {
                None
            },
            r matches Some(d) ==> d@ == num,
    {
        match num {
            0 => Some(Self::Sunday),
            1 => Some(Self::Monday),
            2 => Some(Self::Tuesday),
            3 => Some(Self::Wednesday),
            4 => Some(Self::Thursday),
            5 => Some(Self::Friday),
            6 => Some(Self::Saturday),
            _ => None,
        }
    }

    /// The number, counted from Sunday as 0.
    pub fn value(self) -> (r: u8)
        ensures
            r == self@,
            r <= 6,
    {
        match self {
            Day::Sunday => 0,
            Day::Monday => 1,
            Day::Tuesday => 2,
            Day::Wednesday => 3,
            Day::Thursday => 4,
            Day::Friday => 5,
            Day::Saturday => 6,
        }
    }

    /// The three-letter name.
    pub fn to_textual_repr(self) -> (r: &'static str)
        ensures
            r@ == as_chars(weekday_abbrev(self@ as int)),
    {
        value_name(FieldKind::DayOfWeek, self.value())
    }

    /// The day whose name the first three bytes of `text` spell, letter
    /// case aside.
    pub fn from_textual_repr(text: &[u8]) -> (r: Option<Self>)
        requires
            text@.len() >= 3,
        ensures
            r == match FieldKind::DayOfWeek.named_value(text@.take(3)) {
                Some(v) => Some(day_numbered(v as int)),
                None => None,
            },
    {
        match FieldKind::DayOfWeek.value_named(slice_subrange(text, 0, 3)) {
            Some(v) => Self::from_num(v),
            None => None,
        }
    }

    /// The day that a one-digit number or a three-letter name stands for,
    /// letter case aside.
    pub fn from_bytes(text: &[u8]) -> (r: Option<Self>)
        ensures
            r == day_written(text@),
    {
        if text.len() == 1 {
            let b = text[0];
            if b >= 0x30 {
                Self::from_num(b - 0x30)
            } else {
                None
            }
        } else {
            match FieldKind::DayOfWeek.value_named(text) {
                Some(v) => Self::from_num(v),
                None => None,
            }
        }
    }

    /// Parses the day-of-week field of an expression.
    pub fn from_expr(text: &str) -> (r: Result<FieldSet, InvalidExpr>)
        ensures
            parses_as(r, FieldKind::DayOfWeek, text.spec_bytes()),
    {
        parse_field(FieldKind::DayOfWeek, text.as_bytes())
    }
}

/// Month of the year, `1..=12` or `JAN..=DEC`.
#[derive(Debug, Clone, Copy, PartialEq, Eq, PartialOrd, Ord)]
pub enum Month {
    January,
    February,
    March,
    April,
    May,
    June,
    July,
    August,
    September,
    October,
    November,
    December,
}

/// The month with number `v`.
pub open spec fn month_numbered(v: int) -> Month {
    if v == 1 {
        Month::January
    } else if v == 2 {
        Month::February
    } else if v == 3 {
        Month::March
    } else if v == 4 {
        Month::April
    } else if v == 5 {
        Month::May
    } else if v == 6 {
        Month::June
    } else if v == 7 {
        Month::July
    } else if v == 8 {
        Month::August
    } else if v == 9 {
        Month::September
    } else if v == 10 {
        Month::October
    } else if v == 11 {
        Month::November
    } else {
        Month::December
    }
}

/// The month that a number without leading zero or a three-letter name
/// stands for.
pub open spec fn month_written(text: Seq<u8>) -> Option<Month> {
    if text.len() < 3 {
        match number_of(text) {
            Some(n) => if 1 <= n <= 12 && text == digits_of(n as int) {
                Some(month_numbered(n as int))
            } else {
                None
            },
            None => None,
        }
    } else {
        match FieldKind::Month.named_value(text) {
            Some(v) => Some(month_numbered(v as int)),
            None => None,
        }
    }
}

impl Month {
    /// Smallest value.
    pub const MIN: u8 = 1;

    /// Greatest value.
    pub const MAX: u8 = 12;

    /// Name of the field in errors.
    pub const NAME: &'static str = "Month";

    /// The number, from 1 for January.
    pub open spec fn view(self) -> u8 {
        match self {
            Month::January => 1,
            Month::February => 2,
            Month::March => 3,
            Month::April => 4,
            Month::May => 5,
            Month::June => 6,
            Month::July => 7,
            Month::August => 8,
            Month::September => 9,
            Month::October => 10,
            Month::November => 11,
            Month::December => 12,
        }
    }

    /// The month with the given number, where there is one.
    pub fn from_num(num: u8) -> (r: Option<Self>)
        ensures
            r == if 1 <= num <= 12 {
                Some(month_numbered(num as int))
            } else {
                None
            },
            r matches Some(m) ==> m@ == num,
    {
        match num {
            1 => Some(Self::January),
            2 => Some(Self::February),
            3 => Some(Self::March),
            4 => Some(Self::April),
            5 => Some(Self::May),
            6 => Some(Self::June),
            7 => Some(Self::July),
            8 => Some(Self::August),
            9 => Some(Self::September),
            10 => Some(Self::October),
            11 => Some(Self::November),
            12 => Some(Self::December),
            _ => None,
        }
    }

    /// The number, from 1 for January.
    pub fn value(self) -> (r: u8)
        ensures
            r == self@,
            1 <= r <= 12,
    {
        match self {
            Month::January => 1,
            Month::February => 2,
            Month::March => 3,
            Month::April => 4,
            Month::May => 5,
            Month::June => 6,
            Month::July => 7,
            Month::August => 8,
            Month::September => 9,
            Month::October => 10,
            Month::November => 11,
            Month::December => 12,
        }
    }

    /// The three-letter name.
    pub fn to_textual_repr(self) -> (r: &'static str)
        ensures
            r@ == as_chars(month_abbrev(self@ as int)),
    {
        value_name(FieldKind::Month, self.value())
    }

    /// The month whose name the first three bytes of `text` spell, letter
    /// case aside.
    pub fn from_textual_repr(text: &[u8]) -> (r: Option<Self>)
        requires
            text@.len() >= 3,
        ensures
            r == match FieldKind::Month.named_value(text@.take(3)) {
                Some(v) => Some(month_numbered(v as int)),
                None => None,
            },
    {
        match FieldKind::Month.value_named(slice_subrange(text, 0, 3)) {
            Some(v) => Self::from_num(v),
            None => None,
        }
    }

    /// The month that a number without leading zero or a three-letter name
    /// stands for, letter case aside.
    pub fn from_bytes(text: &[u8]) -> (r: Option<Self>)
        ensures
            r == month_written(text@),
    {
        if text.len() < 3 {
            match parse_number(text) {
                Some(n) => {
                    if 1 <= n && n <= 12 && (text.len() == 1) == (n < 10) {
                        proof {
                            lemma_plain_digits(text@);
                        }
                        Self::from_num(n as u8)
                    } else {
                        proof {
                            lemma_plain_digits(text@);
                        }
                        None
                    }
                },
                None => None,
            }
        } else {
            match FieldKind::Month.value_named(text) {
                Some(v) => Self::from_num(v),
                None => None,
            }
        }
    }

    /// Parses the month field of an expression.
    pub fn from_expr(text: &str) -> (r: Result<FieldSet, InvalidExpr>)
        ensures
            parses_as(r, FieldKind::Month, text.spec_bytes()),
    {
        parse_field(FieldKind::Month, text.as_bytes())
    }
}

/// A number of one or two digits is written without leading zero just when
/// it has one digit and is below ten, or two digits and is not.
pub proof fn lemma_plain_digits(text: Seq<u8>)
    requires
        text.len() < 3,
        number_of(text) is Some,
    ensures
        ({
            let n = number_of(text).unwrap();
            n < 100 && (text == digits_of(n as int) <==> ((text.len() == 1) == (n < 10)))
        }),
{
    let n = number_of(text).unwrap();
    reveal_with_fuel(crate::text::digits_value, 3);
    if text.len() == 1 {
        assert(text.drop_last().len() == 0);
        assert(text =~= seq![text[0]]);
        assert(n == text[0] - 0x30);
        assert(digits_of(n as int) =~= seq![text[0]]);
    } else {
        assert(text.drop_last() =~= seq![text[0]]);
        assert(text.drop_last().drop_last().len() == 0);
        assert(n == (text[0] - 0x30) * 10 + (text[1] - 0x30));
        if n >= 10 {
            assert(digits_of(n as int) =~= text);
        } else {
            assert(digits_of(n as int).len() == 1);
        }
    }
}

} // verus!
