//! A schedule: the five field sets of a cron expression.
use vstd::prelude::*;
use vstd::string::StringExecFns;
use vstd::string::StringSliceAdditionalSpecFns;
use vstd::utf8::encode_utf8;
use crate::error::InvalidExpr;
use crate::error::ParseError;
use crate::field::field_listing;
use crate::field::parse_field;
use crate::format::as_chars;
use crate::format::lemma_as_chars_add;
use crate::format::schedule_text;
use crate::format::write_field;
use crate::format::SPACE;
use crate::kind::FieldKind;
use crate::roundtrip::lemma_schedule_ascii;
use crate::roundtrip::lemma_schedule_round;
use crate::store::is_field_listing;
use crate::store::FieldSet;
use crate::text::next_word;
use crate::text::take_word;

verus! {

/// What a schedule allows: for each field its values in ascending order.
pub struct Fields {
    pub minutes: Seq<u8>,
    pub hours: Seq<u8>,
    pub days_of_month: Seq<u8>,
    pub months: Seq<u8>,
    pub days_of_week: Seq<u8>,
}

impl Fields {
    /// Whether each field holds a listing of values of its kind.
    pub open spec fn wf(self) -> bool {
        &&& is_field_listing(FieldKind::Minute, self.minutes)
        &&& is_field_listing(FieldKind::Hour, self.hours)
        &&& is_field_listing(FieldKind::DayOfMonth, self.days_of_month)
        &&& is_field_listing(FieldKind::Month, self.months)
        &&& is_field_listing(FieldKind::DayOfWeek, self.days_of_week)
    }

    /// The values of the field of kind `kind`.
    pub open spec fn of(self, kind: FieldKind) -> Seq<u8> {
        match kind {
            FieldKind::Minute => self.minutes,
            FieldKind::Hour => self.hours,
            FieldKind::DayOfMonth => self.days_of_month,
            FieldKind::Month => self.months,
            FieldKind::DayOfWeek => self.days_of_week,
        }
    }
}

/// Why an expression is rejected.
pub enum Fault {
    /// A field does not follow the grammar.
    Field(FieldKind, InvalidExpr),
    /// There are fewer than five fields.
    Incomplete,
    /// There are more than five fields.
    Unsupported,
}

/// Whether an error reports the given fault: a faulty field is reported by
/// the field's name and by what is wrong with it.
pub open spec fn reports(e: ParseError, fault: Fault) -> bool {
    match fault {
        Fault::Field(kind, cause) => e matches ParseError::InvalidExpr(name, c) && name@
            == kind.spec_name() && c == cause,
        Fault::Incomplete => e is Incomplete,
        Fault::Unsupported => e is Unsupported,
    }
}

/// The values of the field that `text` starts with, and the text after
/// that field.
pub open spec fn leading_field(kind: FieldKind, text: Seq<u8>) -> Result<
    (Seq<u8>, Seq<u8>),
    Fault,
> {
    match next_word(text) {
        None => Err(Fault::Incomplete),
        Some((word, rest)) => match field_listing(kind, word) {
            Ok(values) => Ok((values, rest)),
            Err(cause) => Err(Fault::Field(kind, cause)),
        },
    }
}

/// What an expression means: five fields set apart by white space, read in
/// the order minute, hour, day of the month, month, day of the week. The
/// first field that is missing or wrong decides the fault; a sixth field
/// is one only after five good ones.
pub open spec fn parsed_schedule(text: Seq<u8>) -> Result<Fields, Fault> {
    match leading_field(FieldKind::Minute, text) {
        Err(f) => Err(f),
        Ok((minutes, t1)) => match leading_field(FieldKind::Hour, t1) {
            Err(f) => Err(f),
            Ok((hours, t2)) => match leading_field(FieldKind::DayOfMonth, t2) {
                Err(f) => Err(f),
                Ok((days_of_month, t3)) => match leading_field(FieldKind::Month, t3) {
                    Err(f) => Err(f),
                    Ok((months, t4)) => match leading_field(FieldKind::DayOfWeek, t4) {
                        Err(f) => Err(f),
                        Ok((days_of_week, t5)) => if next_word(t5) is Some {
                            Err(Fault::Unsupported)
                        } else {
                            Ok(Fields { minutes, hours, days_of_month, months, days_of_week })
                        },
                    },
                },
            },
        },
    }
}

/// Parses the field that `text` starts with.
fn take_field(kind: FieldKind, text: &[u8]) -> (r: Result<(FieldSet, &[u8]), ParseError>)
    ensures
        match leading_field(kind, text@) {
            Ok((values, rest)) => r matches Ok((set, t)) && set@ == values && set.spec_kind()
                == kind && set.wf() && t@ == rest,
            Err(fault) => r matches Err(e) && reports(e, fault),
        },
{
    match take_word(text) {
        None => Err(ParseError::Incomplete),
        Some((word, rest)) => match parse_field(kind, word) {
            Ok(set) => Ok((set, rest)),
            Err(cause) => Err(ParseError::InvalidExpr(kind.name(), cause)),
        },
    }
}

/// A parsed cron expression.
#[derive(Debug)]
pub struct CronSchedule {
    minute: FieldSet,
    hour: FieldSet,
    day_m: FieldSet,
    month: FieldSet,
    day_w: FieldSet,
}

impl View for CronSchedule {
    type V = Fields;

    /// What the schedule allows.
    closed spec fn view(&self) -> Fields {
        Fields {
            minutes: self.minute@,
            hours: self.hour@,
            days_of_month: self.day_m@,
            months: self.month@,
            days_of_week: self.day_w@,
        }
    }
}

impl CronSchedule {
    #[verifier::type_invariant]
    pub(crate) closed spec fn inv(&self) -> bool {
        &&& self.minute.spec_kind() == FieldKind::Minute
        &&& self.hour.spec_kind() == FieldKind::Hour
        &&& self.day_m.spec_kind() == FieldKind::DayOfMonth
        &&& self.month.spec_kind() == FieldKind::Month
        &&& self.day_w.spec_kind() == FieldKind::DayOfWeek
        &&& self.minute.wf()
        &&& self.hour.wf()
        &&& self.day_m.wf()
        &&& self.month.wf()
        &&& self.day_w.wf()
    }

    /// Every schedule holds five listings of the right kinds.
    pub(crate) proof fn lemma_inv(&self)
        requires
            self.inv(),
        ensures
            self@.wf(),
    {
    }

    /// Puts five field sets together.
    pub(crate) fn from_sets(
        minute: FieldSet,
        hour: FieldSet,
        day_m: FieldSet,
        month: FieldSet,
        day_w: FieldSet,
    ) -> (r: CronSchedule)
        requires
            minute.spec_kind() == FieldKind::Minute && minute.wf(),
            hour.spec_kind() == FieldKind::Hour && hour.wf(),
            day_m.spec_kind() == FieldKind::DayOfMonth && day_m.wf(),
            month.spec_kind() == FieldKind::Month && month.wf(),
            day_w.spec_kind() == FieldKind::DayOfWeek && day_w.wf(),
        ensures
            r@ == (Fields {
                minutes: minute@,
                hours: hour@,
                days_of_month: day_m@,
                months: month@,
                days_of_week: day_w@,
            }),
            r@.wf(),
    {
        CronSchedule { minute, hour, day_m, month, day_w }
    }

    /// Parses a cron expression.
    ///
    /// [`ParseError::InvalidCharAt`] is never returned, nor is
    /// [`InvalidExpr::ParserOverflow`] as the cause of a faulty field.
    pub fn parse_str(text: &str) -> (r: Result<CronSchedule, ParseError>)
        ensures
            match parsed_schedule(text.spec_bytes()) {
                Ok(fields) => r matches Ok(s) && s@ == fields && s@.wf(),
                Err(fault) => r matches Err(e) && reports(e, fault),
            },
    {
        let bytes = text.as_bytes();
        let (minute, rest) = match take_field(FieldKind::Minute, bytes) {
            Ok(found) => found,
            Err(e) => {
                return Err(e);
            },
        };
        let (hour, rest) = match take_field(FieldKind::Hour, rest) {
            Ok(found) => found,
            Err(e) => {
                return Err(e);
            },
        };
        let (day_m, rest) = match take_field(FieldKind::DayOfMonth, rest) {
            Ok(found) => found,
            Err(e) => {
                return Err(e);
            },
        };
        let (month, rest) = match take_field(FieldKind::Month, rest) {
            Ok(found) => found,
            Err(e) => {
                return Err(e);
            },
        };
        let (day_w, rest) = match take_field(FieldKind::DayOfWeek, rest) {
            Ok(found) => found,
            Err(e) => {
                return Err(e);
            },
        };
        if take_word(rest).is_some() {
            return Err(ParseError::Unsupported);
        }
        Ok(CronSchedule::from_sets(minute, hour, day_m, month, day_w))
    }

    /// The canonical text of the schedule. It is ASCII, and parsing it
    /// gives the schedule again.
    pub fn to_text(&self) -> (r: String)
        ensures
            r@ == as_chars(schedule_text(self@)),
            encode_utf8(r@) == schedule_text(self@),
            parsed_schedule(encode_utf8(r@)) == Ok::<Fields, Fault>(self@),
    {
        let mut out = String::new();
        proof {
            reveal_strlit(" ");
            assert(as_chars(seq![SPACE]) =~= " "@);
        }
        let ghost f = self@;
        let ghost a = crate::format::field_text(FieldKind::Minute, f.minutes);
        let ghost b = crate::format::field_text(FieldKind::Hour, f.hours);
        let ghost c = crate::format::field_text(FieldKind::DayOfMonth, f.days_of_month);
        let ghost d = crate::format::field_text(FieldKind::Month, f.months);
        let ghost e = crate::format::field_text(FieldKind::DayOfWeek, f.days_of_week);
        let ghost sp = seq![SPACE];
        write_field(&mut out, self.field(FieldKind::Minute));
        out.append(" ");
        write_field(&mut out, self.field(FieldKind::Hour));
        out.append(" ");
        write_field(&mut out, self.field(FieldKind::DayOfMonth));
        out.append(" ");
        write_field(&mut out, self.field(FieldKind::Month));
        out.append(" ");
        write_field(&mut out, self.field(FieldKind::DayOfWeek));
        proof {
            lemma_as_chars_add(a, sp);
            lemma_as_chars_add(a + sp, b);
            lemma_as_chars_add(a + sp + b, sp);
            lemma_as_chars_add(a + sp + b + sp, c);
            lemma_as_chars_add(a + sp + b + sp + c, sp);
            lemma_as_chars_add(a + sp + b + sp + c + sp, d);
            lemma_as_chars_add(a + sp + b + sp + c + sp + d, sp);
            lemma_as_chars_add(a + sp + b + sp + c + sp + d + sp, e);
            assert(out@ =~= as_chars(a) + as_chars(sp) + as_chars(b) + as_chars(sp) + as_chars(c)
                + as_chars(sp) + as_chars(d) + as_chars(sp) + as_chars(e));
            lemma_schedule_ascii(f);
            lemma_schedule_round(f);
        }
        out
    }

    /// The field set of kind `kind`.
    pub fn field(&self, kind: FieldKind) -> (r: &FieldSet)
        ensures
            r@ == self@.of(kind),
            r.spec_kind() == kind,
            r.wf(),
            self@.wf(),
    {
        proof {
            use_type_invariant(self);
        }
        match kind {
            FieldKind::Minute => &self.minute,
            FieldKind::Hour => &self.hour,
            FieldKind::DayOfMonth => &self.day_m,
            FieldKind::Month => &self.month,
            FieldKind::DayOfWeek => &self.day_w,
        }
    }

    /// The days of the month to run at, ascending.
    pub fn days_of_month(&self) -> (r: &[u8])
        ensures
            r@ == self@.days_of_month,
            self@.wf(),
    {
        self.field(FieldKind::DayOfMonth).as_slice()
    }

    /// The minutes to run at, ascending.
    pub fn minutes(&self) -> (r: &[u8])
        ensures
            r@ == self@.minutes,
            self@.wf(),
    {
        self.field(FieldKind::Minute).as_slice()
    }

    /// The hours to run at, ascending.
    pub fn hours(&self) -> (r: &[u8])
        ensures
            r@ == self@.hours,
            self@.wf(),
    {
        self.field(FieldKind::Hour).as_slice()
    }

    /// The days of the week to run at, ascending, Sunday being 0.
    pub fn days_of_week(&self) -> (r: &[u8])
        ensures
            r@ == self@.days_of_week,
            self@.wf(),
    {
        self.field(FieldKind::DayOfWeek).as_slice()
    }

    /// The months to run at, ascending.
    pub fn months(&self) -> (r: &[u8])
        ensures
            r@ == self@.months,
            self@.wf(),
    {
        self.field(FieldKind::Month).as_slice()
    }
}

impl PartialEq for CronSchedule {
    /// Schedules are equal when they allow the same.
    fn eq(&self, other: &Self) -> (r: bool) {
        proof {
            use_type_invariant(self);
            use_type_invariant(other);
        }
        self.minute == other.minute && self.hour == other.hour && self.day_m == other.day_m
            && self.month == other.month && self.day_w == other.day_w
    }
}

impl vstd::std_specs::cmp::PartialEqSpecImpl for CronSchedule {
    open spec fn obeys_eq_spec() -> bool {
        true
    }

    open spec fn eq_spec(&self, other: &Self) -> bool {
        self@ == other@
    }
}

impl Eq for CronSchedule {

}

impl Clone for CronSchedule {
    /// A schedule that allows the same.
    fn clone(&self) -> (r: Self)
        ensures
            r@ == self@,
    {
        proof {
            use_type_invariant(self);
        }
        CronSchedule {
            minute: self.minute.clone(),
            hour: self.hour.clone(),
            day_m: self.day_m.clone(),
            month: self.month.clone(),
            day_w: self.day_w.clone(),
        }
    }
}

} // verus!
