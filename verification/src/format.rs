//! The canonical text of a schedule: `*` for a field that allows every
//! value, else its values with every stretch of neighbours drawn together
//! into a range.
use vstd::prelude::*;
use vstd::string::StringExecFns;
use crate::field::COMMA;
use crate::field::DASH;
use crate::field::STAR;
use crate::kind::FieldKind;
use crate::schedule::Fields;
use crate::store::FieldSet;

verus! {

/// The space that sets the fields of an expression apart.
pub const SPACE: u8 = 0x20;

/// The characters that stand for ASCII bytes.
pub open spec fn as_chars(s: Seq<u8>) -> Seq<char> {
    s.map_values(|b: u8| b as char)
}

/// The decimal digits of a number below 100, without leading zero.
pub open spec fn digits_of(v: int) -> Seq<u8> {
    if v < 10 {
        seq![(0x30 + v) as u8]
    } else {
        seq![(0x30 + v / 10) as u8, (0x30 + v % 10) as u8]
    }
}

/// How a value of a field is written: by name where the field has names,
/// else as a number.
pub open spec fn value_text(kind: FieldKind, v: int) -> Seq<u8> {
    if kind.spec_named() {
        kind.abbrev(v)
    } else {
        digits_of(v)
    }
}

/// Where the stretch of neighbours that starts at position `i` ends.
pub open spec fn run_end(s: Seq<u8>, i: int) -> int
    decreases s.len() - i,
{
    if 0 <= i && i + 1 < s.len() && s[i + 1] == s[i] + 1 {
        run_end(s, i + 1)
    } else {
        i
    }
}

/// How the stretch from position `i` to position `j` is written.
pub open spec fn run_text(kind: FieldKind, s: Seq<u8>, i: int, j: int) -> Seq<u8> {
    if i == j {
        value_text(kind, s[i] as int)
    } else {
        value_text(kind, s[i] as int) + seq![DASH] + value_text(kind, s[j] as int)
    }
}

/// How the values from position `i` on are written, stretch by stretch.
pub open spec fn runs_text(kind: FieldKind, s: Seq<u8>, i: int) -> Seq<u8>
    decreases s.len() - i,
{
    if 0 <= i < s.len() {
        let j = run_end(s, i);
        if i <= j && j + 1 < s.len() {
            run_text(kind, s, i, j) + seq![COMMA] + runs_text(kind, s, j + 1)
        } else {
            run_text(kind, s, i, j)
        }
    } else {
        Seq::empty()
    }
}

/// How the values of a field are written.
pub open spec fn field_text(kind: FieldKind, s: Seq<u8>) -> Seq<u8> {
    if s.len() == kind.spec_size() {
        seq![STAR]
    } else {
        runs_text(kind, s, 0)
    }
}

/// How a schedule is written: its five fields with one space between.
pub open spec fn schedule_text(f: Fields) -> Seq<u8> {
    field_text(FieldKind::Minute, f.minutes) + seq![SPACE] + field_text(FieldKind::Hour, f.hours)
        + seq![SPACE] + field_text(FieldKind::DayOfMonth, f.days_of_month) + seq![SPACE]
        + field_text(FieldKind::Month, f.months) + seq![SPACE] + field_text(
        FieldKind::DayOfWeek,
        f.days_of_week,
    )
}

/// Text put together is characters put together.
pub proof fn lemma_as_chars_add(a: Seq<u8>, b: Seq<u8>)
    ensures
        as_chars(a + b) == as_chars(a) + as_chars(b),
{
    assert(as_chars(a + b) =~= as_chars(a) + as_chars(b));
}

/// A stretch ends at or after its start, within the sequence.
pub proof fn lemma_run_end(s: Seq<u8>, i: int)
    requires
        0 <= i < s.len(),
    ensures
        i <= run_end(s, i) < s.len(),
    decreases s.len() - i,
{
    if i + 1 < s.len() && s[i + 1] == s[i] + 1 {
        lemma_run_end(s, i + 1);
    }
}

/// The text of one decimal digit.
pub fn digit_str(d: u8) -> (r: &'static str)
    requires
        d <= 9,
    ensures
        r@ == as_chars(seq![(0x30 + d) as u8]),
{
    proof {
        reveal_strlit("0");
        reveal_strlit("1");
        reveal_strlit("2");
        reveal_strlit("3");
        reveal_strlit("4");
        reveal_strlit("5");
        reveal_strlit("6");
        reveal_strlit("7");
        reveal_strlit("8");
        reveal_strlit("9");
    }
    let r = match d {
        0 => "0",
        1 => "1",
        2 => "2",
        3 => "3",
        4 => "4",
        5 => "5",
        6 => "6",
        7 => "7",
        8 => "8",
        _ => "9",
    };
    assert(r@ =~= as_chars(seq![(0x30 + d) as u8]));
    r
}

/// The name of a value of a named field.
pub fn value_name(kind: FieldKind, v: u8) -> (r: &'static str)
    requires
        kind.spec_named(),
        kind.holds(v as int),
    ensures
        r@ == as_chars(kind.abbrev(v as int)),
{
    proof {
        reveal_strlit("JAN");
        reveal_strlit("FEB");
        reveal_strlit("MAR");
        reveal_strlit("APR");
        reveal_strlit("MAY");
        reveal_strlit("JUN");
        reveal_strlit("JUL");
        reveal_strlit("AUG");
        reveal_strlit("SEP");
        reveal_strlit("OCT");
        reveal_strlit("NOV");
        reveal_strlit("DEC");
        reveal_strlit("SUN");
        reveal_strlit("MON");
        reveal_strlit("TUE");
        reveal_strlit("WED");
        reveal_strlit("THU");
        reveal_strlit("FRI");
        reveal_strlit("SAT");
    }
    let r = match kind {
        FieldKind::Month => match v {
            1 => "JAN",
            2 => "FEB",
            3 => "MAR",
            4 => "APR",
            5 => "MAY",
            6 => "JUN",
            7 => "JUL",
            8 => "AUG",
            9 => "SEP",
            10 => "OCT",
            11 => "NOV",
            _ => "DEC",
        },
        _ => match v {
            0 => "SUN",
            1 => "MON",
            2 => "TUE",
            3 => "WED",
            4 => "THU",
            5 => "FRI",
            _ => "SAT",
        },
    };
    assert(r@ =~= as_chars(kind.abbrev(v as int)));
    r
}

/// Appends a value of a field as it is written.
pub fn write_value(out: &mut String, kind: FieldKind, v: u8)
    requires
        kind.holds(v as int),
    ensures
        final(out)@ == old(out)@ + as_chars(value_text(kind, v as int)),
{
    if kind.named() {
        out.append(value_name(kind, v));
    } else if v < 10 {
        out.append(digit_str(v));
    } else {
        let ghost before = out@;
        out.append(digit_str(v / 10));
        out.append(digit_str(v % 10));
        assert(out@ =~= before + as_chars(digits_of(v as int)));
    }
}

/// Appends the values of a field as they are written.
pub fn write_field(out: &mut String, set: &FieldSet)
    ensures
        final(out)@ == old(out)@ + as_chars(field_text(set.spec_kind(), set@)),
{
    let kind = set.kind();
    let s = set.as_slice();
    let n = set.len();
    let ghost before = out@;
    if set.is_full() {
        proof {
            reveal_strlit("*");
        }
        out.append("*");
        assert(out@ =~= before + as_chars(seq![STAR]));
        return ;
    }
    let mut i: usize = 0;
    while i < n
        invariant
            s@ == set@,
            n == s@.len(),
            n <= 60,
            set.wf(),
            kind == set.spec_kind(),
            0 <= i <= s@.len(),
            before + as_chars(runs_text(kind, s@, 0)) == out@ + as_chars(runs_text(kind, s@, i as int)),
        decreases s@.len() - i,
    {
        let mut j: usize = i;
        while j + 1 < n && s[j + 1] == s[j] + 1
            invariant
                n == s@.len(),
                n <= 60,
                forall|k: int| 0 <= k < s@.len() ==> #[trigger] s@[k] <= 59,
                i <= j < s@.len(),
                run_end(s@, i as int) == run_end(s@, j as int),
            decreases s@.len() - j,
        {
            j += 1;
        }
        let ghost start = out@;
        let ghost rest = runs_text(kind, s@, j + 1);
        write_value(out, kind, s[i]);
        if j > i {
            proof {
                reveal_strlit("-");
            }
            out.append("-");
            write_value(out, kind, s[j]);
        }
        proof {
            let head = run_text(kind, s@, i as int, j as int);
            if j > i {
                lemma_as_chars_add(value_text(kind, s@[i as int] as int), seq![DASH]);
                lemma_as_chars_add(
                    value_text(kind, s@[i as int] as int) + seq![DASH],
                    value_text(kind, s@[j as int] as int),
                );
                assert(as_chars(seq![DASH]) =~= "-"@);
            }
            assert(out@ =~= start + as_chars(head));
        }
        if j + 1 < n {
            proof {
                reveal_strlit(",");
            }
            out.append(",");
            proof {
                let head = run_text(kind, s@, i as int, j as int);
                lemma_as_chars_add(head, seq![COMMA]);
                lemma_as_chars_add(head + seq![COMMA], rest);
                assert(as_chars(seq![COMMA]) =~= ","@);
                assert(out@ + as_chars(rest) =~= start + as_chars(runs_text(kind, s@, i as int)));
            }
        } else {
            proof {
                assert(as_chars(rest) =~= Seq::<char>::empty());
                assert(out@ + as_chars(rest) =~= start + as_chars(runs_text(kind, s@, i as int)));
            }
        }
        i = j + 1;
    }
    proof {
        assert(as_chars(runs_text(kind, s@, i as int)) =~= Seq::<char>::empty());
        assert(out@ =~= before + as_chars(runs_text(kind, s@, 0)));
    }
}

} // verus!
