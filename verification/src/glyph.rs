//! How written values read back: what the formatter writes for a value is
//! what the grammar reads as that value.
use vstd::prelude::*;
use crate::error::InvalidExpr;
use crate::field::token_value;
use crate::field::COMMA;
use crate::field::DASH;
use crate::field::SLASH;
use crate::field::STAR;
use crate::format::digits_of;
use crate::format::value_text;
use crate::kind::FieldKind;
use crate::text::all_digits;
use crate::text::digits_value;
use crate::text::is_digit;
use crate::text::number_of;
use crate::text::space_len;
use crate::text::upper_all;

verus! {

/// A digit or an upper-case letter.
pub open spec fn plain(b: u8) -> bool {
    is_digit(b) || 0x41 <= b <= 0x5a
}

/// Made of digits and upper-case letters only, at least one.
pub open spec fn plain_word(s: Seq<u8>) -> bool {
    s.len() > 0 && forall|i: int| 0 <= i < s.len() ==> plain(#[trigger] s[i])
}

/// The digits of a number below 100 read back as that number.
pub proof fn lemma_digits_round(v: int)
    requires
        0 <= v < 100,
    ensures
        number_of(digits_of(v)) == Some(v as nat),
        plain_word(digits_of(v)),
{
    let d = digits_of(v);
    reveal_with_fuel(digits_value, 3);
    if v < 10 {
        assert(d.drop_last().len() == 0);
    } else {
        assert(d.drop_last() =~= seq![(0x30 + v / 10) as u8]);
        assert(d.drop_last().drop_last().len() == 0);
    }
    assert(all_digits(d));
}

/// The names of a field's values are three upper-case letters each.
pub proof fn lemma_abbrev_letters(kind: FieldKind, v: int)
    requires
        kind.spec_named(),
        kind.holds(v),
    ensures
        kind.abbrev(v).len() == 3,
        forall|i: int| 0 <= i < 3 ==> 0x41 <= #[trigger] kind.abbrev(v)[i] <= 0x5a,
        plain_word(kind.abbrev(v)),
        upper_all(kind.abbrev(v)) == kind.abbrev(v),
        number_of(kind.abbrev(v)) is None,
{
    let a = kind.abbrev(v);
    assert(a.len() == 3);
    assert(0x41 <= a[0] <= 0x5a && 0x41 <= a[1] <= 0x5a && 0x41 <= a[2] <= 0x5a);
    assert(upper_all(a) =~= a);
    assert(!is_digit(a[0]));
}

/// No two values of a field share a name.
pub proof fn lemma_abbrev_distinct(kind: FieldKind, v: int, w: int)
    requires
        kind.spec_named(),
        kind.holds(v),
        kind.holds(w),
        v != w,
    ensures
        kind.abbrev(v) != kind.abbrev(w),
{
    let a = kind.abbrev(v);
    let b = kind.abbrev(w);
    assert(a[0] != b[0] || a[1] != b[1] || a[2] != b[2]);
}

/// The name of a value is looked up as that value.
pub proof fn lemma_abbrev_round(kind: FieldKind, v: int)
    requires
        kind.spec_named(),
        kind.holds(v),
    ensures
        kind.named_value(kind.abbrev(v)) == Some(v as u8),
{
    lemma_abbrev_letters(kind, v);
    let name = kind.abbrev(v);
    kind.lemma_name_lookup(name, kind.spec_min() as int);
    match kind.name_lookup(name, kind.spec_min() as int) {
        Some(found) => {
            if found != v {
                lemma_abbrev_distinct(kind, v, found as int);
            }
        },
        None => {},
    }
}

/// What is written for a value reads back as the value, and is made of
/// digits and upper-case letters.
pub proof fn lemma_value_round(kind: FieldKind, v: int)
    requires
        kind.holds(v),
    ensures
        token_value(kind, value_text(kind, v)) == Ok::<u8, InvalidExpr>(v as u8),
        plain_word(value_text(kind, v)),
{
    if kind.spec_named() {
        lemma_abbrev_letters(kind, v);
        lemma_abbrev_round(kind, v);
    } else {
        lemma_digits_round(v);
    }
}

/// Digits and upper-case letters are no marks of the grammar and no white
/// space.
pub proof fn lemma_plain(b: u8)
    requires
        plain(b),
    ensures
        b != COMMA && b != DASH && b != SLASH && b != STAR,
        forall|s: Seq<u8>| s.len() > 0 && s[0] == b ==> #[trigger] space_len(s) == 0,
{
}

} // verus!
