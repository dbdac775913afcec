//! Writing a schedule and reading the text back gives the same schedule.
use vstd::prelude::*;
use vstd::utf8::encode_utf8;
use vstd::utf8::is_ascii_chars;
use vstd::utf8::is_ascii_chars_encode_utf8;
use crate::error::InvalidExpr;
use crate::field::entry_values;
use crate::field::field_listing;
use crate::field::field_values;
use crate::field::gather;
use crate::field::lemma_field_listing;
use crate::field::token_value;
use crate::field::COMMA;
use crate::field::DASH;
use crate::field::SLASH;
use crate::field::STAR;
use crate::format::as_chars;
use crate::format::field_text;
use crate::format::lemma_run_end;
use crate::format::run_end;
use crate::format::run_text;
use crate::format::runs_text;
use crate::format::schedule_text;
use crate::format::value_text;
use crate::format::SPACE;
use crate::glyph::lemma_plain;
use crate::glyph::lemma_value_round;
use crate::glyph::plain;
use crate::glyph::plain_word;
use crate::kind::FieldKind;
use crate::order::lemma_ascending_ceiling;
use crate::order::lemma_ascending_floor;
use crate::order::lemma_listing_unique;
use crate::order::span;
use crate::schedule::leading_field;
use crate::schedule::parsed_schedule;
use crate::schedule::Fault;
use crate::schedule::Fields;
use crate::store::is_field_listing;
use crate::text::blank_len;
use crate::text::lemma_first_index_absent;
use crate::text::lemma_first_index_is;
use crate::text::lemma_split_unfold;
use crate::text::next_word;
use crate::text::space_len;
use crate::text::split;
use crate::text::split_pair;
use crate::text::word_len;

verus! {

/// The values that stand in `s` from position `i` on.
pub open spec fn members_from(s: Seq<u8>, i: int) -> Set<int> {
    Set::new(|v: int| exists|k: int| i <= k < s.len() && #[trigger] s[k] == v)
}

/// A word of digits and letters holds no mark of the grammar.
pub proof fn lemma_word_marks(s: Seq<u8>)
    requires
        plain_word(s),
    ensures
        !s.contains(COMMA),
        !s.contains(DASH),
        !s.contains(SLASH),
        s != seq![STAR],
{
    assert forall|i: int| 0 <= i < s.len() implies s[i] != COMMA && s[i] != DASH && s[i] != SLASH
        && s[i] != STAR by {
        lemma_plain(s[i]);
    }
    if s == seq![STAR] {
        assert(s[0] == STAR);
    }
}

/// A word of digits and letters that stands for a value is an entry with
/// that one value.
pub proof fn lemma_word_entry(kind: FieldKind, word: Seq<u8>, v: u8, alone: bool)
    requires
        plain_word(word),
        token_value(kind, word) == Ok::<u8, InvalidExpr>(v),
    ensures
        entry_values(kind, word, alone) == Ok::<Set<int>, InvalidExpr>(set![v as int]),
        !word.contains(COMMA),
        split(word, COMMA) == seq![word],
{
    lemma_word_marks(word);
    lemma_first_index_absent(word, SLASH);
    lemma_first_index_absent(word, DASH);
    lemma_first_index_absent(word, COMMA);
    lemma_split_unfold(word, COMMA);
}

/// A value written alone is read as that value.
pub proof fn lemma_single_entry(kind: FieldKind, v: int, alone: bool)
    requires
        kind.holds(v),
    ensures
        entry_values(kind, value_text(kind, v), alone) == Ok::<Set<int>, InvalidExpr>(
            set![v as u8 as int],
        ),
        !value_text(kind, v).contains(COMMA),
{
    lemma_value_round(kind, v);
    lemma_word_entry(kind, value_text(kind, v), v as u8, alone);
}

/// Two values written as a range are read as the range between them.
pub proof fn lemma_range_entry(kind: FieldKind, a: int, b: int, alone: bool)
    requires
        kind.holds(a),
        kind.holds(b),
        a <= b,
    ensures
        entry_values(kind, value_text(kind, a) + seq![DASH] + value_text(kind, b), alone) == Ok::<
            Set<int>,
            InvalidExpr,
        >(span(a, b)),
        !(value_text(kind, a) + seq![DASH] + value_text(kind, b)).contains(COMMA),
{
    let from = value_text(kind, a);
    let to = value_text(kind, b);
    let text = from + seq![DASH] + to;
    lemma_value_round(kind, a);
    lemma_value_round(kind, b);
    lemma_word_marks(from);
    lemma_word_marks(to);
    let n = from.len() as int;
    assert forall|i: int| 0 <= i < text.len() implies text[i] != COMMA && text[i] != SLASH by {
        if i < n {
            assert(text[i] == from[i]);
            lemma_plain(from[i]);
        } else if i > n {
            assert(text[i] == to[i - n - 1]);
            lemma_plain(to[i - n - 1]);
        }
    }
    assert(text[0] == from[0]);
    lemma_plain(from[0]);
    assert(text != seq![STAR]) by {
        if text == seq![STAR] {
            assert(text[0] == STAR);
        }
    }
    lemma_first_index_absent(text, SLASH);
    assert(split_pair(text, SLASH) is None);
    assert forall|j: int| 0 <= j < n implies text[j] != DASH by {
        assert(text[j] == from[j]);
        lemma_plain(from[j]);
    }
    assert(text[n] == DASH);
    lemma_first_index_is(text, DASH, n);
    assert(text.take(n) =~= from);
    assert(text.skip(n + 1) =~= to);
    assert(split_pair(text, DASH) == Some((from, to)));
}

/// Within a stretch of neighbours each value is one more than the one
/// before.
pub proof fn lemma_run_values(s: Seq<u8>, i: int, k: int)
    requires
        0 <= i <= k <= run_end(s, i),
        i < s.len(),
    ensures
        k < s.len(),
        s[k] == s[i] + (k - i),
        run_end(s, k) == run_end(s, i),
    decreases k - i,
{
    lemma_run_end(s, i);
    if k > i {
        if i + 1 < s.len() && s[i + 1] == s[i] + 1 {
            lemma_run_values(s, i + 1, k);
        }
    }
}

/// How a stretch is written reads back as the values of the stretch.
pub proof fn lemma_run_entry(kind: FieldKind, s: Seq<u8>, i: int, alone: bool)
    requires
        is_field_listing(kind, s),
        0 <= i < s.len(),
    ensures
        ({
            let j = run_end(s, i);
            &&& i <= j < s.len()
            &&& entry_values(kind, run_text(kind, s, i, j), alone) == Ok::<Set<int>, InvalidExpr>(
                span(s[i] as int, s[j] as int),
            )
            &&& !run_text(kind, s, i, j).contains(COMMA)
            &&& forall|v: int|
                span(s[i] as int, s[j] as int).contains(v) <==> exists|k: int|
                    i <= k <= j && #[trigger] s[k] == v
        }),
{
    let j = run_end(s, i);
    lemma_run_end(s, i);
    lemma_run_values(s, i, j);
    if i == j {
        lemma_single_entry(kind, s[i] as int, alone);
        assert(set![s[i] as int] =~= span(s[i] as int, s[i] as int));
    } else {
        lemma_range_entry(kind, s[i] as int, s[j] as int, alone);
    }
    assert forall|v: int| span(s[i] as int, s[j] as int).contains(v) implies exists|k: int|
        i <= k <= j && #[trigger] s[k] == v by {
        let k = i + (v - s[i]);
        lemma_run_values(s, i, k);
        assert(s[k] == v);
    }
    assert forall|v: int| (exists|k: int| i <= k <= j && #[trigger] s[k] == v) implies span(
        s[i] as int,
        s[j] as int,
    ).contains(v) by {
        let k = choose|k: int| i <= k <= j && #[trigger] s[k] == v;
        lemma_run_values(s, i, k);
    }
}

/// How the values from position `i` on are written reads back as those
/// values.
pub proof fn lemma_runs_round(kind: FieldKind, s: Seq<u8>, i: int, alone: bool, found: Set<int>)
    requires
        is_field_listing(kind, s),
        0 <= i < s.len(),
    ensures
        gather(kind, split(runs_text(kind, s, i), COMMA), alone, found) == Ok::<
            Set<int>,
            InvalidExpr,
        >(found + members_from(s, i)),
    decreases s.len() - i,
{
    let j = run_end(s, i);
    lemma_run_entry(kind, s, i, alone);
    let head = run_text(kind, s, i, j);
    let values = span(s[i] as int, s[j] as int);
    let text = runs_text(kind, s, i);
    lemma_first_index_absent(head, COMMA);
    if j + 1 < s.len() {
        let rest = runs_text(kind, s, j + 1);
        assert(text == head + seq![COMMA] + rest);
        let n = head.len() as int;
        assert forall|k: int| 0 <= k < n implies text[k] != COMMA by {
            assert(text[k] == head[k]);
            lemma_first_index_absent(head, COMMA);
            crate::text::lemma_first_index_bounds(head, COMMA);
        }
        assert(text[n] == COMMA);
        lemma_first_index_is(text, COMMA, n);
        lemma_split_unfold(text, COMMA);
        assert(text.take(n) =~= head);
        assert(text.skip(n + 1) =~= rest);
        let entries = split(text, COMMA);
        assert(entries[0] == head);
        assert(entries.skip(1) == split(rest, COMMA));
        lemma_runs_round(kind, s, j + 1, alone, found + values);
        assert(found + values + members_from(s, j + 1) =~= found + members_from(s, i)) by {
            assert forall|v: int|
                (found + values + members_from(s, j + 1)).contains(v) <==> (found + members_from(
                    s,
                    i,
                )).contains(v) by {
                if values.contains(v) {
                    let k = choose|k: int| i <= k <= j && #[trigger] s[k] == v;
                    assert(members_from(s, i).contains(v));
                }
                if members_from(s, j + 1).contains(v) {
                    let k = choose|k: int| j + 1 <= k < s.len() && #[trigger] s[k] == v;
                    assert(i <= k < s.len() && s[k] == v);
                }
                if members_from(s, i).contains(v) {
                    let k = choose|k: int| i <= k < s.len() && #[trigger] s[k] == v;
                    if k <= j {
                        assert(values.contains(v));
                    } else {
                        assert(j + 1 <= k < s.len() && s[k] == v);
                        assert(members_from(s, j + 1).contains(v));
                    }
                }
            }
        }
    } else {
        assert(text == head);
        crate::text::lemma_first_index_bounds(head, COMMA);
        lemma_split_unfold(text, COMMA);
        let entries = split(text, COMMA);
        assert(entries == seq![head]);
        assert(entries[0] == head);
        assert(entries.skip(1).len() == 0);
        assert(gather(kind, entries.skip(1), alone, found + values) == Ok::<
            Set<int>,
            InvalidExpr,
        >(found + values));
        assert(found + values =~= found + members_from(s, i)) by {
            assert forall|v: int|
                (found + values).contains(v) <==> (found + members_from(s, i)).contains(v) by {
                if values.contains(v) {
                    let k = choose|k: int| i <= k <= j && #[trigger] s[k] == v;
                    assert(members_from(s, i).contains(v));
                }
                if members_from(s, i).contains(v) {
                    let k = choose|k: int| i <= k < s.len() && #[trigger] s[k] == v;
                    assert(i <= k <= j);
                    assert(values.contains(v));
                }
            }
        }
    }
}

/// A listing that is as long as its field's range holds the whole range.
pub proof fn lemma_full_listing(kind: FieldKind, s: Seq<u8>, v: int)
    requires
        is_field_listing(kind, s),
        s.len() == kind.spec_size(),
        kind.holds(v),
    ensures
        s.contains(v as u8),
{
    let k = v - kind.spec_min();
    lemma_ascending_floor(s, kind.spec_min() as int, k);
    lemma_ascending_ceiling(s, kind.spec_max() as int, k);
    assert(s[k] == v);
}

/// Writing the values of a field and reading the text back gives the same
/// values.
pub proof fn lemma_field_round(kind: FieldKind, s: Seq<u8>)
    requires
        is_field_listing(kind, s),
    ensures
        field_listing(kind, field_text(kind, s)) == Ok::<Seq<u8>, InvalidExpr>(s),
{
    let text = field_text(kind, s);
    let lo = kind.spec_min() as int;
    let hi = kind.spec_max() as int;
    if s.len() == kind.spec_size() {
        let star = seq![STAR];
        assert(star[0] == STAR);
        lemma_first_index_is(star, COMMA, 1);
        lemma_split_unfold(star, COMMA);
        let entries = split(star, COMMA);
        assert(entries == seq![star]);
        assert(entries.skip(1).len() == 0);
        let all = Set::<int>::empty() + span(lo, hi);
        assert(gather(kind, entries.skip(1), true, all) == Ok::<Set<int>, InvalidExpr>(all));
        assert(field_values(kind, text) == Ok::<Set<int>, InvalidExpr>(all));
        assert forall|v: int| lo <= v <= hi && all.contains(v) <==> 0 <= v < 256
            && #[trigger] s.contains(v as u8) by {
            if lo <= v <= hi {
                lemma_full_listing(kind, s, v);
            }
            if 0 <= v < 256 && s.contains(v as u8) {
                let k = choose|k: int| 0 <= k < s.len() && s[k] == v as u8;
                assert(lo <= s[k] <= hi);
            }
        }
        lemma_listing_unique(s, all, lo, hi);
    } else {
        let entries = split(text, COMMA);
        let alone = entries.len() == 1;
        lemma_runs_round(kind, s, 0, alone, Set::empty());
        let all = Set::<int>::empty() + members_from(s, 0);
        assert forall|v: int| lo <= v <= hi && all.contains(v) <==> 0 <= v < 256
            && #[trigger] s.contains(v as u8) by {
            if all.contains(v) {
                let k = choose|k: int| 0 <= k < s.len() && #[trigger] s[k] == v;
                assert(s[k] == v as u8);
            }
            if 0 <= v < 256 && s.contains(v as u8) {
                let k = choose|k: int| 0 <= k < s.len() && s[k] == v as u8;
                assert(lo <= s[k] <= hi);
                assert(members_from(s, 0).contains(v));
            }
        }
        lemma_listing_unique(s, all, lo, hi);
    }
}

/// An ASCII byte that is no white space.
pub open spec fn solid(b: u8) -> bool {
    !(0x09 <= b <= 0x0d) && b != 0x20 && b < 0x80
}

/// Text without white space.
pub open spec fn solid_text(s: Seq<u8>) -> bool {
    forall|i: int| 0 <= i < s.len() ==> solid(#[trigger] s[i])
}

/// Text without white space, put together, is without white space.
pub proof fn lemma_solid_add(a: Seq<u8>, b: Seq<u8>)
    requires
        solid_text(a),
        solid_text(b),
    ensures
        solid_text(a + b),
{
    assert forall|i: int| 0 <= i < (a + b).len() implies solid(#[trigger] (a + b)[i]) by {
        if i < a.len() {
            assert((a + b)[i] == a[i]);
        } else {
            assert((a + b)[i] == b[i - a.len()]);
        }
    }
}

/// A value is written without white space.
pub proof fn lemma_value_solid(kind: FieldKind, v: int)
    requires
        kind.holds(v),
    ensures
        solid_text(value_text(kind, v)),
        value_text(kind, v).len() > 0,
{
    lemma_value_round(kind, v);
    let t = value_text(kind, v);
    assert forall|i: int| 0 <= i < t.len() implies solid(#[trigger] t[i]) by {
        assert(plain(t[i]));
    }
}

/// The values of a field are written without white space.
pub proof fn lemma_runs_solid(kind: FieldKind, s: Seq<u8>, i: int)
    requires
        is_field_listing(kind, s),
        0 <= i < s.len(),
    ensures
        solid_text(runs_text(kind, s, i)),
        runs_text(kind, s, i).len() > 0,
    decreases s.len() - i,
{
    let j = run_end(s, i);
    lemma_run_end(s, i);
    lemma_value_solid(kind, s[i] as int);
    lemma_value_solid(kind, s[j] as int);
    let head = run_text(kind, s, i, j);
    assert(solid_text(seq![DASH]));
    assert(solid_text(seq![COMMA]));
    if i != j {
        lemma_solid_add(value_text(kind, s[i] as int), seq![DASH]);
        lemma_solid_add(value_text(kind, s[i] as int) + seq![DASH], value_text(kind, s[j] as int));
    }
    if j + 1 < s.len() {
        lemma_runs_solid(kind, s, j + 1);
        lemma_solid_add(head, seq![COMMA]);
        lemma_solid_add(head + seq![COMMA], runs_text(kind, s, j + 1));
    }
}

/// A field is written as one word.
pub proof fn lemma_field_solid(kind: FieldKind, s: Seq<u8>)
    requires
        is_field_listing(kind, s),
    ensures
        solid_text(field_text(kind, s)),
        field_text(kind, s).len() > 0,
{
    if s.len() == kind.spec_size() {
        assert(solid_text(seq![STAR]));
    } else {
        lemma_runs_solid(kind, s, 0);
    }
}

/// A word ends where white space or the text ends.
pub proof fn lemma_word_len(w: Seq<u8>, rest: Seq<u8>)
    requires
        solid_text(w),
        rest.len() == 0 || rest[0] == SPACE,
    ensures
        word_len(w + rest) == w.len(),
    decreases w.len(),
{
    let t = w + rest;
    if w.len() == 0 {
        assert(t =~= rest);
    } else {
        assert(t[0] == w[0]);
        assert(solid(w[0]));
        assert(space_len(t) == 0);
        assert(t.skip(1) =~= w.skip(1) + rest);
        assert forall|i: int| 0 <= i < w.skip(1).len() implies solid(#[trigger] w.skip(1)[i]) by {
            assert(w.skip(1)[i] == w[i + 1]);
        }
        lemma_word_len(w.skip(1), rest);
    }
}

/// The first word of a text that starts with a word.
pub proof fn lemma_first_word(w: Seq<u8>, rest: Seq<u8>)
    requires
        solid_text(w),
        w.len() > 0,
        rest.len() == 0 || rest[0] == SPACE,
    ensures
        next_word(w + rest) == Some((w, rest)),
{
    let t = w + rest;
    assert(t[0] == w[0]);
    assert(solid(w[0]));
    assert(space_len(t) == 0);
    assert(blank_len(t) == 0);
    assert(t.skip(0) =~= t);
    lemma_word_len(w, rest);
    assert(t.take(w.len() as int) =~= w);
    assert(t.skip(w.len() as int) =~= rest);
}

/// The first word of a text that starts with one space and a word.
pub proof fn lemma_spaced_word(w: Seq<u8>, rest: Seq<u8>)
    requires
        solid_text(w),
        w.len() > 0,
        rest.len() == 0 || rest[0] == SPACE,
    ensures
        next_word(seq![SPACE] + (w + rest)) == Some((w, rest)),
{
    let t = w + rest;
    let u = seq![SPACE] + t;
    assert(u[0] == SPACE);
    assert(space_len(u) == 1);
    assert(u.skip(1) =~= t);
    assert(t[0] == w[0]);
    assert(solid(w[0]));
    assert(space_len(t) == 0);
    assert(blank_len(t) == 0);
    assert(blank_len(u) == 1);
    lemma_first_word(w, rest);
    assert(t.skip(0) =~= t);
}

/// The UTF-8 encoding of ASCII text is the text.
pub proof fn lemma_ascii_bytes(s: Seq<u8>)
    requires
        forall|i: int| 0 <= i < s.len() ==> #[trigger] s[i] < 0x80,
    ensures
        encode_utf8(as_chars(s)) == s,
{
    let chars = as_chars(s);
    assert(is_ascii_chars(chars));
    is_ascii_chars_encode_utf8(chars);
    assert(encode_utf8(chars) =~= s);
}

/// The text of a schedule is ASCII.
pub proof fn lemma_schedule_ascii(f: Fields)
    requires
        f.wf(),
    ensures
        encode_utf8(as_chars(schedule_text(f))) == schedule_text(f),
{
    let a = field_text(FieldKind::Minute, f.minutes);
    let b = field_text(FieldKind::Hour, f.hours);
    let c = field_text(FieldKind::DayOfMonth, f.days_of_month);
    let d = field_text(FieldKind::Month, f.months);
    let e = field_text(FieldKind::DayOfWeek, f.days_of_week);
    let sp = seq![SPACE];
    lemma_field_solid(FieldKind::Minute, f.minutes);
    lemma_field_solid(FieldKind::Hour, f.hours);
    lemma_field_solid(FieldKind::DayOfMonth, f.days_of_month);
    lemma_field_solid(FieldKind::Month, f.months);
    lemma_field_solid(FieldKind::DayOfWeek, f.days_of_week);
    let text = schedule_text(f);
    assert forall|i: int| 0 <= i < text.len() implies #[trigger] text[i] < 0x80 by {
        let n1 = a.len() as int;
        let n2 = n1 + 1 + b.len();
        let n3 = n2 + 1 + c.len();
        let n4 = n3 + 1 + d.len();
        if i < n1 {
            assert(text[i] == a[i]);
        } else if i == n1 {
        } else if i < n2 {
            assert(text[i] == b[i - n1 - 1]);
        } else if i == n2 {
        } else if i < n3 {
            assert(text[i] == c[i - n2 - 1]);
        } else if i == n3 {
        } else if i < n4 {
            assert(text[i] == d[i - n3 - 1]);
        } else if i == n4 {
        } else {
            assert(text[i] == e[i - n4 - 1]);
        }
    }
    lemma_ascii_bytes(text);
}

/// Five words without white space, set apart by single spaces, are read
/// as the five fields that the words are read as.
pub proof fn lemma_five_words(
    a: Seq<u8>,
    b: Seq<u8>,
    c: Seq<u8>,
    d: Seq<u8>,
    e: Seq<u8>,
    f: Fields,
)
    requires
        solid_text(a) && a.len() > 0,
        solid_text(b) && b.len() > 0,
        solid_text(c) && c.len() > 0,
        solid_text(d) && d.len() > 0,
        solid_text(e) && e.len() > 0,
        field_listing(FieldKind::Minute, a) == Ok::<Seq<u8>, InvalidExpr>(f.minutes),
        field_listing(FieldKind::Hour, b) == Ok::<Seq<u8>, InvalidExpr>(f.hours),
        field_listing(FieldKind::DayOfMonth, c) == Ok::<Seq<u8>, InvalidExpr>(f.days_of_month),
        field_listing(FieldKind::Month, d) == Ok::<Seq<u8>, InvalidExpr>(f.months),
        field_listing(FieldKind::DayOfWeek, e) == Ok::<Seq<u8>, InvalidExpr>(f.days_of_week),
    ensures
        parsed_schedule(
            a + seq![SPACE] + b + seq![SPACE] + c + seq![SPACE] + d + seq![SPACE] + e,
        ) == Ok::<Fields, Fault>(f),
{
    let sp = seq![SPACE];
    let none = Seq::<u8>::empty();
    let t4 = sp + (e + none);
    let t3 = sp + (d + t4);
    let t2 = sp + (c + t3);
    let t1 = sp + (b + t2);
    let text = a + sp + b + sp + c + sp + d + sp + e;
    assert(t4[0] == SPACE && t3[0] == SPACE && t2[0] == SPACE && t1[0] == SPACE);
    assert(text =~= a + t1);
    lemma_first_word(a, t1);
    lemma_spaced_word(b, t2);
    lemma_spaced_word(c, t3);
    lemma_spaced_word(d, t4);
    lemma_spaced_word(e, none);
    assert(none.skip(0) =~= none);
    assert(blank_len(none) == 0);
    assert(next_word(none) is None);
}

/// Writing a schedule and reading the text back gives the same schedule.
pub proof fn lemma_schedule_round(f: Fields)
    requires
        f.wf(),
    ensures
        parsed_schedule(schedule_text(f)) == Ok::<Fields, Fault>(f),
{
    lemma_field_solid(FieldKind::Minute, f.minutes);
    lemma_field_solid(FieldKind::Hour, f.hours);
    lemma_field_solid(FieldKind::DayOfMonth, f.days_of_month);
    lemma_field_solid(FieldKind::Month, f.months);
    lemma_field_solid(FieldKind::DayOfWeek, f.days_of_week);
    lemma_field_round(FieldKind::Minute, f.minutes);
    lemma_field_round(FieldKind::Hour, f.hours);
    lemma_field_round(FieldKind::DayOfMonth, f.days_of_month);
    lemma_field_round(FieldKind::Month, f.months);
    lemma_field_round(FieldKind::DayOfWeek, f.days_of_week);
    lemma_five_words(
        field_text(FieldKind::Minute, f.minutes),
        field_text(FieldKind::Hour, f.hours),
        field_text(FieldKind::DayOfMonth, f.days_of_month),
        field_text(FieldKind::Month, f.months),
        field_text(FieldKind::DayOfWeek, f.days_of_week),
        f,
    );
}

/// What an expression is parsed into holds five listings of the right
/// kinds.
pub proof fn lemma_parsed_wf(text: Seq<u8>)
    ensures
        parsed_schedule(text) matches Ok(f) ==> f.wf(),
{
    match leading_field(FieldKind::Minute, text) {
        Ok((_, t1)) => {
            lemma_leading_field(FieldKind::Minute, text);
            match leading_field(FieldKind::Hour, t1) {
                Ok((_, t2)) => {
                    lemma_leading_field(FieldKind::Hour, t1);
                    match leading_field(FieldKind::DayOfMonth, t2) {
                        Ok((_, t3)) => {
                            lemma_leading_field(FieldKind::DayOfMonth, t2);
                            match leading_field(FieldKind::Month, t3) {
                                Ok((_, t4)) => {
                                    lemma_leading_field(FieldKind::Month, t3);
                                    lemma_leading_field(FieldKind::DayOfWeek, t4);
                                },
                                Err(_) => {},
                            }
                        },
                        Err(_) => {},
                    }
                },
                Err(_) => {},
            }
        },
        Err(_) => {},
    }
}

/// The field that a text starts with is parsed into a listing of its kind.
proof fn lemma_leading_field(kind: FieldKind, text: Seq<u8>)
    ensures
        leading_field(kind, text) matches Ok((values, rest)) ==> is_field_listing(kind, values),
{
    match next_word(text) {
        Some((word, _)) => {
            lemma_field_listing(kind, word);
        },
        None => {},
    }
}

/// The text of a parsed schedule is parsed into the same schedule: writing
/// what was read and reading what was written changes nothing any more.
pub proof fn lemma_text_stable(text: Seq<u8>)
    ensures
        parsed_schedule(text) matches Ok(f) ==> parsed_schedule(schedule_text(f)) == Ok::<
            Fields,
            Fault,
        >(f),
{
    lemma_parsed_wf(text);
    match parsed_schedule(text) {
        Ok(f) => {
            lemma_schedule_round(f);
        },
        Err(_) => {},
    }
}

} // verus!
