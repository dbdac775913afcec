//! What holds of the grammar whatever the field: wildcards, single numbers,
//! lists of numbers and series.
use vstd::prelude::*;
use crate::error::InvalidExpr;
use crate::field::entry_values;
use crate::field::field_listing;
use crate::field::field_values;
use crate::field::gather;
use crate::field::series_values;
use crate::field::stride;
use crate::field::token_value;
use crate::field::COMMA;
use crate::field::SLASH;
use crate::field::STAR;
use crate::format::digits_of;
use crate::glyph::lemma_digits_round;
use crate::glyph::plain_word;
use crate::kind::FieldKind;
use crate::order::ascending;
use crate::order::lemma_listing;
use crate::order::lemma_listing_agrees;
use crate::order::lemma_listing_span;
use crate::order::lemma_listing_unique;
use crate::order::listing;
use crate::order::span;
use crate::roundtrip::lemma_word_entry;
use crate::roundtrip::lemma_word_marks;
use crate::roundtrip::members_from;
use crate::text::lemma_first_index_absent;
use crate::text::lemma_first_index_bounds;
use crate::text::lemma_first_index_is;
use crate::text::lemma_split_unfold;
use crate::text::number_of;
use crate::text::split;
use crate::text::split_pair;

verus! {

/// For every field, `*` is read as every value of the field, from the
/// smallest to the greatest, each one more than the one before.
pub proof fn lemma_wildcard(kind: FieldKind)
    ensures
        field_listing(kind, seq![STAR]) matches Ok(values) && values.len() == kind.spec_size()
            && forall|i: int|
            0 <= i < values.len() ==> #[trigger] values[i] == kind.spec_min() + i,
{
    let lo = kind.spec_min() as int;
    let hi = kind.spec_max() as int;
    let star = seq![STAR];
    assert(star[0] == STAR);
    lemma_first_index_is(star, COMMA, 1);
    lemma_split_unfold(star, COMMA);
    let entries = split(star, COMMA);
    assert(entries == seq![star]);
    assert(entries.skip(1).len() == 0);
    let all = Set::<int>::empty() + span(lo, hi);
    assert(gather(kind, entries.skip(1), true, all) == Ok::<Set<int>, InvalidExpr>(all));
    assert(field_values(kind, star) == Ok::<Set<int>, InvalidExpr>(all));
    lemma_listing_agrees(all, span(lo, hi), lo, hi);
    lemma_listing_span(lo, hi);
}

/// For every field and every value of it, the decimal number of the value
/// is read as that value alone.
pub proof fn lemma_single_number(kind: FieldKind, v: int)
    requires
        kind.holds(v),
    ensures
        field_listing(kind, digits_of(v)) == Ok::<Seq<u8>, InvalidExpr>(seq![v as u8]),
{
    let lo = kind.spec_min() as int;
    let hi = kind.spec_max() as int;
    let word = digits_of(v);
    lemma_digits_round(v);
    lemma_word_entry(kind, word, v as u8, true);
    let entries = split(word, COMMA);
    assert(entries.skip(1).len() == 0);
    let all = Set::<int>::empty() + set![v];
    assert(gather(kind, entries.skip(1), true, all) == Ok::<Set<int>, InvalidExpr>(all));
    assert(field_values(kind, word) == Ok::<Set<int>, InvalidExpr>(all));
    let s = seq![v as u8];
    assert forall|w: int| lo <= w <= hi && all.contains(w) <==> 0 <= w < 256
        && #[trigger] s.contains(w as u8) by {
        if w == v {
            assert(s[0] == v as u8);
        }
    }
    lemma_listing_unique(s, all, lo, hi);
}

/// The numbers from position `i` on, written in decimal with commas
/// between.
pub open spec fn numbers_text(numbers: Seq<u8>, i: int) -> Seq<u8>
    decreases numbers.len() - i,
{
    if 0 <= i < numbers.len() {
        if i + 1 < numbers.len() {
            digits_of(numbers[i] as int) + seq![COMMA] + numbers_text(numbers, i + 1)
        } else {
            digits_of(numbers[i] as int)
        }
    } else {
        Seq::empty()
    }
}

/// A list of numbers from position `i` on is read as the numbers in it.
proof fn lemma_numbers_gather(
    kind: FieldKind,
    numbers: Seq<u8>,
    i: int,
    alone: bool,
    found: Set<int>,
)
    requires
        0 <= i < numbers.len(),
        forall|k: int| 0 <= k < numbers.len() ==> kind.holds(#[trigger] numbers[k] as int),
    ensures
        gather(kind, split(numbers_text(numbers, i), COMMA), alone, found) == Ok::<
            Set<int>,
            InvalidExpr,
        >(found + members_from(numbers, i)),
    decreases numbers.len() - i,
{
    let v = numbers[i];
    assert(kind.holds(v as int));
    let head = digits_of(v as int);
    lemma_digits_round(v as int);
    lemma_word_entry(kind, head, v, alone);
    let values = set![v as int];
    let text = numbers_text(numbers, i);
    if i + 1 < numbers.len() {
        let rest = numbers_text(numbers, i + 1);
        let n = head.len() as int;
        lemma_first_index_absent(head, COMMA);
        lemma_first_index_bounds(head, COMMA);
        assert forall|k: int| 0 <= k < n implies text[k] != COMMA by {
            assert(text[k] == head[k]);
        }
        assert(text[n] == COMMA);
        lemma_first_index_is(text, COMMA, n);
        lemma_split_unfold(text, COMMA);
        assert(text.take(n) =~= head);
        assert(text.skip(n + 1) =~= rest);
        lemma_numbers_gather(kind, numbers, i + 1, alone, found + values);
        assert(found + values + members_from(numbers, i + 1) =~= found + members_from(numbers, i))
            by {
            assert forall|w: int|
                (found + values + members_from(numbers, i + 1)).contains(w) <==> (found
                    + members_from(numbers, i)).contains(w) by {
                if values.contains(w) {
                    assert(numbers[i] == w);
                }
                if members_from(numbers, i + 1).contains(w) {
                    let k = choose|k: int| i + 1 <= k < numbers.len() && #[trigger] numbers[k] == w;
                    assert(i <= k < numbers.len() && numbers[k] == w);
                }
                if members_from(numbers, i).contains(w) {
                    let k = choose|k: int| i <= k < numbers.len() && #[trigger] numbers[k] == w;
                    if k > i {
                        assert(i + 1 <= k < numbers.len() && numbers[k] == w);
                        assert(members_from(numbers, i + 1).contains(w));
                    }
                }
            }
        }
    } else {
        let entries = split(text, COMMA);
        assert(entries.skip(1).len() == 0);
        assert(gather(kind, entries.skip(1), alone, found + values) == Ok::<
            Set<int>,
            InvalidExpr,
        >(found + values));
        assert(found + values =~= found + members_from(numbers, i)) by {
            assert forall|w: int|
                (found + values).contains(w) <==> (found + members_from(numbers, i)).contains(
                    w,
                ) by {
                if values.contains(w) {
                    assert(numbers[i] == w);
                }
                if members_from(numbers, i).contains(w) {
                    let k = choose|k: int| i <= k < numbers.len() && #[trigger] numbers[k] == w;
                    assert(k == i);
                }
            }
        }
    }
}

/// For every field, a list of numbers of its values, in any order and with
/// repeats, is read as those values in ascending order, each once: the
/// result holds as many values as the list holds different ones.
pub proof fn lemma_number_list(kind: FieldKind, numbers: Seq<u8>)
    requires
        numbers.len() > 0,
        forall|k: int| 0 <= k < numbers.len() ==> kind.holds(#[trigger] numbers[k] as int),
    ensures
        field_listing(kind, numbers_text(numbers, 0)) matches Ok(values) && ascending(values)
            && values.to_set() == numbers.to_set() && values.len() == numbers.to_set().len(),
{
    let lo = kind.spec_min() as int;
    let hi = kind.spec_max() as int;
    let text = numbers_text(numbers, 0);
    let alone = split(text, COMMA).len() == 1;
    lemma_numbers_gather(kind, numbers, 0, alone, Set::empty());
    let all = Set::<int>::empty() + members_from(numbers, 0);
    let values = listing(all, lo, hi);
    lemma_listing(all, lo, hi);
    assert forall|b: u8| values.contains(b) <==> numbers.contains(b) by {
        if values.contains(b) {
            assert(values.contains(b as int as u8));
            assert(all.contains(b as int));
            let k = choose|k: int| 0 <= k < numbers.len() && #[trigger] numbers[k] == b as int;
            assert(numbers[k] == b);
        }
        if numbers.contains(b) {
            let k = choose|k: int| 0 <= k < numbers.len() && numbers[k] == b;
            assert(kind.holds(numbers[k] as int));
            assert(members_from(numbers, 0).contains(b as int));
            assert(values.contains(b as int as u8));
        }
    }
    assert(values.to_set() =~= numbers.to_set());
    assert(values.no_duplicates()) by {
        assert forall|i: int, j: int|
            0 <= i < values.len() && 0 <= j < values.len() && i != j implies values[i]
            != values[j] by {
            if i < j {
                assert(values[i] < values[j]);
            } else {
                assert(values[j] < values[i]);
            }
        }
    }
    values.unique_seq_to_set();
}

/// The members of a series are its base and the numbers some steps above
/// it, up to the end.
pub proof fn lemma_stride_members(base: int, step: int, hi: int, v: int)
    requires
        step >= 1,
    ensures
        stride(base, step, hi).contains(v) <==> base <= v <= hi && exists|k: int|
            0 <= k && v == base + #[trigger] (k * step),
    decreases
            if base <= hi {
                hi - base + 1
            } else {
                0
            },
{
    if base <= hi {
        lemma_stride_members(base + step, step, hi, v);
        let rest = stride(base + step, step, hi);
        assert(stride(base, step, hi) == rest.insert(base));
        if stride(base, step, hi).contains(v) {
            if v == base {
                assert(v == base + 0 * step);
            } else {
                assert(rest.contains(v));
                let k = choose|k: int| 0 <= k && v == base + step + #[trigger] (k * step);
                assert((k + 1) * step == k * step + step) by (nonlinear_arith);
                assert(v == base + (k + 1) * step);
            }
        }
        if base <= v <= hi && exists|k: int| 0 <= k && v == base + #[trigger] (k * step) {
            let k = choose|k: int| 0 <= k && v == base + #[trigger] (k * step);
            if k == 0 {
                assert(v == base);
            } else {
                assert((k - 1) * step == k * step - step) by (nonlinear_arith);
                assert((k - 1) * step >= 0) by (nonlinear_arith)
                    requires
                        k >= 1,
                        step >= 1,
                ;
                assert(v == base + step + (k - 1) * step);
                assert(rest.contains(v));
            }
        }
    }
}

/// The ascending listing of a series counts up from the base in steps, as
/// far as the end allows.
pub proof fn lemma_stride_listing(base: int, step: int, lo: int, hi: int, i: int)
    requires
        0 <= lo <= base <= hi < 256,
        step >= 1,
        0 <= i < listing(stride(base, step, hi), lo, hi).len(),
    ensures
        listing(stride(base, step, hi), lo, hi)[i] == base + i * step,
    decreases i,
{
    let set = stride(base, step, hi);
    let s = listing(set, lo, hi);
    lemma_listing(set, lo, hi);
    crate::field::lemma_stride_bounds(base, step, hi);
    // every element is a member, and every member is an element
    assert forall|j: int| 0 <= j < s.len() implies set.contains(#[trigger] s[j] as int) by {
        assert(s.contains(s[j] as int as u8));
    }
    if i == 0 {
        assert(s.contains(base as u8));
        let j = choose|j: int| 0 <= j < s.len() && s[j] == base as u8;
        if j > 0 {
            assert(s[0] < s[j]);
        }
        assert(set.contains(s[0] as int));
        assert(0 * step == 0);
    } else {
        lemma_stride_listing(base, step, lo, hi, i - 1);
        let prev = base + (i - 1) * step;
        let next = base + i * step;
        assert(i * step == (i - 1) * step + step) by (nonlinear_arith);
        assert(s[i - 1] < s[i]);
        lemma_stride_members(base, step, hi, s[i] as int);
        let k = choose|k: int| 0 <= k && s[i] as int == base + #[trigger] (k * step);
        assert(k >= i) by (nonlinear_arith)
            requires
                base + k * step > base + (i - 1) * step,
                step >= 1,
        ;
        assert(k * step >= i * step) by (nonlinear_arith)
            requires
                k >= i,
                step >= 1,
        ;
        assert(next <= s[i]);
        assert(next <= hi);
        assert(i * step >= 0) by (nonlinear_arith)
            requires
                i >= 0,
                step >= 1,
        ;
        lemma_stride_members(base, step, hi, next);
        assert(set.contains(next));
        assert(s.contains(next as u8));
        let j = choose|j: int| 0 <= j < s.len() && s[j] == next as u8;
        if j < i {
            if j < i - 1 {
                assert(s[j] < s[i - 1]);
            }
        } else if j > i {
            assert(s[i] < s[j]);
        }
    }
}

/// The step after the last element of the listing of a series leads past
/// the end.
pub proof fn lemma_stride_listing_end(base: int, step: int, lo: int, hi: int)
    requires
        0 <= lo <= base <= hi < 256,
        step >= 1,
    ensures
        listing(stride(base, step, hi), lo, hi).len() >= 1,
        base + listing(stride(base, step, hi), lo, hi).len() * step > hi,
{
    let set = stride(base, step, hi);
    let s = listing(set, lo, hi);
    lemma_listing(set, lo, hi);
    crate::field::lemma_stride_bounds(base, step, hi);
    assert(s.contains(base as u8));
    let n = s.len() as int;
    lemma_stride_listing(base, step, lo, hi, n - 1);
    let after = base + n * step;
    assert(n * step == (n - 1) * step + step) by (nonlinear_arith);
    if after <= hi {
        assert(n * step >= 0) by (nonlinear_arith)
            requires
                n >= 0,
                step >= 1,
        ;
        lemma_stride_members(base, step, hi, after);
        assert(set.contains(after));
        assert(s.contains(after as u8));
        let j = choose|j: int| 0 <= j < s.len() && s[j] == after as u8;
        if j < n - 1 {
            assert(s[j] < s[n - 1]);
        }
    }
}

/// What a series with the given base and step is read as, where the base
/// is `*` or a word of digits and letters.
proof fn lemma_series_text(kind: FieldKind, base: Seq<u8>, step: int)
    requires
        0 <= step < 100,
        base == seq![STAR] || plain_word(base),
    ensures
        field_values(kind, base + seq![SLASH] + digits_of(step)) == match series_values(
            kind,
            base,
            digits_of(step),
        ) {
            Ok(values) => Ok::<Set<int>, InvalidExpr>(Set::<int>::empty() + values),
            Err(e) => Err::<Set<int>, InvalidExpr>(e),
        },
        number_of(digits_of(step)) == Some(step as nat),
{
    let digits = digits_of(step);
    let text = base + seq![SLASH] + digits;
    let n = base.len() as int;
    lemma_digits_round(step);
    lemma_word_marks(digits);
    if plain_word(base) {
        lemma_word_marks(base);
    }
    assert(base[0] == text[0]);
    assert forall|k: int| 0 <= k < text.len() implies text[k] != COMMA && (k != n ==> text[k]
        != SLASH) by {
        if k < n {
            assert(text[k] == base[k]);
            if plain_word(base) {
                crate::glyph::lemma_plain(base[k]);
            }
        } else if k > n {
            assert(text[k] == digits[k - n - 1]);
            crate::glyph::lemma_plain(digits[k - n - 1]);
        }
    }
    lemma_first_index_is(text, COMMA, text.len() as int);
    lemma_split_unfold(text, COMMA);
    let entries = split(text, COMMA);
    assert(entries == seq![text]);
    assert(entries.skip(1).len() == 0);
    assert(text != seq![STAR]) by {
        assert(text.len() >= 3);
        assert(seq![STAR].len() == 1);
    }
    assert(text[n] == SLASH);
    lemma_first_index_is(text, SLASH, n);
    assert(text.skip(n + 1) =~= digits);
    assert(text.take(n) =~= base);
    lemma_first_index_absent(text.skip(n + 1), SLASH);
    assert(split_pair(text, SLASH) == Some((base, digits)));
    assert(entry_values(kind, text, true) == series_values(kind, base, digits));
    match series_values(kind, base, digits) {
        Ok(values) => {
            let all = Set::<int>::empty() + values;
            assert(gather(kind, entries.skip(1), true, all) == Ok::<Set<int>, InvalidExpr>(all));
        },
        Err(_) => {},
    }
}

/// Whether `values` counts from `base` in steps of `step` as far as `hi`
/// allows.
pub open spec fn counts_up(values: Seq<u8>, base: int, step: int, hi: int) -> bool {
    &&& values.len() >= 1
    &&& forall|i: int| 0 <= i < values.len() ==> #[trigger] values[i] == base + i * step
    &&& base + values.len() * step > hi
}

/// For every field and every step from 1 to 99, `*/step` is read as the
/// field's smallest value and every `step`-th value after it, as far as
/// the field's greatest value allows; `*/0` is refused because the step is
/// zero.
pub proof fn lemma_wildcard_series(kind: FieldKind, step: int)
    requires
        0 <= step < 100,
    ensures
        match field_listing(kind, seq![STAR, SLASH] + digits_of(step)) {
            Ok(values) => step > 0 && counts_up(
                values,
                kind.spec_min() as int,
                step,
                kind.spec_max() as int,
            ),
            Err(e) => step == 0 && e == InvalidExpr::InvalidStepRange,
        },
{
    let lo = kind.spec_min() as int;
    let hi = kind.spec_max() as int;
    let star = seq![STAR];
    assert(seq![STAR, SLASH] + digits_of(step) =~= star + seq![SLASH] + digits_of(step));
    lemma_series_text(kind, star, step);
    if step != 0 {
        let values = stride(lo, step, hi);
        lemma_listing_agrees(Set::<int>::empty() + values, values, lo, hi);
        lemma_stride_listing_end(lo, step, lo, hi);
        assert forall|i: int| 0 <= i < listing(values, lo, hi).len() implies #[trigger] listing(
            values,
            lo,
            hi,
        )[i] == lo + i * step by {
            lemma_stride_listing(lo, step, lo, hi, i);
        }
    }
}

/// For every field, every value of it and every step from 1 to 99, the
/// series written with the number of the value as its base is read as that
/// value and every `step`-th value after it; a step of 0 is refused.
pub proof fn lemma_number_series(kind: FieldKind, base: int, step: int)
    requires
        kind.holds(base),
        0 <= step < 100,
    ensures
        match field_listing(kind, digits_of(base) + seq![SLASH] + digits_of(step)) {
            Ok(values) => step > 0 && counts_up(values, base, step, kind.spec_max() as int),
            Err(e) => step == 0 && e == InvalidExpr::InvalidStepRange,
        },
{
    let lo = kind.spec_min() as int;
    let hi = kind.spec_max() as int;
    let word = digits_of(base);
    lemma_digits_round(base);
    lemma_word_marks(word);
    lemma_series_text(kind, word, step);
    assert(token_value(kind, word) == Ok::<u8, InvalidExpr>(base as u8));
    if step != 0 {
        let values = stride(base, step, hi);
        lemma_listing_agrees(Set::<int>::empty() + values, values, lo, hi);
        lemma_stride_listing_end(base, step, lo, hi);
        assert forall|i: int| 0 <= i < listing(values, lo, hi).len() implies #[trigger] listing(
            values,
            lo,
            hi,
        )[i] == base + i * step by {
            lemma_stride_listing(base, step, lo, hi, i);
        }
    }
}

} // verus!
