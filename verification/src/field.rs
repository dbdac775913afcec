//! The grammar of one field: comma-separated entries, each a wildcard, a
//! stepped series, a range or a single value.
use vstd::prelude::*;
use vstd::slice::slice_subrange;
use crate::error::InvalidExpr;
use crate::kind::FieldKind;
use crate::order::ascending;
use crate::order::lemma_ascending_gap;
use crate::order::lemma_listing_unique;
use crate::order::listing;
use crate::order::span;
use crate::order::within;
use crate::store::array_as_slice;
use crate::store::array_items;
use crate::store::array_new;
use crate::store::insert_ascending;
use crate::store::is_field_listing;
use crate::store::locate;
use crate::store::FieldSet;
use crate::text::find_byte;
use crate::text::lemma_split_unfold;
use crate::text::number_of;
use crate::text::parse_number;
use crate::text::split;
use crate::text::split_once;
use crate::text::split_pair;

verus! {

/// `,` sets the entries of a field apart.
pub const COMMA: u8 = 0x2c;

/// `*` stands for every value of a field.
pub const STAR: u8 = 0x2a;

/// `/` stands between the base and the step of a series.
pub const SLASH: u8 = 0x2f;

/// `-` stands between the bounds of a range.
pub const DASH: u8 = 0x2d;

/// The numbers `base`, `base + step`, `base + 2 * step`, … up to `hi`.
pub open spec fn stride(base: int, step: int, hi: int) -> Set<int>
    decreases
            if base <= hi {
                hi - base + 1
            } else {
                0
            },
{
    if base > hi || step <= 0 {
        Set::empty()
    } else {
        stride(base + step, step, hi).insert(base)
    }
}

/// The value that a token stands for: a decimal number within the field's
/// bounds, or, where the token is no number, the name of a value.
pub open spec fn token_value(kind: FieldKind, token: Seq<u8>) -> Result<u8, InvalidExpr> {
    match number_of(token) {
        Some(n) => if kind.holds(n as int) {
            Ok(n as u8)
        } else {
            Err(InvalidExpr::InvalidEntryRange)
        },
        None => match kind.named_value(token) {
            Some(v) => Ok(v),
            None => Err(InvalidExpr::InvalidEntryValue),
        },
    }
}

/// Where a stepped series starts: at the field's smallest value for `*`,
/// else at the value that the token stands for.
pub open spec fn series_start(kind: FieldKind, token: Seq<u8>) -> Result<u8, InvalidExpr> {
    if token == seq![STAR] {
        Ok(kind.spec_min())
    } else {
        token_value(kind, token)
    }
}

/// The values of a stepped series `base/step`.
pub open spec fn series_values(kind: FieldKind, base: Seq<u8>, step: Seq<u8>) -> Result<
    Set<int>,
    InvalidExpr,
> {
    match series_start(kind, base) {
        Err(e) => Err(e),
        Ok(start) => match number_of(step) {
            None => Err(InvalidExpr::InvalidStepValue),
            Some(n) => if n == 0 {
                Err(InvalidExpr::InvalidStepRange)
            } else {
                Ok(stride(start as int, n as int, kind.spec_max() as int))
            },
        },
    }
}

/// The values of a range `from-to`.
pub open spec fn range_values(kind: FieldKind, from: Seq<u8>, to: Seq<u8>) -> Result<
    Set<int>,
    InvalidExpr,
> {
    match (token_value(kind, from), token_value(kind, to)) {
        (Ok(a), Ok(b)) => if a > b {
            Err(InvalidExpr::InvalidRangeRev)
        } else {
            Ok(span(a as int, b as int))
        },
        _ => Err(InvalidExpr::InvalidRange),
    }
}

/// The values that one entry of a field stands for. `alone` says that the
/// entry is the field's only one, which a wildcard must be.
pub open spec fn entry_values(kind: FieldKind, entry: Seq<u8>, alone: bool) -> Result<
    Set<int>,
    InvalidExpr,
> {
    if entry == seq![STAR] {
        if alone {
            Ok(span(kind.spec_min() as int, kind.spec_max() as int))
        } else {
            Err(InvalidExpr::InvalidWildCard)
        }
    } else {
        match split_pair(entry, SLASH) {
            Some((base, step)) => series_values(kind, base, step),
            None => match split_pair(entry, DASH) {
                Some((from, to)) => range_values(kind, from, to),
                None => match token_value(kind, entry) {
                    Ok(v) => Ok(set![v as int]),
                    Err(e) => Err(e),
                },
            },
        }
    }
}

/// The values of `entries` added to `found`, or what is wrong with the
/// first entry that is wrong.
pub open spec fn gather(
    kind: FieldKind,
    entries: Seq<Seq<u8>>,
    alone: bool,
    found: Set<int>,
) -> Result<Set<int>, InvalidExpr>
    decreases entries.len(),
{
    if entries.len() == 0 {
        Ok(found)
    } else {
        match entry_values(kind, entries[0], alone) {
            Err(e) => Err(e),
            Ok(values) => gather(kind, entries.skip(1), alone, found + values),
        }
    }
}

/// The values that the text of a field allows.
pub open spec fn field_values(kind: FieldKind, text: Seq<u8>) -> Result<Set<int>, InvalidExpr> {
    let entries = split(text, COMMA);
    gather(kind, entries, entries.len() == 1, Set::empty())
}

/// What parsing the text of a field yields: its values in ascending order.
pub open spec fn field_listing(kind: FieldKind, text: Seq<u8>) -> Result<Seq<u8>, InvalidExpr> {
    match field_values(kind, text) {
        Ok(values) => Ok(listing(values, kind.spec_min() as int, kind.spec_max() as int)),
        Err(e) => Err(e),
    }
}

/// Reads the value that a token stands for.
pub fn read_value(kind: FieldKind, token: &[u8]) -> (r: Result<u8, InvalidExpr>)
    ensures
        r == token_value(kind, token@),
        r matches Ok(v) ==> kind.holds(v as int),
{
    match parse_number(token) {
        Some(n) => {
            if kind.min() as u16 <= n && n <= kind.max() as u16 {
                Ok(n as u8)
            } else {
                Err(InvalidExpr::InvalidEntryRange)
            }
        },
        None => match kind.value_named(token) {
            Some(v) => Ok(v),
            None => Err(InvalidExpr::InvalidEntryValue),
        },
    }
}

/// Whether `text` is the wildcard.
pub fn is_wildcard(text: &[u8]) -> (r: bool)
    ensures
        r == (text@ == seq![STAR]),
{
    if text.len() == 1 && text[0] == STAR {
        assert(text@ =~= seq![STAR]);
        true
    } else {
        assert(seq![STAR].len() == 1 && seq![STAR][0] == STAR);
        false
    }
}

/// The array holds the members of `found`, which are values of the field,
/// in ascending order.
pub open spec fn holds_exactly(items: Seq<u8>, kind: FieldKind, found: Set<int>) -> bool {
    &&& ascending(items)
    &&& forall|v: int| found.contains(v) ==> kind.holds(v)
    &&& forall|v: int|
        kind.holds(v) && found.contains(v) <==> 0 <= v < 256 && #[trigger] items.contains(v as u8)
}

/// An array that holds a set in order holds its listing.
pub proof fn lemma_holds_within(items: Seq<u8>, kind: FieldKind, found: Set<int>)
    requires
        holds_exactly(items, kind, found),
    ensures
        within(items, kind.spec_min() as int, kind.spec_max() as int),
        items == listing(found, kind.spec_min() as int, kind.spec_max() as int),
{
    assert forall|i: int| 0 <= i < items.len() implies kind.spec_min() <= #[trigger] items[i]
        <= kind.spec_max() by {
        assert(items.contains(items[i] as int as u8));
    }
    lemma_listing_unique(items, found, kind.spec_min() as int, kind.spec_max() as int);
}

/// A series is empty past its end and starts with its base.
pub proof fn lemma_stride_unfold(base: int, step: int, hi: int)
    ensures
        base > hi ==> stride(base, step, hi) == Set::<int>::empty(),
        base <= hi && step > 0 ==> stride(base, step, hi) == stride(base + step, step, hi).insert(
            base,
        ),
{
}

/// A series stays between its base and its end.
pub proof fn lemma_stride_bounds(base: int, step: int, hi: int)
    ensures
        forall|v: int| stride(base, step, hi).contains(v) ==> base <= v <= hi,
        base <= hi && step > 0 ==> stride(base, step, hi).contains(base),
    decreases
            if base <= hi {
                hi - base + 1
            } else {
                0
            },
{
    if base > hi || step <= 0 {
    } else {
        lemma_stride_bounds(base + step, step, hi);
        let rest = stride(base + step, step, hi);
        assert forall|v: int| stride(base, step, hi).contains(v) implies base <= v <= hi by {
            assert(rest.insert(base).contains(v));
            if v != base {
                assert(rest.contains(v));
            }
        }
    }
}

/// A series with step one is a range.
pub proof fn lemma_stride_one(base: int, hi: int)
    ensures
        stride(base, 1, hi) == span(base, hi),
    decreases
            if base <= hi {
                hi - base + 1
            } else {
                0
            },
{
    if base > hi {
        assert(stride(base, 1, hi) =~= span(base, hi));
    } else {
        lemma_stride_one(base + 1, hi);
        assert(stride(base, 1, hi) =~= span(base, hi));
    }
}

/// A step that leads past the end leaves only the base.
pub proof fn lemma_stride_long(base: int, step: int, other: int, hi: int)
    requires
        base <= hi,
        step > hi - base,
        other > hi - base,
    ensures
        stride(base, step, hi) == stride(base, other, hi),
{
    lemma_stride_unfold(base, step, hi);
    lemma_stride_unfold(base, other, hi);
    lemma_stride_unfold(base + step, step, hi);
    lemma_stride_unfold(base + other, other, hi);
}

/// No entry fails for want of room.
pub proof fn lemma_entry_values(kind: FieldKind, entry: Seq<u8>, alone: bool)
    ensures
        entry_values(kind, entry, alone) != Err::<Set<int>, InvalidExpr>(
            InvalidExpr::ParserOverflow,
        ),
{
}

/// A token stands for a value of the field or for nothing.
pub proof fn lemma_token_bounds(kind: FieldKind, token: Seq<u8>)
    ensures
        token_value(kind, token) matches Ok(v) ==> kind.holds(v as int),
{
    if kind.spec_named() && token.len() == 3 {
        kind.lemma_name_lookup(crate::text::upper_all(token), kind.spec_min() as int);
    }
}

/// The values of an entry are values of the field, and there is at least
/// one.
pub proof fn lemma_entry_bounds(kind: FieldKind, entry: Seq<u8>, alone: bool)
    ensures
        entry_values(kind, entry, alone) matches Ok(values) ==> (forall|v: int|
            values.contains(v) ==> kind.holds(v)) && exists|v: int| values.contains(v),
{
    let lo = kind.spec_min() as int;
    let hi = kind.spec_max() as int;
    match entry_values(kind, entry, alone) {
        Ok(values) => {
            if entry == seq![STAR] {
                assert(values.contains(lo));
            } else {
                match split_pair(entry, SLASH) {
                    Some((base, step)) => {
                        lemma_token_bounds(kind, base);
                        let start = series_start(kind, base).unwrap() as int;
                        let n = number_of(step).unwrap() as int;
                        lemma_stride_bounds(start, n, hi);
                    },
                    None => match split_pair(entry, DASH) {
                        Some((from, to)) => {
                            lemma_token_bounds(kind, from);
                            lemma_token_bounds(kind, to);
                            assert(values.contains(token_value(kind, from).unwrap() as int));
                        },
                        None => {
                            lemma_token_bounds(kind, entry);
                            assert(values.contains(token_value(kind, entry).unwrap() as int));
                        },
                    },
                }
            }
        },
        Err(_) => {},
    }
}

/// What is gathered from entries holds what was found before and values of
/// the field, and something where there is an entry.
pub proof fn lemma_gather_bounds(
    kind: FieldKind,
    entries: Seq<Seq<u8>>,
    alone: bool,
    found: Set<int>,
)
    requires
        forall|v: int| found.contains(v) ==> kind.holds(v),
    ensures
        gather(kind, entries, alone, found) matches Ok(all) ==> (forall|v: int|
            all.contains(v) ==> kind.holds(v)) && (forall|v: int|
            found.contains(v) ==> all.contains(v)) && (entries.len() > 0 ==> exists|v: int|
            all.contains(v)),
    decreases entries.len(),
{
    if entries.len() > 0 {
        lemma_entry_bounds(kind, entries[0], alone);
        match entry_values(kind, entries[0], alone) {
            Ok(values) => {
                lemma_gather_bounds(kind, entries.skip(1), alone, found + values);
                match gather(kind, entries.skip(1), alone, found + values) {
                    Ok(all) => {
                        let v = choose|v: int| values.contains(v);
                        assert((found + values).contains(v));
                        assert(all.contains(v));
                    },
                    Err(_) => {},
                }
            },
            Err(_) => {},
        }
    }
}

/// Whatever text a field is parsed from, its values are at least one, all
/// within the field's bounds, ascending and without repeats.
pub proof fn lemma_field_listing(kind: FieldKind, text: Seq<u8>)
    ensures
        field_listing(kind, text) matches Ok(values) ==> is_field_listing(kind, values),
{
    let lo = kind.spec_min() as int;
    let hi = kind.spec_max() as int;
    let entries = split(text, COMMA);
    lemma_split_unfold(text, COMMA);
    lemma_gather_bounds(kind, entries, entries.len() == 1, Set::empty());
    match field_values(kind, text) {
        Ok(all) => {
            crate::order::lemma_listing(all, lo, hi);
            let v = choose|v: int| all.contains(v);
            assert(listing(all, lo, hi).contains(v as u8));
        },
        Err(_) => {},
    }
}

/// Adds the series `start`, `start + step`, … up to `hi` to the array.
fn add_series(
    acc: &mut statiki::Array<u8, 60>,
    kind: FieldKind,
    start: u8,
    step: u16,
    hi: u8,
    Ghost(found): Ghost<Set<int>>,
)
    requires
        holds_exactly(array_items(*old(acc)), kind, found),
        kind.spec_min() <= start <= hi <= kind.spec_max(),
        1 <= step <= 256,
    ensures
        holds_exactly(
            array_items(*final(acc)),
            kind,
            found + stride(start as int, step as int, hi as int),
        ),
{
    let mut v: u16 = start as u16;
    let ghost mut cur = found;
    while v <= hi as u16
        invariant
            holds_exactly(array_items(*acc), kind, cur),
            kind.spec_min() <= start <= v,
            v <= hi + step,
            hi <= kind.spec_max(),
            1 <= step <= 256,
            cur + stride(v as int, step as int, hi as int) =~= found + stride(
                start as int,
                step as int,
                hi as int,
            ),
        decreases hi + step - v,
    {
        let x = v as u8;
        let ghost before = array_items(*acc);
        proof {
            lemma_holds_within(before, kind, cur);
            lemma_stride_unfold(v as int, step as int, hi as int);
        }
        let at = locate(array_as_slice(acc), x);
        if at.is_err() {
            proof {
                lemma_ascending_gap(
                    before,
                    kind.spec_min() as int,
                    kind.spec_max() as int,
                    x,
                );
            }
            insert_ascending(acc, x);
        }
        proof {
            let after = array_items(*acc);
            let next = cur.insert(x as int);
            assert forall|w: int| kind.holds(w) && next.contains(w) <==> 0 <= w < 256
                && #[trigger] after.contains(w as u8) by {
                if 0 <= w < 256 {
                    let b = w as u8;
                    if w != x {
                        assert(before.contains(b) <==> after.contains(b));
                    } else {
                        assert(after.contains(x));
                    }
                }
            }
            cur = next;
        }
        v = v + step;
    }
    proof {
        lemma_stride_unfold(v as int, step as int, hi as int);
    }
}

/// Adds the values of one entry to the array.
fn add_entry(
    acc: &mut statiki::Array<u8, 60>,
    kind: FieldKind,
    entry: &[u8],
    alone: bool,
    Ghost(found): Ghost<Set<int>>,
) -> (r: Result<(), InvalidExpr>)
    requires
        holds_exactly(array_items(*old(acc)), kind, found),
    ensures
        match entry_values(kind, entry@, alone) {
            Ok(values) => r is Ok && holds_exactly(array_items(*final(acc)), kind, found + values)
                && array_items(*final(acc)).len() > 0,
            Err(e) => r == Err::<(), InvalidExpr>(e),
        },
{
    if is_wildcard(entry) {
        if !alone {
            return Err(InvalidExpr::InvalidWildCard);
        }
        proof {
            lemma_stride_one(kind.spec_min() as int, kind.spec_max() as int);
            lemma_stride_bounds(kind.spec_min() as int, 1, kind.spec_max() as int);
        }
        add_series(acc, kind, kind.min(), 1, kind.max(), Ghost(found));
        proof {
            assert(array_items(*acc).contains(kind.spec_min() as int as u8));
        }
        return Ok(());
    }
    if let Some((base, step_text)) = split_once(entry, SLASH) {
        let start = if is_wildcard(base) {
            kind.min()
        } else {
            match read_value(kind, base) {
                Ok(v) => v,
                Err(e) => {
                    return Err(e);
                },
            }
        };
        let step = match parse_number(step_text) {
            Some(n) => n,
            None => {
                return Err(InvalidExpr::InvalidStepValue);
            },
        };
        if step == 0 {
            return Err(InvalidExpr::InvalidStepRange);
        }
        proof {
            let n = number_of(step_text@).unwrap();
            if n >= 256 {
                lemma_stride_long(start as int, n as int, 256, kind.spec_max() as int);
            }
            lemma_stride_bounds(start as int, step as int, kind.spec_max() as int);
        }
        add_series(acc, kind, start, step, kind.max(), Ghost(found));
        proof {
            assert(array_items(*acc).contains(start as int as u8));
        }
        return Ok(());
    }
    if let Some((from, to)) = split_once(entry, DASH) {
        let a = match read_value(kind, from) {
            Ok(v) => v,
            Err(_) => {
                return Err(InvalidExpr::InvalidRange);
            },
        };
        let b = match read_value(kind, to) {
            Ok(v) => v,
            Err(_) => {
                return Err(InvalidExpr::InvalidRange);
            },
        };
        if a > b {
            return Err(InvalidExpr::InvalidRangeRev);
        }
        proof {
            lemma_stride_one(a as int, b as int);
            lemma_stride_bounds(a as int, 1, b as int);
        }
        add_series(acc, kind, a, 1, b, Ghost(found));
        proof {
            assert(array_items(*acc).contains(a as int as u8));
        }
        return Ok(());
    }
    match read_value(kind, entry) {
        Ok(v) => {
            proof {
                lemma_stride_one(v as int, v as int);
                lemma_stride_bounds(v as int, 1, v as int);
                assert(span(v as int, v as int) =~= set![v as int]);
            }
            add_series(acc, kind, v, 1, v, Ghost(found));
            proof {
                assert(array_items(*acc).contains(v as int as u8));
            }
            Ok(())
        },
        Err(e) => Err(e),
    }
}

/// Parses the text of one field into its values.
///
/// The entries are read from left to right, and the first one that is wrong
/// decides the error. [`InvalidExpr::ParserOverflow`] is never returned.
pub fn parse_field(kind: FieldKind, text: &[u8]) -> (r: Result<FieldSet, InvalidExpr>)
    ensures
        match field_listing(kind, text@) {
            Ok(values) => r matches Ok(set) && set@ == values && set.spec_kind() == kind
                && set.wf(),
            Err(e) => r matches Err(x) && x == e,
        },
        !(r matches Err(InvalidExpr::ParserOverflow)),
{
    let mut acc = array_new();
    let ghost mut found: Set<int> = Set::empty();
    let alone = find_byte(text, COMMA) >= text.len();
    let mut rest = text;
    proof {
        lemma_split_unfold(text@, COMMA);
    }
    loop
        invariant
            holds_exactly(array_items(acc), kind, found),
            field_values(kind, text@) == gather(kind, split(rest@, COMMA), alone, found),
        decreases rest@.len(),
    {
        let i = find_byte(rest, COMMA);
        let last = i >= rest.len();
        let entry = if last {
            rest
        } else {
            slice_subrange(rest, 0, i)
        };
        proof {
            lemma_split_unfold(rest@, COMMA);
            assert(rest@.take(rest@.len() as int) =~= rest@);
            lemma_entry_values(kind, entry@, alone);
        }
        match add_entry(&mut acc, kind, entry, alone, Ghost(found)) {
            Err(e) => {
                proof {
                    lemma_entry_values(kind, entry@, alone);
                }
                return Err(e);
            },
            Ok(_) => {},
        }
        proof {
            found = found + entry_values(kind, entry@, alone).unwrap();
        }
        if last {
            proof {
                lemma_holds_within(array_items(acc), kind, found);
            }
            return Ok(FieldSet::from_array(kind, acc));
        }
        rest = slice_subrange(rest, i + 1, rest.len());
    }
}

} // verus!
