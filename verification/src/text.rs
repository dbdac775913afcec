//! Byte-level building blocks of the expression grammar: separators,
//! decimal numbers and letter case.
use vstd::prelude::*;
use vstd::slice::slice_subrange;

verus! {

/// Position of the first `sep` in `s`; `s.len()` when `s` holds none.
pub open spec fn first_index(s: Seq<u8>, sep: u8) -> int
    decreases s.len(),
{
    if s.len() == 0 || s[0] == sep {
        0
    } else {
        1 + first_index(s.skip(1), sep)
    }
}

/// The pieces of `s` between occurrences of `sep`, in order. There is always
/// at least one piece, and pieces may be empty.
pub open spec fn split(s: Seq<u8>, sep: u8) -> Seq<Seq<u8>>
    decreases s.len(),
{
    let i = first_index(s, sep);
    if 0 <= i < s.len() {
        seq![s.take(i)] + split(s.skip(i + 1), sep)
    } else {
        seq![s]
    }
}

/// The two sides of the only `sep` in `s`, when `s` holds exactly one.
pub open spec fn split_pair(s: Seq<u8>, sep: u8) -> Option<(Seq<u8>, Seq<u8>)> {
    let i = first_index(s, sep);
    if 0 <= i < s.len() && !s.skip(i + 1).contains(sep) {
        Some((s.take(i), s.skip(i + 1)))
    } else {
        None
    }
}

/// A decimal digit.
pub open spec fn is_digit(b: u8) -> bool {
    0x30 <= b <= 0x39
}

/// A non-empty run of decimal digits.
pub open spec fn all_digits(s: Seq<u8>) -> bool {
    s.len() > 0 && forall|i: int| 0 <= i < s.len() ==> is_digit(#[trigger] s[i])
}

/// The number that a run of decimal digits denotes.
pub open spec fn digits_value(s: Seq<u8>) -> nat
    decreases s.len(),
{
    if s.len() == 0 {
        0
    } else {
        digits_value(s.drop_last()) * 10 + (s.last() - 0x30) as nat
    }
}

/// The number written in `s`, if `s` is a decimal number: digits only, at
/// least one, leading zeros allowed, no sign.
pub open spec fn number_of(s: Seq<u8>) -> Option<nat> {
    if all_digits(s) {
        Some(digits_value(s))
    } else {
        None
    }
}

/// Greatest number that [`parse_number`] tells apart from larger ones.
pub const NUMBER_CAP: u16 = 256;

/// `n`, or [`NUMBER_CAP`] when `n` is larger than that.
pub open spec fn capped(n: nat) -> nat {
    if n < NUMBER_CAP {
        n
    } else {
        NUMBER_CAP as nat
    }
}

/// ASCII upper case of one byte.
pub open spec fn upper(b: u8) -> u8 {
    if 0x61 <= b <= 0x7a {
        (b - 0x20) as u8
    } else {
        b
    }
}

/// ASCII upper case of every byte of `s`.
pub open spec fn upper_all(s: Seq<u8>) -> Seq<u8> {
    s.map_values(|b: u8| upper(b))
}

/// Number of bytes of the white space character that `s` starts with, or 0
/// where it starts with none. White space is what Unicode calls so, in its
/// UTF-8 encoding: the ASCII controls 9 to 13, the space, and the
/// characters U+0085, U+00A0, U+1680, U+2000 to U+200A, U+2028, U+2029,
/// U+202F, U+205F and U+3000.
pub open spec fn space_len(s: Seq<u8>) -> int {
    if s.len() >= 1 && (0x09 <= s[0] <= 0x0d || s[0] == 0x20) {
        1
    } else if s.len() >= 2 && s[0] == 0xc2 && (s[1] == 0x85 || s[1] == 0xa0) {
        2
    } else if s.len() >= 3 && s[0] == 0xe1 && s[1] == 0x9a && s[2] == 0x80 {
        3
    } else if s.len() >= 3 && s[0] == 0xe2 && s[1] == 0x80 && (0x80 <= s[2] <= 0x8a || s[2]
        == 0xa8 || s[2] == 0xa9 || s[2] == 0xaf) {
        3
    } else if s.len() >= 3 && s[0] == 0xe2 && s[1] == 0x81 && s[2] == 0x9f {
        3
    } else if s.len() >= 3 && s[0] == 0xe3 && s[1] == 0x80 && s[2] == 0x80 {
        3
    } else {
        0
    }
}

/// Number of bytes of white space that `s` starts with.
pub open spec fn blank_len(s: Seq<u8>) -> int
    decreases s.len(),
{
    let n = space_len(s);
    if n > 0 {
        n + blank_len(s.skip(n))
    } else {
        0
    }
}

/// Number of bytes in `s` before its first white space character.
pub open spec fn word_len(s: Seq<u8>) -> int
    decreases s.len(),
{
    if s.len() == 0 || space_len(s) > 0 {
        0
    } else {
        1 + word_len(s.skip(1))
    }
}

/// The first word of `s`, white space before it left out, and what follows
/// the word; nothing where `s` holds only white space.
pub open spec fn next_word(s: Seq<u8>) -> Option<(Seq<u8>, Seq<u8>)> {
    let t = s.skip(blank_len(s));
    if t.len() == 0 {
        None
    } else {
        Some((t.take(word_len(t)), t.skip(word_len(t))))
    }
}

/// The first position lies within the text or at its end, nothing before
/// it is the sought byte, and the byte at it is, if there is one.
pub proof fn lemma_first_index_bounds(s: Seq<u8>, sep: u8)
    ensures
        0 <= first_index(s, sep) <= s.len(),
        forall|j: int| 0 <= j < first_index(s, sep) ==> s[j] != sep,
        first_index(s, sep) < s.len() ==> s[first_index(s, sep)] == sep,
    decreases s.len(),
{
    if s.len() == 0 || s[0] == sep {
    } else {
        let t = s.skip(1);
        lemma_first_index_bounds(t, sep);
        assert forall|j: int| 0 <= j < first_index(s, sep) implies s[j] != sep by {
            if j > 0 {
                assert(s[j] == t[j - 1]);
            }
        }
        if first_index(t, sep) < t.len() {
            assert(t[first_index(t, sep)] == s[first_index(t, sep) + 1]);
        }
    }
}

/// The first position is the only one that holds `sep` after a stretch
/// without it.
pub proof fn lemma_first_index_is(s: Seq<u8>, sep: u8, i: int)
    requires
        0 <= i <= s.len(),
        forall|j: int| 0 <= j < i ==> s[j] != sep,
        i < s.len() ==> s[i] == sep,
    ensures
        first_index(s, sep) == i,
{
    lemma_first_index_bounds(s, sep);
    let k = first_index(s, sep);
    if k < i {
        assert(s[k] == sep);
    } else if k > i {
        assert(s[i] != sep);
    }
}

/// What `split` yields, by whether `s` holds `sep`.
pub proof fn lemma_split_unfold(s: Seq<u8>, sep: u8)
    ensures
        split(s, sep).len() >= 1,
        split(s, sep)[0] == s.take(first_index(s, sep)),
        first_index(s, sep) >= s.len() ==> split(s, sep) == seq![s],
        first_index(s, sep) < s.len() ==> split(s, sep).skip(1) == split(
            s.skip(first_index(s, sep) + 1),
            sep,
        ) && split(s, sep).len() >= 2,
    decreases s.len(),
{
    lemma_first_index_bounds(s, sep);
    let i = first_index(s, sep);
    if i < s.len() {
        lemma_split_unfold(s.skip(i + 1), sep);
        assert(split(s, sep).skip(1) =~= split(s.skip(i + 1), sep));
    } else {
        assert(s.take(i) =~= s);
    }
}

/// The first position is the end just when the byte does not occur.
pub proof fn lemma_first_index_absent(s: Seq<u8>, sep: u8)
    ensures
        first_index(s, sep) == s.len() <==> !s.contains(sep),
{
    lemma_first_index_bounds(s, sep);
    if first_index(s, sep) < s.len() {
        assert(s.contains(sep));
    } else if s.contains(sep) {
        let j = choose|j: int| 0 <= j < s.len() && s[j] == sep;
        assert(s[j] == sep);
    }
}

/// A word lies within its text, and is not empty where the text starts
/// with something other than white space.
pub proof fn lemma_word_len(s: Seq<u8>)
    ensures
        0 <= word_len(s) <= s.len(),
        s.len() > 0 && space_len(s) == 0 ==> word_len(s) > 0,
    decreases s.len(),
{
    if s.len() == 0 || space_len(s) > 0 {
    } else {
        lemma_word_len(s.skip(1));
    }
}

/// Measures the white space character at position `i`.
pub fn space_at(s: &[u8], i: usize) -> (n: usize)
    requires
        i <= s@.len(),
    ensures
        n == space_len(s@.skip(i as int)),
        i + n <= s@.len(),
{
    let len = s.len();
    let ghost t = s@.skip(i as int);
    if i >= len {
        return 0;
    }
    let a = s[i];
    assert(t[0] == a);
    if (0x09 <= a && a <= 0x0d) || a == 0x20 {
        return 1;
    }
    if len - i < 2 {
        return 0;
    }
    let b = s[i + 1];
    assert(t[1] == b);
    if a == 0xc2 && (b == 0x85 || b == 0xa0) {
        return 2;
    }
    if len - i < 3 {
        return 0;
    }
    let c = s[i + 2];
    assert(t[2] == c);
    if a == 0xe1 && b == 0x9a && c == 0x80 {
        return 3;
    }
    if a == 0xe2 && b == 0x80 && ((0x80 <= c && c <= 0x8a) || c == 0xa8 || c == 0xa9 || c
        == 0xaf) {
        return 3;
    }
    if a == 0xe2 && b == 0x81 && c == 0x9f {
        return 3;
    }
    if a == 0xe3 && b == 0x80 && c == 0x80 {
        return 3;
    }
    0
}

/// Takes the first word off `s`.
pub fn take_word(s: &[u8]) -> (r: Option<(&[u8], &[u8])>)
    ensures
        match next_word(s@) {
            Some((word, rest)) => r matches Some((w, t)) && w@ == word && t@ == rest,
            None => r is None,
        },
        r matches Some((w, t)) ==> w@.len() > 0 && t@.len() < s@.len(),
{
    let len = s.len();
    let mut i: usize = 0;
    assert(s@.skip(0) =~= s@);
    loop
        invariant
            len == s@.len(),
            0 <= i <= len,
            blank_len(s@) == i + blank_len(s@.skip(i as int)),
        ensures
            0 <= i <= len,
            blank_len(s@) == i,
            space_len(s@.skip(i as int)) == 0,
        decreases len - i,
    {
        let n = space_at(s, i);
        if n == 0 {
            break ;
        }
        assert(s@.skip(i as int).skip(n as int) =~= s@.skip(i + n));
        i += n;
    }
    if i >= len {
        assert(s@.skip(i as int).len() == 0);
        return None;
    }
    let ghost t = s@.skip(i as int);
    let mut j: usize = i;
    assert(j - i == 0);
    loop
        invariant
            len == s@.len(),
            i <= j <= len,
            t == s@.skip(i as int),
            word_len(t) == (j - i) + word_len(s@.skip(j as int)),
        ensures
            i <= j <= len,
            word_len(t) == j - i,
        decreases len - j,
    {
        if j >= len {
            break ;
        }
        let n = space_at(s, j);
        if n > 0 {
            break ;
        }
        assert(s@.skip(j as int).skip(1) =~= s@.skip(j + 1));
        j += 1;
    }
    proof {
        lemma_word_len(t);
    }
    let word = slice_subrange(s, i, j);
    let rest = slice_subrange(s, j, len);
    assert(word@ =~= t.take(word_len(t)));
    assert(rest@ =~= t.skip(word_len(t)));
    Some((word, rest))
}

/// Finds the first `sep` in `s`.
pub fn find_byte(s: &[u8], sep: u8) -> (i: usize)
    ensures
        i == first_index(s@, sep),
        i <= s@.len(),
{
    let mut i: usize = 0;
    while i < s.len() && s[i] != sep
        invariant
            i <= s@.len(),
            forall|j: int| 0 <= j < i ==> s@[j] != sep,
        decreases s@.len() - i,
    {
        i += 1;
    }
    proof {
        lemma_first_index_is(s@, sep, i as int);
    }
    i
}

/// Splits `s` at its only `sep`.
pub fn split_once(s: &[u8], sep: u8) -> (r: Option<(&[u8], &[u8])>)
    ensures
        match split_pair(s@, sep) {
            Some((a, b)) => r matches Some((x, y)) && x@ == a && y@ == b,
            None => r is None,
        },
{
    let i = find_byte(s, sep);
    if i >= s.len() {
        return None;
    }
    let rest = slice_subrange(s, i + 1, s.len());
    let j = find_byte(rest, sep);
    proof {
        lemma_first_index_absent(rest@, sep);
        assert(rest@ == s@.skip(i + 1));
    }
    if j < rest.len() {
        return None;
    }
    let head = slice_subrange(s, 0, i);
    assert(head@ == s@.take(i as int));
    Some((head, rest))
}

/// Whether `b` is a decimal digit.
pub fn is_digit_byte(b: u8) -> (r: bool)
    ensures
        r == is_digit(b),
{
    0x30 <= b && b <= 0x39
}

/// ASCII upper case of one byte.
pub fn upper_byte(b: u8) -> (r: u8)
    ensures
        r == upper(b),
{
    if 0x61 <= b && b <= 0x7a {
        b - 0x20
    } else {
        b
    }
}

/// One more digit multiplies by ten and adds.
pub proof fn lemma_digits_value_push(s: Seq<u8>, b: u8)
    ensures
        digits_value(s.push(b)) == digits_value(s) * 10 + (b - 0x30) as nat,
{
    assert(s.push(b).drop_last() =~= s);
}

/// Reads a decimal number. Numbers above [`NUMBER_CAP`] are reported as
/// [`NUMBER_CAP`].
pub fn parse_number(s: &[u8]) -> (r: Option<u16>)
    ensures
        match number_of(s@) {
            Some(n) => r == Some(capped(n) as u16),
            None => r is None,
        },
{
    if s.len() == 0 {
        return None;
    }
    let mut acc: u16 = 0;
    let mut i: usize = 0;
    while i < s.len()
        invariant
            i <= s@.len(),
            forall|j: int| 0 <= j < i ==> is_digit(#[trigger] s@[j]),
            acc == capped(digits_value(s@.take(i as int))),
        decreases s@.len() - i,
    {
        let b = s[i];
        if !is_digit_byte(b) {
            return None;
        }
        proof {
            assert(s@.take(i + 1) =~= s@.take(i as int).push(b));
            lemma_digits_value_push(s@.take(i as int), b);
        }
        if acc >= NUMBER_CAP {
            acc = NUMBER_CAP;
        } else {
            let d: u16 = (b - 0x30) as u16;
            let next: u16 = acc * 10 + d;
            acc = if next >= NUMBER_CAP {
                NUMBER_CAP
            } else {
                next
            };
        }
        i += 1;
    }
    assert(s@.take(i as int) =~= s@);
    Some(acc)
}

} // verus!
