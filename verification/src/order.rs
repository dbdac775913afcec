//! Ascending listings: the one way to write a set of small numbers down as
//! a sequence without repeats.
use vstd::prelude::*;

verus! {

/// Every element is smaller than the ones after it.
pub open spec fn ascending(s: Seq<u8>) -> bool {
    forall|i: int, j: int| 0 <= i < j < s.len() ==> s[i] < s[j]
}

/// Every element lies in `lo..=hi`.
pub open spec fn within(s: Seq<u8>, lo: int, hi: int) -> bool {
    forall|i: int| 0 <= i < s.len() ==> lo <= #[trigger] s[i] <= hi
}

/// The members of `set` that lie in `lo..=hi`, smallest first.
pub open spec fn listing(set: Set<int>, lo: int, hi: int) -> Seq<u8>
    decreases hi - lo + 1,
{
    if lo > hi {
        Seq::empty()
    } else if set.contains(hi) {
        listing(set, lo, hi - 1).push(hi as u8)
    } else {
        listing(set, lo, hi - 1)
    }
}

/// The numbers that occur in `s`.
pub open spec fn members(s: Seq<u8>) -> Set<int> {
    Set::new(|v: int| 0 <= v < 256 && s.contains(v as u8))
}

/// The numbers `lo..=hi`.
pub open spec fn span(lo: int, hi: int) -> Set<int> {
    Set::new(|v: int| lo <= v <= hi)
}

/// A listing is ascending, stays in its range, and holds just the members
/// of the set that lie there.
pub proof fn lemma_listing(set: Set<int>, lo: int, hi: int)
    requires
        0 <= lo,
        hi < 256,
    ensures
        ascending(listing(set, lo, hi)),
        within(listing(set, lo, hi), lo, hi),
        listing(set, lo, hi).len() <= if lo <= hi { hi - lo + 1 } else { 0 },
        forall|v: int|
            lo <= v <= hi && set.contains(v) <==> 0 <= v < 256 && #[trigger] listing(
                set,
                lo,
                hi,
            ).contains(v as u8),
    decreases hi - lo + 1,
{
    let s = listing(set, lo, hi);
    if lo > hi {
    } else {
        let t = listing(set, lo, hi - 1);
        lemma_listing(set, lo, hi - 1);
        if set.contains(hi) {
            assert(s == t.push(hi as u8));
            assert forall|v: int| lo <= v <= hi && set.contains(v) implies 0 <= v < 256
                && s.contains(v as u8) by {
                if v == hi {
                    assert(s[s.len() - 1] == hi as u8);
                } else {
                    assert(t.contains(v as u8));
                    let k = choose|k: int| 0 <= k < t.len() && t[k] == v as u8;
                    assert(s[k] == v as u8);
                }
            }
            assert forall|v: int| 0 <= v < 256 && s.contains(v as u8) implies lo <= v <= hi
                && set.contains(v) by {
                let k = choose|k: int| 0 <= k < s.len() && s[k] == v as u8;
                if k < t.len() {
                    assert(t[k] == v as u8);
                    assert(t.contains(v as u8));
                }
            }
        } else {
            assert forall|v: int| lo <= v <= hi && set.contains(v) implies 0 <= v < 256
                && s.contains(v as u8) by {
                assert(t.contains(v as u8));
            }
        }
    }
}

/// An ascending sequence sits no lower than its positions allow.
pub proof fn lemma_ascending_floor(s: Seq<u8>, lo: int, k: int)
    requires
        ascending(s),
        0 <= k < s.len(),
        forall|i: int| 0 <= i < s.len() ==> lo <= #[trigger] s[i],
    ensures
        lo + k <= s[k],
    decreases k,
{
    if k > 0 {
        lemma_ascending_floor(s, lo, k - 1);
        assert(s[k - 1] < s[k]);
    }
}

/// An ascending sequence sits no higher than the positions after leave room.
pub proof fn lemma_ascending_ceiling(s: Seq<u8>, hi: int, k: int)
    requires
        ascending(s),
        0 <= k < s.len(),
        forall|i: int| 0 <= i < s.len() ==> #[trigger] s[i] <= hi,
    ensures
        s[k] <= hi - (s.len() - 1 - k),
    decreases s.len() - k,
{
    if k < s.len() - 1 {
        lemma_ascending_ceiling(s, hi, k + 1);
        assert(s[k] < s[k + 1]);
    }
}

/// An ascending sequence within `lo..=hi` that lacks one number of that
/// range is shorter than the range.
pub proof fn lemma_ascending_gap(s: Seq<u8>, lo: int, hi: int, v: u8)
    requires
        ascending(s),
        within(s, lo, hi),
        lo <= v <= hi,
        !s.contains(v),
    ensures
        s.len() < hi - lo + 1,
{
    lemma_ascending_len(s, lo, hi);
    if s.len() == hi - lo + 1 {
        let k = v - lo;
        lemma_ascending_floor(s, lo, k);
        lemma_ascending_ceiling(s, hi, k);
        assert(s[k] == v);
    }
}

/// An ascending sequence within `lo..=hi` has no more elements than that
/// range has numbers.
pub proof fn lemma_ascending_len(s: Seq<u8>, lo: int, hi: int)
    requires
        ascending(s),
        within(s, lo, hi),
    ensures
        s.len() <= if lo <= hi { hi - lo + 1 } else { 0 },
{
    if s.len() > 0 {
        lemma_ascending_floor(s, lo, s.len() - 1);
    }
}

/// An ascending sequence is the listing of its members.
pub proof fn lemma_listing_unique(s: Seq<u8>, set: Set<int>, lo: int, hi: int)
    requires
        0 <= lo,
        hi < 256,
        ascending(s),
        forall|v: int|
            lo <= v <= hi && set.contains(v) <==> 0 <= v < 256 && #[trigger] s.contains(v as u8),
    ensures
        s == listing(set, lo, hi),
    decreases hi - lo + 1,
{
    if lo > hi {
        if s.len() > 0 {
            assert(s.contains(s[0] as int as u8));
        }
        assert(s =~= Seq::<u8>::empty());
    } else {
        assert forall|i: int| 0 <= i < s.len() implies lo <= #[trigger] s[i] <= hi by {
            assert(s.contains(s[i] as int as u8));
        }
        if set.contains(hi) {
            assert(s.contains(hi as u8));
            let k = choose|k: int| 0 <= k < s.len() && s[k] == hi as u8;
            if k < s.len() - 1 {
                assert(s[k] < s[s.len() - 1]);
            }
            assert(s[s.len() - 1] == hi as u8);
            let t = s.drop_last();
            assert forall|v: int| lo <= v <= hi - 1 && set.contains(v) implies 0 <= v < 256
                && t.contains(v as u8) by {
                assert(s.contains(v as u8));
                let j = choose|j: int| 0 <= j < s.len() && s[j] == v as u8;
                assert(t[j] == v as u8);
            }
            assert forall|v: int| 0 <= v < 256 && t.contains(v as u8) implies lo <= v <= hi - 1
                && set.contains(v) by {
                let j = choose|j: int| 0 <= j < t.len() && t[j] == v as u8;
                assert(s[j] == v as u8);
                assert(s.contains(v as u8));
                assert(s[j] < s[s.len() - 1]);
            }
            lemma_listing_unique(t, set, lo, hi - 1);
            assert(s =~= t.push(hi as u8));
        } else {
            assert forall|v: int| 0 <= v < 256 && s.contains(v as u8) implies lo <= v <= hi - 1
                && set.contains(v) by {}
            lemma_listing_unique(s, set, lo, hi - 1);
        }
    }
}

/// A listing reads only the part of the set that lies in its range.
pub proof fn lemma_listing_agrees(a: Set<int>, b: Set<int>, lo: int, hi: int)
    requires
        forall|v: int| lo <= v <= hi ==> (a.contains(v) <==> b.contains(v)),
    ensures
        listing(a, lo, hi) == listing(b, lo, hi),
    decreases hi - lo + 1,
{
    if lo <= hi {
        lemma_listing_agrees(a, b, lo, hi - 1);
    }
}

/// The listing of a whole range counts it through.
pub proof fn lemma_listing_span(lo: int, hi: int)
    requires
        0 <= lo <= hi + 1,
        hi < 256,
    ensures
        listing(span(lo, hi), lo, hi).len() == hi - lo + 1,
        forall|i: int| 0 <= i <= hi - lo ==> #[trigger] listing(span(lo, hi), lo, hi)[i] == lo + i,
    decreases hi - lo + 1,
{
    if lo <= hi {
        lemma_listing_span(lo, hi - 1);
        lemma_listing_agrees(span(lo, hi), span(lo, hi - 1), lo, hi - 1);
    }
}

} // verus!
