//! Ordered value sets of one field, kept in a fixed-capacity array.
use vstd::prelude::*;
use crate::kind::FieldKind;
use crate::order::ascending;
use crate::order::lemma_ascending_len;
use crate::order::within;

verus! {

/// `statiki::Array`: an array with room for a fixed number of values that
/// keeps count of how many it holds.
#[verifier::external_type_specification]
#[verifier::external_body]
#[verifier::reject_recursive_types(T)]
pub struct ExArray<T, const C: usize>(statiki::Array<T, C>);

/// Room in the array behind every field set: the largest field, minutes,
/// has this many values.
pub const ROOM: usize = 60;

/// The values that a `statiki::Array` holds, in the order in which it
/// stores them.
pub uninterp spec fn array_items(a: statiki::Array<u8, 60>) -> Seq<u8>;

/// `statiki::Array::new`. The contract claims that a new array holds
/// nothing.
#[verifier::external_body]
pub(crate) fn array_new() -> (a: statiki::Array<u8, 60>)
    ensures
        array_items(a) == Seq::<u8>::empty(),
{
    statiki::Array::new()
}

/// `statiki::Array::push`. The contract claims that the value is appended
/// and nothing handed back, unless the array already holds as many values
/// as it has room for: then the array stays as it was and the value is
/// handed back.
#[verifier::external_body]
pub(crate) fn array_push(a: &mut statiki::Array<u8, 60>, value: u8) -> (rejected: Option<u8>)
    ensures
        array_items(*old(a)).len() != ROOM ==> rejected.is_none() && array_items(*final(a))
            == array_items(*old(a)).push(value),
        array_items(*old(a)).len() == ROOM ==> rejected == Some(value) && array_items(*final(a))
            == array_items(*old(a)),
{
    a.push(value)
}

/// `statiki::Array::as_slice`. The contract claims that the slice holds the
/// values of the array.
#[verifier::external_body]
pub(crate) fn array_as_slice(a: &statiki::Array<u8, 60>) -> (s: &[u8])
    ensures
        s@ == array_items(*a),
{
    a.as_slice()
}

/// `statiki::Array::as_mut_slice`. The contract claims that the slice holds
/// the values of the array, and that what is written through the slice is
/// what the array holds afterwards.
#[verifier::external_body]
pub(crate) fn array_as_mut_slice(a: &mut statiki::Array<u8, 60>) -> (s: &mut [u8])
    ensures
        s@ == array_items(*old(a)),
        array_items(*final(a)) == final(s)@,
{
    a.as_mut_slice()
}

/// Puts `v` in its place in an ascending array that does not hold it.
pub(crate) fn insert_ascending(a: &mut statiki::Array<u8, 60>, v: u8)
    requires
        ascending(array_items(*old(a))),
        !array_items(*old(a)).contains(v),
        array_items(*old(a)).len() < ROOM,
    ensures
        ascending(array_items(*final(a))),
        array_items(*final(a)).len() == array_items(*old(a)).len() + 1,
        forall|x: u8|
            array_items(*final(a)).contains(x) <==> (array_items(*old(a)).contains(x) || x == v),
{
    let ghost before = array_items(*a);
    let _ = array_push(a, v);
    let s = array_as_mut_slice(a);
    let mut j: usize = s.len() - 1;
    while j > 0 && s[j - 1] > v
        invariant
            s@.len() == before.len() + 1,
            0 <= j < s@.len(),
            s@[j as int] == v,
            forall|i: int| 0 <= i < j ==> s@[i] == before[i],
            forall|i: int| j < i < s@.len() ==> s@[i] == before[i - 1],
            forall|i: int| j < i < s@.len() ==> v < s@[i],
            ascending(before),
            !before.contains(v),
        decreases j,
    {
        s[j] = s[j - 1];
        s[j - 1] = v;
        j -= 1;
    }
    proof {
        let t = s@;
        if j > 0 {
            assert(t[j - 1] == before[j - 1]);
            assert(before.contains(before[j - 1]));
            assert(before[j - 1] < v);
        }
        assert forall|p: int, q: int| 0 <= p < q < t.len() implies t[p] < t[q] by {
            if q < j {
                assert(before[p] < before[q]);
            } else if q == j {
                if p < j - 1 {
                    assert(before[p] < before[j - 1]);
                }
            } else {
                if p < j {
                    assert(before[p] < before[q - 1]);
                } else if p > j {
                    assert(before[p - 1] < before[q - 1]);
                }
            }
        }
        assert forall|x: u8| t.contains(x) <==> (before.contains(x) || x == v) by {
            if t.contains(x) {
                let k = choose|k: int| 0 <= k < t.len() && t[k] == x;
                if k < j {
                    assert(before[k] == x);
                } else if k > j {
                    assert(before[k - 1] == x);
                }
            }
            if before.contains(x) {
                let k = choose|k: int| 0 <= k < before.len() && before[k] == x;
                if k < j {
                    assert(t[k] == x);
                } else {
                    assert(t[k + 1] == x);
                }
            }
            if x == v {
                assert(t[j as int] == x);
            }
        }
    }
}

/// Where `v` stands in an ascending slice, or where it would.
///
/// `Ok` holds the position of `v`; `Err` holds the position of the first
/// greater value, which is the length when there is none.
pub fn locate(s: &[u8], v: u8) -> (r: Result<usize, usize>)
    requires
        ascending(s@),
    ensures
        match r {
            Ok(i) => i < s@.len() && s@[i as int] == v,
            Err(i) => {
                &&& i <= s@.len()
                &&& !s@.contains(v)
                &&& forall|k: int| 0 <= k < i ==> s@[k] < v
                &&& forall|k: int| i <= k < s@.len() ==> v < s@[k]
            },
        },
{
    let mut lo: usize = 0;
    let mut hi: usize = s.len();
    while lo < hi
        invariant
            ascending(s@),
            0 <= lo <= hi <= s@.len(),
            forall|k: int| 0 <= k < lo ==> s@[k] < v,
            forall|k: int| hi <= k < s@.len() ==> v < s@[k],
        decreases hi - lo,
    {
        let mid = lo + (hi - lo) / 2;
        let x = s[mid];
        if x == v {
            return Ok(mid);
        } else if x < v {
            assert forall|k: int| 0 <= k < mid + 1 implies s@[k] < v by {
                if k < mid {
                    assert(s@[k] < s@[mid as int]);
                }
            }
            lo = mid + 1;
        } else {
            assert forall|k: int| mid <= k < s@.len() implies v < s@[k] by {
                if k > mid {
                    assert(s@[mid as int] < s@[k]);
                }
            }
            hi = mid;
        }
    }
    Err(lo)
}

/// Whether a list of values is what a field of kind `kind` may hold: at
/// least one value, each within the field's bounds, ascending without
/// repeats.
pub open spec fn is_field_listing(kind: FieldKind, s: Seq<u8>) -> bool {
    &&& s.len() > 0
    &&& ascending(s)
    &&& within(s, kind.spec_min() as int, kind.spec_max() as int)
}

/// The values that one field of a schedule allows, in ascending order.
#[derive(Debug)]
pub struct FieldSet {
    kind: FieldKind,
    items: statiki::Array<u8, 60>,
}

impl View for FieldSet {
    type V = Seq<u8>;

    /// The values, ascending.
    closed spec fn view(&self) -> Seq<u8> {
        array_items(self.items)
    }
}

impl FieldSet {
    /// The field that the values belong to.
    pub closed spec fn spec_kind(&self) -> FieldKind {
        self.kind
    }

    /// What holds of every field set.
    pub open spec fn wf(&self) -> bool {
        is_field_listing(self.spec_kind(), self@)
    }

    #[verifier::type_invariant]
    spec fn inv(&self) -> bool {
        self.wf()
    }

    /// Whether the set holds every value of its field.
    pub open spec fn spec_is_full(&self) -> bool {
        self@.len() == self.spec_kind().spec_size()
    }

    /// Wraps an array that holds a field's values in order.
    pub(crate) fn from_array(kind: FieldKind, items: statiki::Array<u8, 60>) -> (r: FieldSet)
        requires
            is_field_listing(kind, array_items(items)),
        ensures
            r.spec_kind() == kind,
            r@ == array_items(items),
            r.wf(),
    {
        FieldSet { kind, items }
    }

    /// The field that the values belong to.
    #[verifier::when_used_as_spec(spec_kind)]
    pub fn kind(&self) -> (r: FieldKind)
        ensures
            r == self.spec_kind(),
    {
        self.kind
    }

    /// The values, ascending.
    pub fn as_slice(&self) -> (s: &[u8])
        ensures
            s@ == self@,
            self.wf(),
    {
        proof {
            use_type_invariant(self);
        }
        array_as_slice(&self.items)
    }

    /// How many values the set holds.
    pub fn len(&self) -> (n: usize)
        ensures
            n == self@.len(),
            1 <= n <= self.spec_kind().spec_size(),
    {
        let s = self.as_slice();
        proof {
            lemma_ascending_len(s@, self.kind.spec_min() as int, self.kind.spec_max() as int);
        }
        s.len()
    }

    /// How many values the set can hold: as many as its field has.
    pub fn capacity(&self) -> (n: usize)
        ensures
            n == self.spec_kind().spec_size(),
    {
        self.kind.size()
    }

    /// Whether the set holds every value of its field.
    #[verifier::when_used_as_spec(spec_is_full)]
    pub fn is_full(&self) -> (r: bool)
        ensures
            r == self.spec_is_full(),
    {
        self.len() == self.capacity()
    }

    /// The value at position `index`, counted from the smallest.
    pub fn get(&self, index: usize) -> (r: Option<u8>)
        ensures
            r == if index < self@.len() {
                Some(self@[index as int])
            } else {
                None
            },
    {
        let s = self.as_slice();
        if index < s.len() {
            Some(s[index])
        } else {
            None
        }
    }

    /// Where `v` stands among the values, or where it would: see [`locate`].
    pub fn search(&self, v: u8) -> (r: Result<usize, usize>)
        ensures
            match r {
                Ok(i) => i < self@.len() && self@[i as int] == v,
                Err(i) => {
                    &&& i <= self@.len()
                    &&& !self@.contains(v)
                    &&& forall|k: int| 0 <= k < i ==> self@[k] < v
                    &&& forall|k: int| i <= k < self@.len() ==> v < self@[k]
                },
            },
    {
        locate(self.as_slice(), v)
    }

    /// Whether `v` is one of the values.
    pub fn contains(&self, v: u8) -> (r: bool)
        ensures
            r == self@.contains(v),
    {
        self.search(v).is_ok()
    }
}

impl Clone for FieldSet {
    /// A set of the same field with the same values.
    fn clone(&self) -> (r: Self)
        ensures
            r@ == self@,
            r.spec_kind() == self.spec_kind(),
            r.wf(),
    {
        let src = self.as_slice();
        proof {
            lemma_ascending_len(src@, self.kind.spec_min() as int, self.kind.spec_max() as int);
        }
        let mut items = array_new();
        let mut i: usize = 0;
        while i < src.len()
            invariant
                i <= src@.len() <= ROOM,
                array_items(items) == src@.take(i as int),
            decreases src@.len() - i,
        {
            let _ = array_push(&mut items, src[i]);
            assert(src@.take(i as int).push(src@[i as int]) =~= src@.take(i + 1));
            i += 1;
        }
        assert(src@.take(src@.len() as int) =~= src@);
        FieldSet { kind: self.kind, items }
    }
}

impl PartialEq for FieldSet {
    /// Sets are equal when they belong to the same field and hold the same
    /// values.
    fn eq(&self, other: &Self) -> (r: bool) {
        let a = self.as_slice();
        let b = other.as_slice();
        if self.kind != other.kind || a.len() != b.len() {
            return false;
        }
        let mut i: usize = 0;
        while i < a.len()
            invariant
                a@ == self@,
                b@ == other@,
                a@.len() == b@.len(),
                i <= a@.len(),
                forall|k: int| 0 <= k < i ==> a@[k] == b@[k],
            decreases a@.len() - i,
        {
            if a[i] != b[i] {
                assert(self@[i as int] != other@[i as int]);
                return false;
            }
            i += 1;
        }
        assert(a@ =~= b@);
        true
    }
}

impl vstd::std_specs::cmp::PartialEqSpecImpl for FieldSet {
    open spec fn obeys_eq_spec() -> bool {
        true
    }

    open spec fn eq_spec(&self, other: &Self) -> bool {
        self.spec_kind() == other.spec_kind() && self@ == other@
    }
}

impl Eq for FieldSet {

}

} // verus!
