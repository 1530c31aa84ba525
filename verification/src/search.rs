//! Binary search for the place where a slice turns from less than a target
//! to not less.

use crate::timeline::{
    ascending, instants, lemma_scan_stops_at_split, lower_bound, passed_over, scan_from,
    upper_bound,
};
use std::cmp::Ordering;
use vstd::prelude::*;

verus! {

/// An index of a slice as a position in its sequence of elements.
pub open spec fn position(index: usize) -> int {
    index as int
}

/// Every verdict that `f` can give on `x` is `Less`.
pub open spec fn always_less<T, F: Fn(&T) -> Ordering>(f: F, x: T) -> bool {
    forall|o: Ordering| f.ensures((&x,), o) ==> o == Ordering::Less
}

/// No verdict that `f` can give on `x` is `Less`.
pub open spec fn never_less<T, F: Fn(&T) -> Ordering>(f: F, x: T) -> bool {
    forall|o: Ordering| f.ensures((&x,), o) ==> o != Ordering::Less
}

/// `Less` is a verdict that `f` can give on `x`.
pub open spec fn may_be_less<T, F: Fn(&T) -> Ordering>(f: F, x: T) -> bool {
    f.ensures((&x,), Ordering::Less)
}

/// `Equal` or `Greater` is a verdict that `f` can give on `x`.
pub open spec fn may_be_not_less<T, F: Fn(&T) -> Ordering>(f: F, x: T) -> bool {
    f.ensures((&x,), Ordering::Equal) || f.ensures((&x,), Ordering::Greater)
}

/// `f` splits `s` in two: it calls the elements of a front part less than
/// its target, and those of the rest not less.
pub open spec fn splits<T, F: Fn(&T) -> Ordering>(f: F, s: Seq<T>) -> bool {
    forall|i: int, j: int|
        0 <= i <= j < s.len() ==> #[trigger] always_less(f, s[i]) || #[trigger] never_less(
            f,
            s[j],
        )
}

/// The first index from `from` on at which `f` can call the element of `s`
/// not less than its target, found by looking at one element after the
/// other; the length of `s` if there is none.
pub open spec fn scan_no_less<T, F: Fn(&T) -> Ordering>(f: F, s: Seq<T>, from: int) -> int
    decreases s.len() - from,
{
    if from < 0 || from >= s.len() || may_be_not_less(f, s[from]) {
        from
    } else {
        scan_no_less(f, s, from + 1)
    }
}

/// A scan that starts at or before an element that can be called not less,
/// with none such between the two, ends at that element.
pub proof fn lemma_scan_no_less_stops<T, F: Fn(&T) -> Ordering>(
    f: F,
    s: Seq<T>,
    from: int,
    first: int,
)
    requires
        0 <= from <= first <= s.len(),
        forall|i: int| from <= i < first ==> !may_be_not_less(f, #[trigger] s[i]),
        first < s.len() ==> may_be_not_less(f, s[first]),
    ensures
        scan_no_less(f, s, from) == first,
    decreases first - from,
{
    if from < first {
        lemma_scan_no_less_stops(f, s, from + 1, first);
    }
}

/// The first index `i` such that `f` calls `v[i]` not less than its target,
/// or the length of `v` if there is none: what a scan from the front finds.
///
/// Unlike a search for an equal element, no element needs to compare equal.
/// The element before the result, if there is one, was called less, and the
/// element at it, if there is one, was called not less.
pub fn bsearch_no_less<T, F: Fn(&T) -> Ordering>(v: &[T], f: F) -> (first: usize)
    requires
        forall|i: int| 0 <= i < v@.len() ==> f.requires((&#[trigger] v@[i],)),
        splits(f, v@),
    ensures
        first <= v@.len(),
        first == scan_no_less(f, v@, 0),
        forall|i: int| 0 <= i < first ==> always_less(f, #[trigger] v@[i]),
        forall|i: int| first <= i < v@.len() ==> never_less(f, #[trigger] v@[i]),
        first > 0 ==> may_be_less(f, v@[first - 1]),
        first < v@.len() ==> may_be_not_less(f, v@[position(first)]),
{
    let mut base: usize = 0;
    let mut limit: usize = v.len();
    while limit != 0
        invariant
            base + limit <= v@.len() <= usize::MAX,
            forall|i: int| 0 <= i < v@.len() ==> f.requires((&#[trigger] v@[i],)),
            splits(f, v@),
            forall|i: int| 0 <= i < base ==> always_less(f, #[trigger] v@[i]),
            forall|i: int| base + limit <= i < v@.len() ==> never_less(f, #[trigger] v@[i]),
            base > 0 ==> may_be_less(f, v@[base - 1]),
            base + limit < v@.len() ==> may_be_not_less(f, v@[base + limit]),
        decreases limit,
    {
        let ix: usize = base + limit / 2;
        let probe: &T = &v[ix];
        match f(probe) {
            Ordering::Less => {
                assert forall|i: int| 0 <= i < ix + 1 implies always_less(f, #[trigger] v@[i]) by {
                    assert(always_less(f, v@[i]) || never_less(f, *probe));
                }
                base = ix + 1;
                limit = limit - 1;
            },
            _ => {
                assert forall|i: int| ix <= i < v@.len() implies never_less(f, #[trigger] v@[i]) by {
                    assert(always_less(f, *probe) || never_less(f, v@[i]));
                }
            },
        }
        limit = limit / 2;
    }
    proof {
        assert forall|i: int| 0 <= i < base implies !may_be_not_less(f, #[trigger] v@[i]) by {
            assert(always_less(f, v@[i]));
        }
        lemma_scan_no_less_stops(f, v@, 0, position(base));
    }
    base
}

/// Searches a table in ascending order for the first entry whose instant is
/// not passed over.
fn first_not_passed_over<V>(entries: &[(i64, V)], at: i64, equal_too: bool) -> (first: usize)
    requires
        ascending(instants(entries@)),
    ensures
        first == scan_from(instants(entries@), at, equal_too, 0),
        first <= entries@.len(),
{
    let verdict = |entry: &(i64, V)| -> (o: Ordering)
        ensures
            (o == Ordering::Less) == passed_over(entry.0, at, equal_too),
        {
            match entry.0.cmp(&at) {
                Ordering::Less => Ordering::Less,
                Ordering::Equal => if equal_too {
                    Ordering::Less
                } else {
                    Ordering::Equal
                },
                Ordering::Greater => Ordering::Greater,
            }
        };
    assert(splits(verdict, entries@)) by {
        assert forall|i: int, j: int| 0 <= i <= j < entries@.len() implies #[trigger] always_less(
            verdict,
            entries@[i],
        ) || #[trigger] never_less(verdict, entries@[j]) by {
            let keys = instants(entries@);
            assert(keys[i] <= keys[j]);
        }
    }
    let first = bsearch_no_less(entries, verdict);
    proof {
        let keys = instants(entries@);
        assert forall|i: int| 0 <= i < first implies passed_over(keys[i], at, equal_too) by {
            assert(keys[i] <= keys[first - 1]);
        }
        lemma_scan_stops_at_split(keys, at, equal_too, 0, position(first));
    }
    first
}

/// The first index of a table in ascending order whose instant is not
/// before `at`, or the length of the table if there is none: what a scan
/// from the front finds.
pub fn first_not_before<V>(entries: &[(i64, V)], at: i64) -> (first: usize)
    requires
        ascending(instants(entries@)),
    ensures
        first == lower_bound(instants(entries@), at),
        first <= entries@.len(),
{
    first_not_passed_over(entries, at, false)
}

/// The first index of a table in ascending order whose instant is after
/// `at`, or the length of the table if there is none: what a scan from the
/// front finds.
pub fn first_after<V>(entries: &[(i64, V)], at: i64) -> (first: usize)
    requires
        ascending(instants(entries@)),
    ensures
        first == upper_bound(instants(entries@), at),
        first <= entries@.len(),
{
    first_not_passed_over(entries, at, true)
}

} // verus!
