//! Scanning a sequence of code units for the first one that satisfies a
//! predicate.
use vstd::prelude::*;

verus! {

/// The first index at or after `start` whose unit satisfies `p`, or the
/// length of `s` when there is none. A `start` beyond the end is returned as
/// it is.
pub open spec fn first_match(s: Seq<u16>, p: spec_fn(u16) -> bool, start: int) -> int
    decreases s.len() - start,
{
    if start >= s.len() || start < 0 {
        start
    } else if p(s[start]) {
        start
    } else {
        first_match(s, p, start + 1)
    }
}

/// An index that stops a scan from `start` is the one `first_match` names.
pub proof fn lemma_first_match_is(s: Seq<u16>, p: spec_fn(u16) -> bool, start: int, i: int)
    requires
        0 <= start <= i <= s.len(),
        forall|j: int| start <= j < i ==> !p(#[trigger] s[j]),
        i < s.len() ==> p(s[i]),
    ensures
        first_match(s, p, start) == i,
    decreases i - start,
{
    if start < i {
        lemma_first_match_is(s, p, start + 1, i);
    }
}

/// `first_match` stays within the sequence, skips only units that fail `p`,
/// and stops on one that satisfies it.
pub proof fn lemma_first_match_props(s: Seq<u16>, p: spec_fn(u16) -> bool, start: int)
    requires
        0 <= start <= s.len(),
    ensures
        start <= first_match(s, p, start) <= s.len(),
        forall|j: int| start <= j < first_match(s, p, start) ==> !p(#[trigger] s[j]),
        first_match(s, p, start) < s.len() ==> p(s[first_match(s, p, start)]),
    decreases s.len() - start,
{
    if start < s.len() && !p(s[start]) {
        lemma_first_match_props(s, p, start + 1);
    }
}

/// Walks `slice` from `start` and returns the index of the first element on
/// which `pred` answers `true`, or the length of the slice when it never
/// does. A `start` beyond the end is handed back unchanged.
pub fn index_of<T, F: Fn(&T) -> bool>(slice: &[T], pred: F, start: usize) -> (i: usize)
    requires
        forall|j: int| 0 <= j < slice@.len() ==> call_requires(pred, (&#[trigger] slice@[j],)),
    ensures
        start <= i,
        start <= slice@.len() ==> i <= slice@.len(),
        start > slice@.len() ==> i == start,
        forall|j: int| start <= j < i ==> call_ensures(pred, (&#[trigger] slice@[j],), false),
        i < slice@.len() ==> call_ensures(pred, (&slice@[i as int],), true),
{
    let mut i: usize = start;
    while i < slice.len()
        invariant
            start <= i,
            start <= slice@.len() ==> i <= slice@.len(),
            start > slice@.len() ==> i == start,
            forall|j: int| 0 <= j < slice@.len() ==> call_requires(pred, (&#[trigger] slice@[j],)),
            forall|j: int| start <= j < i ==> call_ensures(pred, (&#[trigger] slice@[j],), false),
        decreases slice@.len() - i,
    {
        if pred(&slice[i]) {
            return i;
        }
        i += 1;
    }
    i
}

/// `index_of` on code units, for a predicate that computes the spec
/// predicate `p`: the result is `first_match`.
pub(crate) fn index_of_unit<F: Fn(&u16) -> bool>(
    slice: &[u16],
    pred: F,
    start: usize,
    Ghost(p): Ghost<spec_fn(u16) -> bool>,
) -> (i: usize)
    requires
        start <= slice@.len(),
        forall|c: u16| call_requires(pred, (&c,)),
        forall|c: u16, r: bool| call_ensures(pred, (&c,), r) ==> r == p(c),
    ensures
        i == first_match(slice@, p, start as int),
        start <= i <= slice@.len(),
{
    let i = index_of(slice, pred, start);
    proof {
        lemma_first_match_is(slice@, p, start as int, i as int);
    }
    i
}

} // verus!
