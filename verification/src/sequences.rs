//! Sequences: the views of their elements, the first element that satisfies a
//! predicate, and filtering step by step.

use vstd::prelude::*;

use crate::counting::count_upto;

verus! {

/// The views of the elements of `s`, one for one.
pub open spec fn views<T: View>(s: Seq<T>) -> Seq<T::V> {
    Seq::new(s.len(), |i: int| s[i]@)
}

/// Whether `i` is the least index of `s` whose element satisfies `p`.
pub open spec fn is_first<T>(s: Seq<T>, p: spec_fn(T) -> bool, i: int) -> bool {
    &&& 0 <= i < s.len()
    &&& p(s[i])
    &&& forall|k: int| 0 <= k < i ==> !p(#[trigger] s[k])
}

/// The least index of `s` whose element satisfies `p`, if there is one.
pub open spec fn first_index<T>(s: Seq<T>, p: spec_fn(T) -> bool) -> Option<int> {
    if exists|i: int| is_first(s, p, i) {
        Some(choose|i: int| is_first(s, p, i))
    } else {
        None
    }
}

/// The first element of `s` that satisfies `p`, if there is one.
pub open spec fn first_match<T>(s: Seq<T>, p: spec_fn(T) -> bool) -> Option<T> {
    match first_index(s, p) {
        Some(i) => Some(s[i]),
        None => None,
    }
}

/// An index that is first is the first index.
pub proof fn lemma_first_index_found<T>(s: Seq<T>, p: spec_fn(T) -> bool, i: int)
    requires
        is_first(s, p, i),
    ensures
        first_index(s, p) == Some(i),
{
    let j = choose|j: int| is_first(s, p, j);
    assert(is_first(s, p, j));
    if j < i {
        assert(!p(s[j]));
    }
    if i < j {
        assert(!p(s[i]));
    }
}

/// Where no element satisfies the predicate there is no first index.
pub proof fn lemma_first_index_absent<T>(s: Seq<T>, p: spec_fn(T) -> bool)
    requires
        forall|k: int| 0 <= k < s.len() ==> !p(#[trigger] s[k]),
    ensures
        first_index(s, p) is None,
{
}

/// What the first index says of the sequence.
pub proof fn lemma_first_index<T>(s: Seq<T>, p: spec_fn(T) -> bool)
    ensures
        match first_index(s, p) {
            Some(i) => is_first(s, p, i),
            None => forall|k: int| 0 <= k < s.len() ==> !p(#[trigger] s[k]),
        },
{
    if first_index(s, p) is None {
        assert forall|k: int| 0 <= k < s.len() implies !p(#[trigger] s[k]) by {
            if p(s[k]) {
                lemma_some_first(s, p, k);
            }
        }
    }
}

/// Below any index whose element satisfies the predicate lies a first one.
proof fn lemma_some_first<T>(s: Seq<T>, p: spec_fn(T) -> bool, k: int)
    requires
        0 <= k < s.len(),
        p(s[k]),
    ensures
        exists|i: int| is_first(s, p, i),
    decreases k,
{
    if exists|j: int| 0 <= j < k && p(#[trigger] s[j]) {
        let j = choose|j: int| 0 <= j < k && p(#[trigger] s[j]);
        lemma_some_first(s, p, j);
    } else {
        assert(is_first(s, p, k));
    }
}

/// Filtering nothing leaves nothing.
pub proof fn lemma_filter_empty<T>(s: Seq<T>, p: spec_fn(T) -> bool)
    requires
        s.len() == 0,
    ensures
        s.filter(p) == Seq::<T>::empty(),
{
    reveal(Seq::filter);
}

/// What one more element adds to a filtered prefix.
pub proof fn lemma_filter_step<T>(s: Seq<T>, p: spec_fn(T) -> bool, i: int)
    requires
        0 <= i < s.len(),
    ensures
        s.take(i + 1).filter(p) == if p(s[i]) {
            s.take(i).filter(p).push(s[i])
        } else {
            s.take(i).filter(p)
        },
{
    reveal(Seq::filter);
    assert(s.take(i + 1).drop_last() == s.take(i));
}

/// The indices whose elements satisfy `p`.
pub open spec fn holds_at<T>(s: Seq<T>, p: spec_fn(T) -> bool) -> spec_fn(int) -> bool {
    |j: int| p(s[j])
}

/// How many of the first `n` elements satisfy `p`.
pub open spec fn kept_before<T>(s: Seq<T>, p: spec_fn(T) -> bool, n: int) -> nat {
    count_upto(holds_at(s, p), n)
}

/// The elements that satisfy `p` among the first `n` are as many as
/// `kept_before` counts, and each stands at the index that counts those
/// before it.
proof fn lemma_filter_prefix<T>(s: Seq<T>, p: spec_fn(T) -> bool, n: int)
    requires
        0 <= n <= s.len(),
    ensures
        s.take(n).filter(p).len() == kept_before(s, p, n),
        forall|j: int|
            0 <= j < n && p(#[trigger] s[j]) ==> kept_before(s, p, j) < kept_before(s, p, n)
                && s.take(n).filter(p)[kept_before(s, p, j) as int] == s[j],
    decreases n,
{
    if n == 0 {
        lemma_filter_empty(s.take(0), p);
    } else {
        lemma_filter_prefix(s, p, n - 1);
        lemma_filter_step(s, p, n - 1);
        let before = s.take(n - 1).filter(p);
        let now = s.take(n).filter(p);
        assert forall|j: int| 0 <= j < n && p(#[trigger] s[j]) implies kept_before(s, p, j)
            < kept_before(s, p, n) && now[kept_before(s, p, j) as int] == s[j] by {
            if j < n - 1 {
                assert(before[kept_before(s, p, j) as int] == s[j]);
            }
        }
    }
}

/// How a filtered sequence corresponds to the whole: it is as long as
/// `kept_before` counts in all, and the element at `j`, where it satisfies
/// `p`, stands in it at index `kept_before(s, p, j)`.
pub proof fn lemma_filter_index<T>(s: Seq<T>, p: spec_fn(T) -> bool)
    ensures
        s.filter(p).len() == kept_before(s, p, s.len() as int),
        forall|j: int|
            0 <= j < s.len() && p(#[trigger] s[j]) ==> kept_before(s, p, j) < s.filter(p).len()
                && s.filter(p)[kept_before(s, p, j) as int] == s[j],
{
    lemma_filter_prefix(s, p, s.len() as int);
    assert(s.take(s.len() as int) == s);
}

/// Each index below the number of elements that satisfy `p` among the first
/// `n` is the index of one of them.
proof fn lemma_filter_source_prefix<T>(s: Seq<T>, p: spec_fn(T) -> bool, n: int, q: int)
    requires
        0 <= n <= s.len(),
        0 <= q < kept_before(s, p, n),
    ensures
        exists|j: int| 0 <= j < n && p(s[j]) && #[trigger] kept_before(s, p, j) == q,
    decreases n,
{
    if q < kept_before(s, p, n - 1) {
        lemma_filter_source_prefix(s, p, n - 1, q);
        let j = choose|j: int| 0 <= j < n - 1 && p(s[j]) && #[trigger] kept_before(s, p, j) == q;
        assert(0 <= j < n && p(s[j]) && kept_before(s, p, j) == q);
    } else {
        assert(p(s[n - 1]) && kept_before(s, p, n - 1) == q);
    }
}

/// Each element of a filtered sequence is an element of the whole: the one
/// at index `q` stands where `kept_before` is `q`.
pub proof fn lemma_filter_source<T>(s: Seq<T>, p: spec_fn(T) -> bool, q: int) -> (j: int)
    requires
        0 <= q < s.filter(p).len(),
    ensures
        0 <= j < s.len(),
        p(s[j]),
        kept_before(s, p, j) == q,
        s.filter(p)[q] == s[j],
{
    lemma_filter_index(s, p);
    lemma_filter_source_prefix(s, p, s.len() as int, q);
    let j = choose|j: int| 0 <= j < s.len() && p(s[j]) && #[trigger] kept_before(s, p, j) == q;
    assert(p(s[j]));
    assert(s.filter(p)[kept_before(s, p, j) as int] == s[j]);
    j
}

/// Of two elements that satisfy `p`, the one that stands first has fewer
/// such elements before it.
pub proof fn lemma_kept_before_order<T>(s: Seq<T>, p: spec_fn(T) -> bool, j: int, i: int)
    requires
        0 <= j < i <= s.len(),
        p(s[j]),
    ensures
        kept_before(s, p, j) < kept_before(s, p, i),
    decreases i - j,
{
    if i == j + 1 {
    } else {
        lemma_kept_before_order(s, p, j, i - 1);
    }
}

} // verus!
