//! Counting the indices below a bound that satisfy a predicate.

use vstd::prelude::*;
use vstd::relations::injective_on;
use vstd::set_lib::{lemma_int_range, lemma_map_size, lemma_subset_equality, set_int_range};

verus! {

/// How many of the indices `0 .. n` satisfy `p`.
pub open spec fn count_upto(p: spec_fn(int) -> bool, n: int) -> nat
    decreases n,
{
    if n <= 0 {
        0
    } else {
        count_upto(p, n - 1) + if p(n - 1) {
            1nat
        } else {
            0nat
        }
    }
}

/// No more indices satisfy a predicate than there are.
pub proof fn lemma_count_bound(p: spec_fn(int) -> bool, n: int)
    requires
        0 <= n,
    ensures
        count_upto(p, n) <= n,
    decreases n,
{
    if n > 0 {
        lemma_count_bound(p, n - 1);
    }
}

/// Where `p` implies `q` below the bound, `q` counts at least as many.
pub proof fn lemma_count_implies(p: spec_fn(int) -> bool, q: spec_fn(int) -> bool, n: int)
    requires
        forall|j: int| 0 <= j < n && #[trigger] p(j) ==> q(j),
    ensures
        count_upto(p, n) <= count_upto(q, n),
    decreases n,
{
    if n > 0 {
        lemma_count_implies(p, q, n - 1);
    }
}

/// Where `p` implies `q` below the bound and some index satisfies `q` alone,
/// `q` counts more.
pub proof fn lemma_count_strict(
    p: spec_fn(int) -> bool,
    q: spec_fn(int) -> bool,
    n: int,
    m: int,
)
    requires
        forall|j: int| 0 <= j < n && #[trigger] p(j) ==> q(j),
        0 <= m < n,
        q(m),
        !p(m),
    ensures
        count_upto(p, n) < count_upto(q, n),
    decreases n,
{
    if m == n - 1 {
        lemma_count_implies(p, q, n - 1);
    } else {
        lemma_count_strict(p, q, n - 1, m);
    }
}

/// Predicates that agree below the bound count the same.
pub proof fn lemma_count_same(p: spec_fn(int) -> bool, q: spec_fn(int) -> bool, n: int)
    requires
        forall|j: int| 0 <= j < n ==> #[trigger] p(j) == q(j),
    ensures
        count_upto(p, n) == count_upto(q, n),
    decreases n,
{
    if n > 0 {
        lemma_count_same(p, q, n - 1);
    }
}

/// Where some index below the bound fails the predicate, fewer satisfy it
/// than there are.
pub proof fn lemma_count_misses(p: spec_fn(int) -> bool, n: int, m: int)
    requires
        0 <= m < n,
        !p(m),
    ensures
        count_upto(p, n) < n,
    decreases n,
{
    if m == n - 1 {
        lemma_count_bound(p, n - 1);
    } else {
        lemma_count_misses(p, n - 1, m);
    }
}

/// A function that maps `0 .. n` into `0 .. n` and never gives one value
/// twice gives every value.
pub proof fn lemma_onto(f: spec_fn(int) -> int, n: int, k: int)
    requires
        0 <= k < n,
        forall|i: int| 0 <= i < n ==> 0 <= #[trigger] f(i) < n,
        forall|i: int, j: int|
            0 <= i < n && 0 <= j < n && i != j ==> #[trigger] f(i) != #[trigger] f(j),
    ensures
        exists|i: int| 0 <= i < n && #[trigger] f(i) == k,
{
    let x = set_int_range(0, n);
    let y = x.map(f);
    lemma_int_range(0, n);
    assert(injective_on(f, x));
    lemma_map_size(x, y, f);
    assert(y.subset_of(x));
    lemma_subset_equality(y, x);
    assert(x.contains(k));
    assert(y.contains(k));
}

} // verus!
