//! The order of the branches in the workspace: how it is made dense, and
//! which index the next branch gets.

use itertools::Itertools;
use vstd::prelude::*;

use crate::counting::{
    count_upto, lemma_count_misses, lemma_count_same, lemma_count_strict, lemma_onto,
};
use crate::sequences::{
    is_first, kept_before, lemma_filter_index, lemma_filter_source, lemma_first_index_found,
    lemma_kept_before_order, views,
};
use crate::stack::{Stack, StackView};
use crate::state::{has_id, is_applied, unique_ids, VirtualBranchesHandle, VirtualBranchesView};

verus! {

/// Whether the key at `j` is sorted before the key at `i`: it is smaller, or
/// it is equal and stands before it.
pub open spec fn sorts_before(keys: Seq<nat>, j: int, i: int) -> bool {
    keys[j] < keys[i] || (keys[j] == keys[i] && j < i)
}

/// The indices whose keys are sorted before the key at `i`.
pub open spec fn before_key(keys: Seq<nat>, i: int) -> spec_fn(int) -> bool {
    |j: int| sorts_before(keys, j, i)
}

/// The place that a stable sort by key gives to the element at `i`: the
/// number of elements that are sorted before it.
pub open spec fn place(keys: Seq<nat>, i: int) -> nat {
    count_upto(before_key(keys, i), keys.len() as int)
}

/// The order values of the branches, one for one.
pub open spec fn orders(s: Seq<StackView>) -> Seq<nat> {
    Seq::new(s.len(), |i: int| s[i].order)
}

/// The order values of the branches, one for one.
pub open spec fn order_keys(s: Seq<Stack>) -> Seq<nat> {
    Seq::new(s.len(), |i: int| s[i].order as nat)
}

/// The indices of the branches that are in the workspace and come before
/// branch `i`: those with a smaller order value, and those with the same value
/// that stand before it in the document.
pub open spec fn comes_before(s: Seq<StackView>, i: int) -> spec_fn(int) -> bool {
    |j: int| s[j].in_workspace && sorts_before(orders(s), j, i)
}

/// The number of branches in the workspace that come before branch `i`.
pub open spec fn rank(s: Seq<StackView>, i: int) -> nat {
    count_upto(comes_before(s, i), s.len() as int)
}

/// The branches with the order value of each one in the workspace replaced
/// by its rank. The others stay as they are.
pub open spec fn reordered(s: Seq<StackView>) -> Seq<StackView> {
    Seq::new(
        s.len(),
        |i: int|
            if s[i].in_workspace {
                s[i].with_order(rank(s, i))
            } else {
                s[i]
            },
    )
}

impl VirtualBranchesView {
    /// The document with the order of its workspace made dense.
    pub open spec fn normalized(self) -> VirtualBranchesView {
        VirtualBranchesView { branches: reordered(self.branches), ..self }
    }
}

/// The place of an element lies within the sequence.
pub proof fn lemma_place_bound(keys: Seq<nat>, i: int)
    requires
        0 <= i < keys.len(),
    ensures
        place(keys, i) < keys.len(),
{
    lemma_count_misses(before_key(keys, i), keys.len() as int, i);
}

/// An element that is sorted before another gets a smaller place.
pub proof fn lemma_place_order(keys: Seq<nat>, j: int, i: int)
    requires
        0 <= j < keys.len(),
        0 <= i < keys.len(),
        sorts_before(keys, j, i),
    ensures
        place(keys, j) < place(keys, i),
{
    lemma_count_strict(before_key(keys, j), before_key(keys, i), keys.len() as int, j);
}

/// Two elements never get one place.
pub proof fn lemma_place_distinct(keys: Seq<nat>, i: int, j: int)
    requires
        0 <= i < keys.len(),
        0 <= j < keys.len(),
        i != j,
    ensures
        place(keys, i) != place(keys, j),
{
    if sorts_before(keys, i, j) {
        lemma_place_order(keys, i, j);
    } else {
        lemma_place_order(keys, j, i);
    }
}

/// Every place is the place of some element.
pub proof fn lemma_place_onto(keys: Seq<nat>, k: int)
    requires
        0 <= k < keys.len(),
    ensures
        exists|i: int| 0 <= i < keys.len() && #[trigger] place(keys, i) == k,
{
    let f = |i: int| place(keys, i) as int;
    let n = keys.len() as int;
    assert forall|i: int| 0 <= i < n implies 0 <= #[trigger] f(i) < n by {
        lemma_place_bound(keys, i);
    }
    assert forall|i: int, j: int| 0 <= i < n && 0 <= j < n && i != j implies #[trigger] f(i)
        != #[trigger] f(j) by {
        lemma_place_distinct(keys, i, j);
    }
    lemma_onto(f, n, k);
    let i = choose|i: int| 0 <= i < n && #[trigger] f(i) == k;
    assert(place(keys, i) == k);
}

/// How many of the first `n` branches are in the workspace.
pub open spec fn applied_before(s: Seq<StackView>, n: int) -> nat {
    kept_before(s, is_applied(), n)
}

/// Counting the branches that come before branch `i` among the first `n` of
/// the document is counting the keys that are sorted before its key among
/// those of the branches in the workspace.
proof fn lemma_rank_prefix(s: Seq<StackView>, i: int, n: int)
    requires
        0 <= i < s.len(),
        s[i].in_workspace,
        0 <= n <= s.len(),
    ensures
        count_upto(comes_before(s, i), n) == count_upto(
            before_key(orders(s.filter(is_applied())), applied_before(s, i) as int),
            applied_before(s, n) as int,
        ),
    decreases n,
{
    if n > 0 {
        lemma_rank_prefix(s, i, n - 1);
        lemma_filter_index(s, is_applied());
        let w = s.filter(is_applied());
        let m = n - 1;
        assert(is_applied()(s[i]));
        if s[m].in_workspace {
            assert(is_applied()(s[m]));
            assert(w[applied_before(s, m) as int] == s[m]);
            assert(w[applied_before(s, i) as int] == s[i]);
            if m < i {
                lemma_kept_before_order(s, is_applied(), m, i);
            }
            if i < m {
                lemma_kept_before_order(s, is_applied(), i, m);
            }
            assert(comes_before(s, i)(m) == before_key(orders(w), applied_before(s, i) as int)(
                applied_before(s, m) as int,
            ));
        }
    }
}

/// The rank of a branch in the workspace is the place that a stable sort by
/// order gives it among the branches in the workspace.
pub proof fn lemma_rank_is_place(s: Seq<StackView>, i: int)
    requires
        0 <= i < s.len(),
        s[i].in_workspace,
    ensures
        rank(s, i) == place(orders(s.filter(is_applied())), applied_before(s, i) as int),
        rank(s, i) < s.filter(is_applied()).len(),
{
    lemma_rank_prefix(s, i, s.len() as int);
    lemma_filter_index(s, is_applied());
    assert(is_applied()(s[i]));
    lemma_place_bound(orders(s.filter(is_applied())), applied_before(s, i) as int);
}

/// Two branches in the workspace never have one rank.
pub proof fn lemma_rank_distinct(s: Seq<StackView>, i: int, j: int)
    requires
        0 <= i < s.len(),
        0 <= j < s.len(),
        s[i].in_workspace,
        s[j].in_workspace,
        i != j,
    ensures
        rank(s, i) != rank(s, j),
{
    if sorts_before(orders(s), i, j) {
        lemma_count_strict(comes_before(s, i), comes_before(s, j), s.len() as int, i);
    } else {
        lemma_count_strict(comes_before(s, j), comes_before(s, i), s.len() as int, j);
    }
}

/// A branch in the workspace that comes before another has the smaller rank,
/// and only such a branch has.
pub proof fn lemma_rank_order(s: Seq<StackView>, j: int, i: int)
    requires
        0 <= i < s.len(),
        0 <= j < s.len(),
        s[i].in_workspace,
        s[j].in_workspace,
    ensures
        sorts_before(orders(s), j, i) <==> rank(s, j) < rank(s, i),
{
    if i != j {
        if sorts_before(orders(s), j, i) {
            lemma_count_strict(comes_before(s, j), comes_before(s, i), s.len() as int, j);
        } else {
            lemma_count_strict(comes_before(s, i), comes_before(s, j), s.len() as int, i);
        }
    }
}

/// The ranks are dense: each of `0 .. n`, where `n` branches are in the
/// workspace, is the rank of one of them.
pub proof fn lemma_rank_onto(s: Seq<StackView>, k: int)
    requires
        0 <= k < s.filter(is_applied()).len(),
    ensures
        exists|i: int| 0 <= i < s.len() && s[i].in_workspace && #[trigger] rank(s, i) == k,
{
    let w = s.filter(is_applied());
    lemma_place_onto(orders(w), k);
    let q = choose|q: int| 0 <= q < orders(w).len() && #[trigger] place(orders(w), q) == k;
    let i = lemma_filter_source(s, is_applied(), q);
    lemma_rank_is_place(s, i);
    assert(rank(s, i) == k);
}

/// Ranks do not change when the order values are replaced by the ranks.
pub proof fn lemma_rank_stays(s: Seq<StackView>, i: int)
    requires
        0 <= i < s.len(),
        s[i].in_workspace,
    ensures
        rank(reordered(s), i) == rank(s, i),
{
    let t = reordered(s);
    assert forall|j: int| 0 <= j < s.len() implies #[trigger] comes_before(t, i)(j)
        == comes_before(s, i)(j) by {
        if s[j].in_workspace {
            lemma_rank_order(s, j, i);
            if i != j {
                lemma_rank_distinct(s, i, j);
            }
        }
    }
    lemma_count_same(comes_before(t, i), comes_before(s, i), s.len() as int);
}

/// Making the order dense twice gives what making it dense once gives.
pub proof fn lemma_reordered_twice(s: Seq<StackView>)
    ensures
        reordered(reordered(s)) == reordered(s),
{
    let t = reordered(s);
    assert forall|i: int| 0 <= i < s.len() implies reordered(t)[i] == t[i] by {
        if s[i].in_workspace {
            lemma_rank_stays(s, i);
        }
    }
    assert(reordered(t) =~= t);
}

/// `update_ordering` is idempotent: a document whose order was made dense is
/// left as it is when the order is made dense again.
pub proof fn lemma_normalized_twice(d: VirtualBranchesView)
    ensures
        d.normalized().normalized() == d.normalized(),
{
    lemma_reordered_twice(d.branches);
}

/// Making the order dense changes neither the ids nor which branches are in
/// the workspace, so a well-formed document stays well formed.
pub proof fn lemma_reordered_wf(s: Seq<StackView>)
    requires
        unique_ids(s),
    ensures
        unique_ids(reordered(s)),
        reordered(s).len() == s.len(),
        forall|i: int|
            0 <= i < s.len() ==> (#[trigger] reordered(s)[i]).id == s[i].id && reordered(
                s,
            )[i].in_workspace == s[i].in_workspace,
{
}

/// `Itertools::sorted_by_key`, with the order value of a branch as its key.
/// The sort is stable, so each branch comes out at the place that counts the
/// branches sorted before it: those with a smaller key, and those with the
/// same key that stood before it.
#[verifier::external_body]
fn sorted_by_order(branches: Vec<Stack>) -> (r: Vec<Stack>)
    ensures
        r@.len() == branches@.len(),
        forall|i: int|
            0 <= i < branches@.len() ==> r@[place(order_keys(branches@), i) as int]
                == #[trigger] branches@[i],
{
    branches.into_iter().sorted_by_key(|b| b.order).collect()
}

/// The branches of `s` once `update_ordering` has written `k` of its
/// updates: the branches of the workspace whose rank is less than `k` have
/// their new order value, the others their old one.
pub open spec fn written(s: Seq<StackView>, k: int) -> Seq<StackView> {
    Seq::new(
        s.len(),
        |i: int|
            if s[i].in_workspace && rank(s, i) < k {
                s[i].with_order(rank(s, i))
            } else {
                s[i]
            },
    )
}

/// What stands at place `k` of the sorted branches: a branch of the workspace
/// whose rank is `k`.
proof fn lemma_sorted_at(s: Seq<StackView>, sorted: Seq<StackView>, k: int) -> (i: int)
    requires
        sorted.len() == s.filter(is_applied()).len(),
        forall|q: int|
            0 <= q < sorted.len() ==> sorted[place(orders(s.filter(is_applied())), q) as int]
                == #[trigger] s.filter(is_applied())[q],
        0 <= k < sorted.len(),
    ensures
        0 <= i < s.len(),
        s[i].in_workspace,
        rank(s, i) == k,
        sorted[k] == s[i],
{
    let w = s.filter(is_applied());
    lemma_place_onto(orders(w), k);
    let q = choose|q: int| 0 <= q < orders(w).len() && #[trigger] place(orders(w), q) == k;
    assert(sorted[place(orders(w), q) as int] == w[q]);
    let i = lemma_filter_source(s, is_applied(), q);
    lemma_rank_is_place(s, i);
    i
}

/// Whether `updates` are the branches of the workspace in their new order:
/// as many as the workspace holds, each at the index of its rank, with the
/// rank as its order value.
pub open spec fn is_ordering_of(updates: Seq<StackView>, s: Seq<StackView>) -> bool {
    &&& updates.len() == s.filter(is_applied()).len()
    &&& forall|i: int|
        0 <= i < s.len() && (#[trigger] s[i]).in_workspace ==> rank(s, i) < updates.len()
            && updates[rank(s, i) as int] == s[i].with_order(rank(s, i))
}

impl VirtualBranchesView {
    /// The document with each of `updates` put in, one after the other.
    pub open spec fn with_branches(self, updates: Seq<StackView>) -> VirtualBranchesView
        decreases updates.len(),
    {
        if updates.len() == 0 {
            self
        } else {
            self.with_branches(updates.drop_last()).with_branch(updates.last())
        }
    }
}

/// What the document holds once the first `k` updates of an ordering are
/// written: the branches of the workspace whose rank is less than `k` have
/// their new order value, and nothing else has changed. So a pass that stops
/// at a write that fails leaves the earlier writes in place.
pub proof fn lemma_ordering_written(d: VirtualBranchesView, updates: Seq<StackView>, k: int)
    requires
        d.wf(),
        is_ordering_of(updates, d.branches),
        0 <= k <= updates.len(),
    ensures
        d.with_branches(updates.take(k)) == (VirtualBranchesView {
            branches: written(d.branches, k),
            ..d
        }),
    decreases k,
{
    let s = d.branches;
    if k == 0 {
        assert(written(s, 0) =~= s);
    } else {
        lemma_ordering_written(d, updates, k - 1);
        assert(updates.take(k).drop_last() == updates.take(k - 1));
        let before = d.with_branches(updates.take(k - 1));
        let now = before.branches;
        let b = updates[k - 1];
        lemma_rank_onto(s, k - 1);
        let i = choose|i: int| 0 <= i < s.len() && s[i].in_workspace && #[trigger] rank(s, i) == k - 1;
        assert(updates[rank(s, i) as int] == s[i].with_order(rank(s, i)));
        assert(is_first(now, has_id(b.id), i)) by {
            assert forall|j: int| 0 <= j < i implies !has_id(b.id)(#[trigger] now[j]) by {
                assert(now[j].id == s[j].id);
            }
        }
        lemma_first_index_found(now, has_id(b.id), i);
        assert(now.update(i, b) =~= written(s, k)) by {
            assert forall|j: int| 0 <= j < s.len() implies now.update(i, b)[j] == written(s, k)[j] by {
                if j != i && s[j].in_workspace {
                    lemma_rank_distinct(s, i, j);
                }
            }
        }
    }
}

/// Once all updates of an ordering are written, the order is dense.
pub proof fn lemma_all_written(s: Seq<StackView>, updates: Seq<StackView>)
    requires
        is_ordering_of(updates, s),
    ensures
        written(s, updates.len() as int) == reordered(s),
{
    assert(written(s, updates.len() as int) =~= reordered(s));
}

impl VirtualBranchesHandle {
    /// The branches of the workspace as `update_ordering` writes them, in the
    /// order in which it writes them: sorted by order value, those with one
    /// value in the order of the document, and each with its index as its new
    /// order value.
    ///
    /// Whoever saves the document after each write, and stops at the first
    /// write that fails, has written the first of these and none of the rest.
    pub fn ordering_updates(&self) -> (r: Vec<Stack>)
        ensures
            self@.wf(),
            is_ordering_of(views(r@), self@.branches),
    {
        let branches = self.list_branches_in_workspace();
        let ghost s = self@.branches;
        let ghost w = s.filter(is_applied());
        assert(order_keys(branches@) =~= orders(w)) by {
            assert forall|q: int| 0 <= q < w.len() implies order_keys(branches@)[q] == orders(
                w,
            )[q] by {
                assert(views(branches@)[q] == w[q]);
            }
        }
        let sorted = sorted_by_order(branches);
        assert forall|q: int| 0 <= q < sorted@.len() implies views(sorted@)[place(
            orders(w),
            q,
        ) as int] == #[trigger] w[q] by {
            lemma_place_bound(orders(w), q);
            assert(views(branches@)[q] == w[q]);
        }
        let mut updates: Vec<Stack> = Vec::new();
        let mut k: usize = 0;
        while k < sorted.len()
            invariant
                k <= sorted.len(),
                updates@.len() == k,
                forall|j: int|
                    0 <= j < k ==> (#[trigger] updates@[j])@ == sorted@[j]@.with_order(j as nat),
            decreases sorted.len() - k,
        {
            let mut branch = sorted[k].clone();
            branch.order = k;
            updates.push(branch);
            k = k + 1;
        }
        proof {
            assert forall|i: int| 0 <= i < s.len() && (#[trigger] s[i]).in_workspace implies rank(
                s,
                i,
            ) < views(updates@).len() && views(updates@)[rank(s, i) as int] == s[i].with_order(
                rank(s, i),
            ) by {
                lemma_rank_is_place(s, i);
                lemma_filter_index(s, is_applied());
                assert(is_applied()(s[i]));
                let q = applied_before(s, i) as int;
                assert(views(sorted@)[place(orders(w), q) as int] == w[q]);
                assert(updates@[rank(s, i) as int]@ == sorted@[rank(s, i) as int]@.with_order(
                    rank(s, i),
                ));
            }
        }
        updates
    }

    /// Makes the order of the workspace dense: each branch in the workspace
    /// gets the number of such branches that come before it, by order value
    /// and, among those with one value, by their place in the document. The
    /// other branches stay as they are.
    pub fn update_ordering(&mut self)
        ensures
            final(self)@.wf(),
            final(self)@ == old(self)@.normalized(),
    {
        let updates = self.ordering_updates();
        let ghost all = views(updates@);
        let mut k: usize = 0;
        while k < updates.len()
            invariant
                k <= updates.len(),
                all == views(updates@),
                self@.wf(),
                self@ == old(self)@.with_branches(all.take(k as int)),
            decreases updates.len() - k,
        {
            proof {
                assert(all.take(k + 1).drop_last() == all.take(k as int));
                assert(all.take(k + 1).last() == updates@[k as int]@);
            }
            self.set_branch(updates[k].clone());
            k = k + 1;
        }
        proof {
            assert(all.take(updates.len() as int) == all);
            lemma_ordering_written(old(self)@, all, all.len() as int);
            lemma_all_written(old(self)@.branches, all);
        }
    }

    /// The index for a branch that is added at the end of the workspace.
    ///
    /// Makes the order dense first, as `update_ordering` does, and returns one
    /// more than the greatest order value in the workspace, or 0 where the
    /// workspace is empty: the number of branches in the workspace.
    pub fn next_order_index(&mut self) -> (r: usize)
        ensures
            final(self)@.wf(),
            final(self)@ == old(self)@.normalized(),
            r == final(self)@.in_workspace().len(),
            forall|i: int|
                0 <= i < final(self)@.branches.len()
                    && (#[trigger] final(self)@.branches[i]).in_workspace
                    ==> final(self)@.branches[i].order < r,
            r > 0 ==> exists|i: int|
                0 <= i < final(self)@.branches.len()
                    && (#[trigger] final(self)@.branches[i]).in_workspace
                    && final(self)@.branches[i].order + 1 == r,
    {
        self.update_ordering();
        let branches = self.list_branches_in_workspace();
        let ghost s = old(self)@.branches;
        let ghost t = self@.branches;
        let ghost w = t.filter(is_applied());
        assert(order_keys(branches@) =~= orders(w)) by {
            assert forall|q: int| 0 <= q < w.len() implies order_keys(branches@)[q] == orders(
                w,
            )[q] by {
                assert(views(branches@)[q] == w[q]);
            }
        }
        let sorted = sorted_by_order(branches);
        assert forall|q: int| 0 <= q < sorted@.len() implies views(sorted@)[place(
            orders(w),
            q,
        ) as int] == #[trigger] w[q] by {
            lemma_place_bound(orders(w), q);
            assert(views(branches@)[q] == w[q]);
        }
        proof {
            assert forall|i: int| 0 <= i < t.len() && (#[trigger] t[i]).in_workspace implies t[i].order
                < sorted@.len() by {
                lemma_rank_stays(s, i);
                lemma_rank_is_place(t, i);
            }
        }
        let n = sorted.len();
        if n == 0 {
            0
        } else {
            let last = &sorted[n - 1];
            proof {
                let i = lemma_sorted_at(t, views(sorted@), n - 1);
                lemma_rank_stays(s, i);
                assert(t[i].order == n - 1);
                assert(last@ == t[i]);
            }
            last.order + 1
        }
    }
}

} // verus!
