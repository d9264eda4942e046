//! Garbage collection: which branches out of the workspace hold nothing
//! that is worth keeping.

use vstd::prelude::*;

use crate::oid::Oid;
use crate::repository::{Repository, RepositoryView};
use crate::sequences::{
    first_match, is_first, kept_before, lemma_filter_empty, lemma_filter_index,
    lemma_filter_source, lemma_filter_step, lemma_first_index, lemma_first_index_absent,
    lemma_first_index_found, lemma_kept_before_order, views,
};
use crate::stack::{StackId, StackView};
use crate::state::{has_id, unique_ids, StoreError, VirtualBranchesHandle, VirtualBranchesView};

verus! {

/// The branches that garbage collection looks at: those out of the workspace
/// that carry no mark of work in progress.
pub open spec fn is_candidate(b: StackView) -> bool {
    !b.in_workspace && b.not_in_workspace_wip_change_id is None
}

/// The branches that garbage collection removes: candidates whose head
/// cannot be found, or is its own merge base with the target, so that the
/// branch holds no commit that the target lacks.
pub open spec fn is_garbage(repo: RepositoryView, sha: Oid) -> spec_fn(StackView) -> bool {
    |b: StackView|
        is_candidate(b) && (repo.commit(b.head) is None || repo.merge_base(b.head, sha) == Some(
            b.head,
        ))
}

/// The branches that garbage collection leaves.
pub open spec fn is_kept(repo: RepositoryView, sha: Oid) -> spec_fn(StackView) -> bool {
    |b: StackView| !is_garbage(repo, sha)(b)
}

/// The branches of which garbage collection cannot decide: candidates whose
/// head is found while no merge base of it and the target is.
pub open spec fn is_undecided(repo: RepositoryView, sha: Oid) -> spec_fn(StackView) -> bool {
    |b: StackView|
        is_candidate(b) && repo.commit(b.head) is Some && repo.merge_base(b.head, sha) is None
}

/// The ids of the branches, one for one.
pub open spec fn ids_of(s: Seq<StackView>) -> Seq<StackId> {
    Seq::new(s.len(), |i: int| s[i].id)
}

impl VirtualBranchesView {
    /// The document without its garbage.
    pub open spec fn collected(self, repo: RepositoryView, sha: Oid) -> VirtualBranchesView {
        VirtualBranchesView { branches: self.branches.filter(is_kept(repo, sha)), ..self }
    }
}

/// Filtering the branches of a well-formed document leaves each branch that
/// satisfies the predicate to be found under its id, and the others not.
pub proof fn lemma_filter_branches(d: VirtualBranchesView, p: spec_fn(StackView) -> bool, id: StackId)
    requires
        d.wf(),
    ensures
        unique_ids(d.branches.filter(p)),
        (VirtualBranchesView { branches: d.branches.filter(p), ..d }).branch(id) == match d.branch(
            id,
        ) {
            Some(b) => if p(b) {
                Some(b)
            } else {
                None
            },
            None => None,
        },
{
    let s = d.branches;
    let w = s.filter(p);
    let e = VirtualBranchesView { branches: w, ..d };
    assert forall|a: int, b: int| 0 <= a < b < w.len() implies w[a].id != w[b].id by {
        let i = lemma_filter_source(s, p, a);
        let j = lemma_filter_source(s, p, b);
        assert(i != j);
    }
    lemma_first_index(s, has_id(id));
    lemma_filter_index(s, p);
    match d.position(id) {
        Some(i) => {
            if p(s[i]) {
                let q = kept_before(s, p, i) as int;
                assert(w[q] == s[i]);
                assert forall|k: int| 0 <= k < q implies !has_id(id)(#[trigger] w[k]) by {
                    let j = lemma_filter_source(s, p, k);
                    if j > i {
                        lemma_kept_before_order(s, p, i, j);
                    }
                    assert(j != i);
                }
                assert(is_first(w, has_id(id), q));
                lemma_first_index_found(w, has_id(id), q);
            } else {
                assert forall|k: int| 0 <= k < w.len() implies !has_id(id)(#[trigger] w[k]) by {
                    let j = lemma_filter_source(s, p, k);
                    assert(j != i);
                }
                lemma_first_index_absent(w, has_id(id));
            }
        },
        None => {
            assert forall|k: int| 0 <= k < w.len() implies !has_id(id)(#[trigger] w[k]) by {
                let j = lemma_filter_source(s, p, k);
            }
            lemma_first_index_absent(w, has_id(id));
        },
    }
}

/// Garbage collection never removes a branch that carries a mark of work in
/// progress, whether or not its head can be found: the branch is found under
/// its id afterwards, as it was.
pub proof fn lemma_collected_keeps_work_in_progress(
    d: VirtualBranchesView,
    repo: RepositoryView,
    sha: Oid,
    id: StackId,
)
    requires
        d.wf(),
        d.branch(id) is Some,
        d.branch(id)->0.not_in_workspace_wip_change_id is Some,
    ensures
        d.collected(repo, sha).branch(id) == d.branch(id),
{
    lemma_filter_branches(d, is_kept(repo, sha), id);
}

/// Garbage collection never removes a branch that is in the workspace.
pub proof fn lemma_collected_keeps_workspace(
    d: VirtualBranchesView,
    repo: RepositoryView,
    sha: Oid,
    id: StackId,
)
    requires
        d.wf(),
        d.branch(id) is Some,
        d.branch(id)->0.in_workspace,
    ensures
        d.collected(repo, sha).branch(id) == d.branch(id),
{
    lemma_filter_branches(d, is_kept(repo, sha), id);
}

/// Garbage collection removes a branch that is out of the workspace and
/// carries no mark of work in progress when its head is the merge base of
/// itself and the target.
pub proof fn lemma_collected_removes_merged(
    d: VirtualBranchesView,
    repo: RepositoryView,
    sha: Oid,
    id: StackId,
)
    requires
        d.wf(),
        d.branch(id) is Some,
        !d.branch(id)->0.in_workspace,
        d.branch(id)->0.not_in_workspace_wip_change_id is None,
        repo.merge_base(d.branch(id)->0.head, sha) == Some(d.branch(id)->0.head),
    ensures
        d.collected(repo, sha).branch(id) is None,
{
    lemma_filter_branches(d, is_kept(repo, sha), id);
}

/// Garbage collection removes a branch that is out of the workspace and
/// carries no mark of work in progress when its head cannot be found.
pub proof fn lemma_collected_removes_broken(
    d: VirtualBranchesView,
    repo: RepositoryView,
    sha: Oid,
    id: StackId,
)
    requires
        d.wf(),
        d.branch(id) is Some,
        !d.branch(id)->0.in_workspace,
        d.branch(id)->0.not_in_workspace_wip_change_id is None,
        repo.commit(d.branch(id)->0.head) is None,
    ensures
        d.collected(repo, sha).branch(id) is None,
{
    lemma_filter_branches(d, is_kept(repo, sha), id);
}

impl VirtualBranchesHandle {
    /// Removes the branches that are out of the workspace and hold nothing:
    /// no mark of work in progress, and a head that cannot be found or is its
    /// own merge base with the target. Returns the ids of the branches that it
    /// removed, in the order of the document; the caller saves the document
    /// once, and only if there are any.
    ///
    /// Fails, and removes nothing, where the document has no default target,
    /// or where the head of a candidate is found and no merge base of it and
    /// the target: then with the first such branch of the document.
    pub fn garbage_collect(&mut self, repo: &Repository) -> (r: Result<Vec<StackId>, StoreError>)
        ensures
            final(self)@.wf(),
            match r {
                Ok(removed) => {
                    &&& old(self)@.default_target is Some
                    &&& first_match(
                        old(self)@.branches,
                        is_undecided(repo@, old(self)@.default_target->0.sha),
                    ) is None
                    &&& final(self)@ == old(self)@.collected(
                        repo@,
                        old(self)@.default_target->0.sha,
                    )
                    &&& removed@ == ids_of(
                        old(self)@.branches.filter(
                            is_garbage(repo@, old(self)@.default_target->0.sha),
                        ),
                    )
                },
                Err(e) => {
                    &&& final(self)@ == old(self)@
                    &&& match old(self)@.default_target {
                        None => e == StoreError::DefaultTargetNotFound,
                        Some(t) => match first_match(
                            old(self)@.branches,
                            is_undecided(repo@, t.sha),
                        ) {
                            Some(b) => e == StoreError::MergeBaseNotFound(b.id),
                            None => false,
                        },
                    }
                },
            },
    {
        let target = match self.get_default_target() {
            Ok(t) => t,
            Err(e) => {
                return Err(e);
            },
        };
        let sha = target.sha;
        let branches = self.list_all_branches();
        let ghost s = self@.branches;
        let ghost garbage = is_garbage(repo@, sha);
        let ghost kept = is_kept(repo@, sha);
        let ghost undecided = is_undecided(repo@, sha);
        let mut doomed: Vec<bool> = Vec::new();
        let mut removed: Vec<StackId> = Vec::new();
        let mut i: usize = 0;
        proof {
            lemma_filter_empty(s.take(0), garbage);
        }
        while i < branches.len()
            invariant
                i <= branches.len(),
                views(branches@) == s,
                self@ == old(self)@,
                self@.wf(),
                s == self@.branches,
                self@.default_target == Some(target@),
                sha == target@.sha,
                garbage == is_garbage(repo@, sha),
                undecided == is_undecided(repo@, sha),
                doomed@.len() == i,
                forall|k: int| 0 <= k < i ==> doomed@[k] == garbage(#[trigger] s[k]),
                forall|k: int| 0 <= k < i ==> !undecided(#[trigger] s[k]),
                removed@ == ids_of(s.take(i as int).filter(garbage)),
            decreases branches.len() - i,
        {
            let branch = &branches[i];
            assert(branch@ == s[i as int]);
            let mut gone = false;
            if !branch.in_workspace && branch.not_in_workspace_wip_change_id.is_none() {
                if repo.find_commit(branch.head()).is_none() {
                    gone = true;
                } else {
                    match repo.merge_base(branch.head(), sha) {
                        None => {
                            proof {
                                assert(undecided(s[i as int]));
                                assert(is_first(s, undecided, i as int));
                                lemma_first_index_found(s, undecided, i as int);
                            }
                            return Err(StoreError::MergeBaseNotFound(branch.id));
                        },
                        Some(base) => {
                            if base == branch.head() {
                                gone = true;
                            }
                        },
                    }
                }
            }
            proof {
                lemma_filter_step(s, garbage, i as int);
            }
            doomed.push(gone);
            if gone {
                removed.push(branch.id);
                assert(removed@ =~= ids_of(s.take(i as int).filter(garbage).push(s[i as int])));
            }
            i = i + 1;
        }
        proof {
            assert(s.take(branches.len() as int) == s);
            lemma_first_index_absent(s, undecided);
            lemma_filter_empty(s.take(0), kept);
            assert(s.take(0).filter(kept) + s.skip(0) =~= s);
        }
        let mut j: usize = 0;
        while j < branches.len()
            invariant
                j <= branches.len(),
                views(branches@) == s,
                s == old(self)@.branches,
                unique_ids(s),
                garbage == is_garbage(repo@, sha),
                kept == is_kept(repo@, sha),
                doomed@.len() == branches.len(),
                forall|k: int| 0 <= k < s.len() ==> doomed@[k] == garbage(#[trigger] s[k]),
                self@.wf(),
                self@.default_target == old(self)@.default_target,
                self@.branch_targets == old(self)@.branch_targets,
                self@.branches == s.take(j as int).filter(kept) + s.skip(j as int),
            decreases branches.len() - j,
        {
            let ghost front = s.take(j as int).filter(kept);
            let ghost now = self@.branches;
            proof {
                lemma_filter_step(s, kept, j as int);
                assert(branches@[j as int]@ == s[j as int]);
                assert(now[front.len() as int] == s[j as int]);
            }
            if doomed[j] {
                proof {
                    let id = s[j as int].id;
                    assert(is_first(now, has_id(id), front.len() as int));
                    lemma_first_index_found(now, has_id(id), front.len() as int);
                    assert(now.remove(front.len() as int) =~= front + s.skip(j + 1));
                }
                self.delete_branch_entry(&branches[j].id);
            } else {
                assert(now =~= front.push(s[j as int]) + s.skip(j + 1));
            }
            j = j + 1;
        }
        proof {
            assert(s.take(branches.len() as int) == s);
            assert(self@.branches =~= s.filter(kept));
        }
        Ok(removed)
    }
}

} // verus!
