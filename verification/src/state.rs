//! The document that records the virtual branches, and the handle through
//! which it is read and changed.
//!
//! The handle holds the whole document in memory. Whoever loads and saves the
//! document must let one handle work on it at a time: nothing here locks it.

use vstd::prelude::*;

use crate::reference::Refname;
use crate::sequences::{
    first_index, first_match, is_first, lemma_filter_empty, lemma_filter_step, lemma_first_index,
    lemma_first_index_absent, lemma_first_index_found, views,
};
use crate::stack::{Stack, StackId, StackView};
use crate::target::{opt_target, Target, TargetView};

verus! {

/// Why an operation on the document failed.
#[derive(Clone, Copy, Debug, PartialEq, Eq, Structural)]
pub enum StoreError {
    /// The document has no default target.
    DefaultTargetNotFound,
    /// The document has no branch of this id, or none that is in the workspace
    /// where one was asked for.
    BranchNotFound(StackId),
    /// The head of this branch was found, and no merge base of it and the
    /// target.
    MergeBaseNotFound(StackId),
}

/// The branches of this id.
pub open spec fn has_id(id: StackId) -> spec_fn(StackView) -> bool {
    |b: StackView| b.id == id
}

/// The branches that are in the workspace.
pub open spec fn is_applied() -> spec_fn(StackView) -> bool {
    |b: StackView| b.in_workspace
}

/// Whether no two branches of `s` share an id.
pub open spec fn unique_ids(s: Seq<StackView>) -> bool {
    forall|i: int, j: int| 0 <= i < j < s.len() ==> s[i].id != s[j].id
}

/// What a [`VirtualBranches`] document stands for.
pub struct VirtualBranchesView {
    /// The target that was set when the repository was added, if any was.
    pub default_target: Option<TargetView>,
    /// A target per branch: kept as found, read by no operation.
    pub branch_targets: Seq<(StackId, TargetView)>,
    /// The branches, in the order in which they are listed.
    pub branches: Seq<StackView>,
}

impl VirtualBranchesView {
    /// Whether the document is well formed: no two branches share an id.
    pub open spec fn wf(self) -> bool {
        unique_ids(self.branches)
    }

    /// Where the branch of this id stands among the branches, if it is there.
    pub open spec fn position(self, id: StackId) -> Option<int> {
        first_index(self.branches, has_id(id))
    }

    /// The branch of this id, if it is there.
    pub open spec fn branch(self, id: StackId) -> Option<StackView> {
        match self.position(id) {
            Some(i) => Some(self.branches[i]),
            None => None,
        }
    }

    /// The document with `b` in place of the branch of its id, or behind the
    /// others where there was none.
    pub open spec fn with_branch(self, b: StackView) -> VirtualBranchesView {
        match self.position(b.id) {
            Some(i) => VirtualBranchesView { branches: self.branches.update(i, b), ..self },
            None => VirtualBranchesView { branches: self.branches.push(b), ..self },
        }
    }

    /// The document without the branch of this id.
    pub open spec fn without_branch(self, id: StackId) -> VirtualBranchesView {
        match self.position(id) {
            Some(i) => VirtualBranchesView { branches: self.branches.remove(i), ..self },
            None => self,
        }
    }

    /// The branches that are in the workspace, in the order of the document.
    pub open spec fn in_workspace(self) -> Seq<StackView> {
        self.branches.filter(is_applied())
    }

    /// The document with this default target.
    pub open spec fn with_default_target(self, t: TargetView) -> VirtualBranchesView {
        VirtualBranchesView { default_target: Some(t), ..self }
    }
}

/// The branches that come of putting those of `s` into an empty document one
/// after the other: of several with one id the last stays, where the first stood.
pub open spec fn gathered(s: Seq<StackView>) -> Seq<StackView>
    decreases s.len(),
{
    if s.len() == 0 {
        Seq::empty()
    } else {
        let init = gathered(s.drop_last());
        match first_index(init, has_id(s.last().id)) {
            Some(i) => init.update(i, s.last()),
            None => init.push(s.last()),
        }
    }
}

/// Putting a branch into a well-formed document leaves it well formed, and
/// the branch is then found under its id.
pub proof fn lemma_with_branch(d: VirtualBranchesView, b: StackView)
    requires
        d.wf(),
    ensures
        d.with_branch(b).wf(),
        d.with_branch(b).branch(b.id) == Some(b),
        forall|id: StackId| id != b.id ==> d.with_branch(b).branch(id) == d.branch(id),
{
    let s = d.branches;
    let e = d.with_branch(b);
    lemma_first_index(s, has_id(b.id));
    match d.position(b.id) {
        Some(i) => {
            assert(is_first(e.branches, has_id(b.id), i));
            lemma_first_index_found(e.branches, has_id(b.id), i);
        },
        None => {
            assert(is_first(e.branches, has_id(b.id), s.len() as int));
            lemma_first_index_found(e.branches, has_id(b.id), s.len() as int);
        },
    }
    assert forall|id: StackId| id != b.id implies e.branch(id) == d.branch(id) by {
        lemma_first_index(s, has_id(id));
        match d.position(id) {
            Some(k) => {
                assert(is_first(e.branches, has_id(id), k));
                lemma_first_index_found(e.branches, has_id(id), k);
            },
            None => {
                lemma_first_index_absent(e.branches, has_id(id));
            },
        }
    }
}

/// Taking a branch out of a well-formed document leaves it well formed, and
/// the branch is then no longer found.
pub proof fn lemma_without_branch(d: VirtualBranchesView, id: StackId)
    requires
        d.wf(),
    ensures
        d.without_branch(id).wf(),
        d.without_branch(id).branch(id) is None,
        forall|other: StackId| other != id ==> d.without_branch(id).branch(other) == d.branch(other),
{
    let s = d.branches;
    let e = d.without_branch(id);
    lemma_first_index(s, has_id(id));
    lemma_first_index_absent(e.branches, has_id(id));
    assert forall|other: StackId| other != id implies e.branch(other) == d.branch(other) by {
        lemma_first_index(s, has_id(other));
        match d.position(other) {
            Some(k) => {
                let k2 = match d.position(id) {
                    Some(i) => if k < i { k } else { k - 1 },
                    None => k,
                };
                assert(is_first(e.branches, has_id(other), k2));
                lemma_first_index_found(e.branches, has_id(other), k2);
            },
            None => {
                lemma_first_index_absent(e.branches, has_id(other));
            },
        }
    }
}

/// The state of the virtual branches, as it is persisted. No two of its
/// branches share an id: every document is well formed.
pub struct VirtualBranches {
    default_target: Option<Target>,
    branch_targets: Vec<(StackId, Target)>,
    branches: Vec<Stack>,
}

/// The views of the targets that are kept per branch.
pub open spec fn branch_target_views(s: Seq<(StackId, Target)>) -> Seq<(StackId, TargetView)> {
    Seq::new(s.len(), |i: int| (s[i].0, s[i].1@))
}

impl View for VirtualBranches {
    type V = VirtualBranchesView;

    closed spec fn view(&self) -> VirtualBranchesView {
        VirtualBranchesView {
            default_target: opt_target(self.default_target),
            branch_targets: branch_target_views(self.branch_targets@),
            branches: views(self.branches@),
        }
    }
}

impl Default for VirtualBranches {
    fn default() -> (r: Self)
        ensures
            r@.wf(),
            r@.default_target is None,
            r@.branch_targets.len() == 0,
            r@.branches.len() == 0,
    {
        VirtualBranches::new()
    }
}

impl VirtualBranches {
    /// No two branches of a document share an id.
    #[verifier::type_invariant]
    spec fn ids_are_unique(self) -> bool {
        unique_ids(self@.branches)
    }

    /// A document without target and without branches.
    pub fn new() -> (r: Self)
        ensures
            r@.wf(),
            r@.default_target is None,
            r@.branch_targets.len() == 0,
            r@.branches.len() == 0,
    {
        VirtualBranches { default_target: None, branch_targets: Vec::new(), branches: Vec::new() }
    }

    /// The document made of these parts. Of several branches with one id the
    /// last stays, as in a map that is filled in this order.
    pub fn from_parts(
        default_target: Option<Target>,
        branch_targets: Vec<(StackId, Target)>,
        branches: Vec<Stack>,
    ) -> (r: Self)
        ensures
            r@.wf(),
            r@.default_target == opt_target(default_target),
            r@.branch_targets == branch_target_views(branch_targets@),
            r@.branches == gathered(views(branches@)),
    {
        let mut doc = VirtualBranches { default_target, branch_targets, branches: Vec::new() };
        let ghost all = views(branches@);
        let mut i: usize = 0;
        while i < branches.len()
            invariant
                i <= branches.len(),
                all == views(branches@),
                doc@.wf(),
                doc@.default_target == opt_target(default_target),
                doc@.branch_targets == branch_target_views(branch_targets@),
                doc@.branches == gathered(all.take(i as int)),
            decreases branches.len() - i,
        {
            proof {
                assert(all.take(i + 1).drop_last() == all.take(i as int));
                assert(all.take(i + 1).last() == branches@[i as int]@);
            }
            doc.put(branches[i].clone());
            i = i + 1;
        }
        assert(all.take(branches.len() as int) == all);
        doc
    }

    /// The parts of the document: the default target, the targets kept per
    /// branch, and the branches.
    pub fn into_parts(self) -> (r: (Option<Target>, Vec<(StackId, Target)>, Vec<Stack>))
        ensures
            self@.wf(),
            opt_target(r.0) == self@.default_target,
            branch_target_views(r.1@) == self@.branch_targets,
            views(r.2@) == self@.branches,
    {
        proof {
            use_type_invariant(&self);
        }
        (self.default_target, self.branch_targets, self.branches)
    }

    /// Lists all virtual branches, in the order of the document.
    pub fn list_all_branches(&self) -> (r: Vec<Stack>)
        ensures
            self@.wf(),
            views(r@) == self@.branches,
    {
        proof {
            use_type_invariant(self);
        }
        let mut out: Vec<Stack> = Vec::new();
        let mut i: usize = 0;
        while i < self.branches.len()
            invariant
                i <= self.branches.len(),
                out@.len() == i,
                forall|k: int| 0 <= k < i ==> out@[k]@ == self.branches@[k]@,
            decreases self.branches.len() - i,
        {
            out.push(self.branches[i].clone());
            i = i + 1;
        }
        assert(views(out@) =~= self@.branches);
        out
    }

    /// Lists the virtual branches that are in the workspace, in the order of
    /// the document.
    pub fn list_branches_in_workspace(&self) -> (r: Vec<Stack>)
        ensures
            self@.wf(),
            views(r@) == self@.in_workspace(),
    {
        proof {
            use_type_invariant(self);
        }
        let mut out: Vec<Stack> = Vec::new();
        let mut i: usize = 0;
        proof {
            lemma_filter_empty(self@.branches.take(0), is_applied());
        }
        while i < self.branches.len()
            invariant
                i <= self.branches.len(),
                views(out@) == self@.branches.take(i as int).filter(is_applied()),
            decreases self.branches.len() - i,
        {
            proof {
                lemma_filter_step(self@.branches, is_applied(), i as int);
            }
            if self.branches[i].in_workspace {
                let ghost before = out@;
                out.push(self.branches[i].clone());
                assert(views(out@) =~= views(before).push(self@.branches[i as int]));
            }
            i = i + 1;
        }
        assert(self@.branches.take(self.branches.len() as int) == self@.branches);
        out
    }

    /// Where the branch of this id stands, if it is there.
    fn index_of(&self, id: StackId) -> (r: Option<usize>)
        ensures
            match r {
                Some(i) => self@.position(id) == Some(i as int) && i < self.branches@.len(),
                None => self@.position(id) is None,
            },
    {
        let mut i: usize = 0;
        while i < self.branches.len()
            invariant
                i <= self.branches.len(),
                forall|k: int| 0 <= k < i ==> !has_id(id)(#[trigger] self@.branches[k]),
            decreases self.branches.len() - i,
        {
            if self.branches[i].id == id {
                proof {
                    assert(is_first(self@.branches, has_id(id), i as int));
                    lemma_first_index_found(self@.branches, has_id(id), i as int);
                }
                return Some(i);
            }
            i = i + 1;
        }
        proof {
            lemma_first_index_absent(self@.branches, has_id(id));
        }
        None
    }

    /// Puts `branch` in the place of the branch of its id, or behind the
    /// others where there is none.
    fn put(&mut self, branch: Stack)
        ensures
            final(self)@.wf(),
            final(self)@ == old(self)@.with_branch(branch@),
    {
        proof {
            use_type_invariant(&*self);
            lemma_with_branch(self@, branch@);
        }
        let found = self.index_of(branch.id);
        let mut branches: Vec<Stack> = Vec::new();
        core::mem::swap(&mut self.branches, &mut branches);
        match found {
            Some(i) => {
                branches.set(i, branch);
                assert(views(branches@) =~= old(self)@.branches.update(i as int, branch@));
            },
            None => {
                branches.push(branch);
                assert(views(branches@) =~= old(self)@.branches.push(branch@));
            },
        }
        core::mem::swap(&mut self.branches, &mut branches);
    }

    /// Takes out the branch of this id, if it is there.
    fn take_out(&mut self, id: StackId)
        ensures
            final(self)@.wf(),
            final(self)@ == old(self)@.without_branch(id),
    {
        proof {
            use_type_invariant(&*self);
            lemma_without_branch(self@, id);
        }
        match self.index_of(id) {
            Some(i) => {
                let mut branches: Vec<Stack> = Vec::new();
                core::mem::swap(&mut self.branches, &mut branches);
                let _ = branches.remove(i);
                assert(views(branches@) =~= old(self)@.branches.remove(i as int));
                core::mem::swap(&mut self.branches, &mut branches);
            },
            None => {},
        }
    }

    /// Sets the default target.
    fn put_default_target(&mut self, target: Target)
        ensures
            final(self)@.wf(),
            final(self)@ == old(self)@.with_default_target(target@),
    {
        proof {
            use_type_invariant(&*self);
        }
        self.default_target = Some(target);
    }
}

/// The optional branch as its view.
pub open spec fn opt_stack(b: Option<Stack>) -> Option<StackView> {
    match b {
        Some(x) => Some(x@),
        None => None,
    }
}

/// The branches that are out of the workspace and were made from the
/// reference whose full name is `text`.
pub open spec fn was_made_from(text: Seq<char>) -> spec_fn(StackView) -> bool {
    |b: StackView|
        !b.in_workspace && (match b.source_refname {
            Some(s) => s.text() == text,
            None => false,
        })
}

/// A handle to the state of the virtual branches.
///
/// It holds the document as it was loaded, and every operation works on the
/// whole of it. The caller saves the document after an operation that changed
/// it, and must not let two handles work on one document at a time.
pub struct VirtualBranchesHandle {
    state: VirtualBranches,
}

impl View for VirtualBranchesHandle {
    type V = VirtualBranchesView;

    closed spec fn view(&self) -> VirtualBranchesView {
        self.state@
    }
}

impl VirtualBranchesHandle {
    /// A handle to this document.
    pub fn new(state: VirtualBranches) -> (r: Self)
        ensures
            r@ == state@,
            r@.wf(),
    {
        proof {
            use_type_invariant(&state);
        }
        VirtualBranchesHandle { state }
    }

    /// The document as it stands.
    pub fn state(&self) -> (r: &VirtualBranches)
        ensures
            r@ == self@,
            self@.wf(),
    {
        proof {
            use_type_invariant(&self.state);
        }
        &self.state
    }

    /// Gives the document back.
    pub fn into_state(self) -> (r: VirtualBranches)
        ensures
            r@ == self@,
            self@.wf(),
    {
        proof {
            use_type_invariant(&self.state);
        }
        self.state
    }

    /// Sets the default target.
    pub fn set_default_target(&mut self, target: Target)
        ensures
            final(self)@.wf(),
            final(self)@ == old(self)@.with_default_target(target@),
    {
        self.state.put_default_target(target);
    }

    /// The default target, or `DefaultTargetNotFound` where none is set.
    pub fn get_default_target(&self) -> (r: Result<Target, StoreError>)
        ensures
            self@.wf(),
            match r {
                Ok(t) => self@.default_target == Some(t@),
                Err(e) => e == StoreError::DefaultTargetNotFound && self@.default_target is None,
            },
    {
        proof {
            use_type_invariant(&self.state);
        }
        match &self.state.default_target {
            Some(t) => Ok(t.clone()),
            None => Err(StoreError::DefaultTargetNotFound),
        }
    }

    /// Sets the state of the given virtual branch: it replaces the branch of
    /// its id where it stands, or is added behind the others.
    pub fn set_branch(&mut self, branch: Stack)
        ensures
            final(self)@.wf(),
            final(self)@ == old(self)@.with_branch(branch@),
    {
        self.state.put(branch);
    }

    /// Marks a branch as not in the workspace. Fails with `BranchNotFound`,
    /// and changes nothing, where the document has no branch of this id.
    pub fn mark_as_not_in_workspace(&mut self, id: StackId) -> (r: Result<(), StoreError>)
        ensures
            final(self)@.wf(),
            match r {
                Ok(_) => old(self)@.branch(id) is Some && final(self)@ == old(self)@.with_branch(
                    old(self)@.branch(id)->0.out_of_workspace(),
                ),
                Err(e) => e == StoreError::BranchNotFound(id) && old(self)@.branch(id) is None
                    && final(self)@ == old(self)@,
            },
    {
        match self.get_branch(id) {
            Ok(mut branch) => {
                branch.in_workspace = false;
                self.set_branch(branch);
                Ok(())
            },
            Err(e) => Err(e),
        }
    }

    /// The first branch that is out of the workspace and was made from the
    /// reference of this full name. Where several are, the one that the
    /// document lists first.
    pub fn find_by_source_refname_where_not_in_workspace(&self, refname: &Refname) -> (r: Option<
        Stack,
    >)
        ensures
            self@.wf(),
            opt_stack(r) == first_match(self@.branches, was_made_from(refname@.text())),
    {
        proof {
            use_type_invariant(&self.state);
        }
        let wanted = refname.text();
        let ghost p = was_made_from(refname@.text());
        let mut i: usize = 0;
        while i < self.state.branches.len()
            invariant
                i <= self.state.branches.len(),
                self@.wf(),
                wanted@ == refname@.text(),
                p == was_made_from(refname@.text()),
                forall|k: int| 0 <= k < i ==> !p(#[trigger] self@.branches[k]),
            decreases self.state.branches.len() - i,
        {
            let branch = &self.state.branches[i];
            if !branch.in_workspace {
                if let Some(source) = &branch.source_refname {
                    if source.text() == wanted {
                        proof {
                            assert(p(self@.branches[i as int]));
                            assert(is_first(self@.branches, p, i as int));
                            lemma_first_index_found(self@.branches, p, i as int);
                        }
                        return Some(branch.clone());
                    }
                }
            }
            assert(!p(self@.branches[i as int]));
            i = i + 1;
        }
        proof {
            lemma_first_index_absent(self@.branches, p);
        }
        None
    }

    /// The branch of this id if it is in the workspace; else `BranchNotFound`.
    pub fn get_branch_in_workspace(&self, id: StackId) -> (r: Result<Stack, StoreError>)
        ensures
            self@.wf(),
            match r {
                Ok(b) => self@.branch(id) == Some(b@) && b@.in_workspace,
                Err(e) => e == StoreError::BranchNotFound(id) && !(self@.branch(id) is Some
                    && self@.branch(id)->0.in_workspace),
            },
    {
        match self.try_branch_in_workspace(id) {
            Some(b) => Ok(b),
            None => Err(StoreError::BranchNotFound(id)),
        }
    }

    /// The branch of this id; `BranchNotFound` where the document has none.
    pub fn get_branch(&self, id: StackId) -> (r: Result<Stack, StoreError>)
        ensures
            self@.wf(),
            match r {
                Ok(b) => self@.branch(id) == Some(b@),
                Err(e) => e == StoreError::BranchNotFound(id) && self@.branch(id) is None,
            },
    {
        match self.try_branch(id) {
            Some(b) => Ok(b),
            None => Err(StoreError::BranchNotFound(id)),
        }
    }

    /// The branch of this id if the document has it and it is in the
    /// workspace.
    pub fn try_branch_in_workspace(&self, id: StackId) -> (r: Option<Stack>)
        ensures
            self@.wf(),
            match r {
                Some(b) => self@.branch(id) == Some(b@) && b@.in_workspace,
                None => !(self@.branch(id) is Some && self@.branch(id)->0.in_workspace),
            },
    {
        match self.try_branch(id) {
            Some(b) => if b.in_workspace {
                Some(b)
            } else {
                None
            },
            None => None,
        }
    }

    /// The branch of this id, if the document has it.
    pub fn try_branch(&self, id: StackId) -> (r: Option<Stack>)
        ensures
            self@.wf(),
            opt_stack(r) == self@.branch(id),
    {
        proof {
            use_type_invariant(&self.state);
        }
        match self.state.index_of(id) {
            Some(i) => Some(self.state.branches[i].clone()),
            None => None,
        }
    }

    /// Lists all virtual branches, in the order of the document.
    pub fn list_all_branches(&self) -> (r: Vec<Stack>)
        ensures
            self@.wf(),
            views(r@) == self@.branches,
    {
        self.state.list_all_branches()
    }

    /// Lists the virtual branches that are in the workspace, in the order of
    /// the document.
    pub fn list_branches_in_workspace(&self) -> (r: Vec<Stack>)
        ensures
            self@.wf(),
            views(r@) == self@.in_workspace(),
    {
        self.state.list_branches_in_workspace()
    }

    /// Removes the branch of this id, if the document has it.
    pub fn delete_branch_entry(&mut self, branch_id: &StackId)
        ensures
            final(self)@.wf(),
            final(self)@ == old(self)@.without_branch(*branch_id),
    {
        self.state.take_out(*branch_id);
    }
}

} // verus!
