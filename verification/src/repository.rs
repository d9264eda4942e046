//! What was read of a repository: its remotes and branches, and the answers
//! to the questions that listings and garbage collection ask of it.
//!
//! A [`Repository`] holds answers, not the repository. A commit that is not
//! among `commits` counts as one that cannot be found, and so for the merge
//! bases, the differences and the walks: whoever fills the tables decides what
//! the operations see.

use vstd::prelude::*;

use crate::commit::{Commit, CommitView};
use crate::oid::Oid;
use crate::sequences::{
    first_match, is_first, lemma_first_index_absent, lemma_first_index_found, views,
};
use crate::text::opt_text;

verus! {

/// A branch of the repository, as far as listings read it.
#[derive(Debug)]
pub struct ReferenceBranch {
    /// The short name of the reference: `feature`, `origin/feature`.
    pub name: String,
    /// The commit that the reference leads to, where it leads to one.
    pub head: Option<Oid>,
    /// The remote that the branch follows, where that can be told.
    pub remote: Option<String>,
}

/// What a [`ReferenceBranch`] stands for.
pub struct ReferenceBranchView {
    pub name: Seq<char>,
    pub head: Option<Oid>,
    pub remote: Option<Seq<char>>,
}

impl View for ReferenceBranch {
    type V = ReferenceBranchView;

    open spec fn view(&self) -> ReferenceBranchView {
        ReferenceBranchView {
            name: self.name@,
            head: self.head,
            remote: opt_text(self.remote),
        }
    }
}

impl Clone for ReferenceBranch {
    fn clone(&self) -> (r: Self)
        ensures
            r == *self,
    {
        ReferenceBranch {
            name: self.name.clone(),
            head: self.head,
            remote: self.remote.clone(),
        }
    }
}

/// The merge base of two commits, as the repository gave it for the two in
/// this order.
#[derive(Clone, Copy, Debug, PartialEq, Eq, Structural)]
pub struct MergeBase {
    pub one: Oid,
    pub two: Oid,
    pub base: Oid,
}

/// How the tree of one commit differs from that of another.
#[derive(Clone, Copy, Debug, PartialEq, Eq, Structural)]
pub struct DiffStats {
    pub old: Oid,
    pub new: Oid,
    /// The number of lines added.
    pub insertions: usize,
    /// The number of lines removed.
    pub deletions: usize,
    /// The number of files changed.
    pub files_changed: usize,
}

/// The commits that can be reached from `from` and not from `hidden`, in the
/// order in which the repository walks them.
#[derive(Debug)]
pub struct Walk {
    pub from: Oid,
    pub hidden: Oid,
    pub commits: Vec<Oid>,
}

/// What a [`Walk`] stands for.
pub struct WalkView {
    pub from: Oid,
    pub hidden: Oid,
    pub commits: Seq<Oid>,
}

impl View for Walk {
    type V = WalkView;

    open spec fn view(&self) -> WalkView {
        WalkView { from: self.from, hidden: self.hidden, commits: self.commits@ }
    }
}

/// What was read of a repository.
#[derive(Debug)]
pub struct Repository {
    /// The names of the remotes.
    pub remotes: Vec<String>,
    /// The local branches.
    pub local_branches: Vec<ReferenceBranch>,
    /// The branches that follow a branch of a remote.
    pub remote_branches: Vec<ReferenceBranch>,
    /// The commits that were found.
    pub commits: Vec<Commit>,
    /// The merge bases that were found.
    pub merge_bases: Vec<MergeBase>,
    /// The differences that were computed.
    pub diffs: Vec<DiffStats>,
    /// The walks that were made.
    pub walks: Vec<Walk>,
}

/// What a [`Repository`] stands for.
pub struct RepositoryView {
    pub remotes: Seq<Seq<char>>,
    pub local_branches: Seq<ReferenceBranchView>,
    pub remote_branches: Seq<ReferenceBranchView>,
    pub commits: Seq<CommitView>,
    pub merge_bases: Seq<MergeBase>,
    pub diffs: Seq<DiffStats>,
    pub walks: Seq<WalkView>,
}

/// The commits of this id.
pub open spec fn is_commit(id: Oid) -> spec_fn(CommitView) -> bool {
    |c: CommitView| c.id == id
}

/// The merge bases of these two commits, in this order.
pub open spec fn is_merge_base_of(one: Oid, two: Oid) -> spec_fn(MergeBase) -> bool {
    |m: MergeBase| m.one == one && m.two == two
}

/// The differences from the tree of `old` to that of `new`.
pub open spec fn is_diff_of(old: Oid, new: Oid) -> spec_fn(DiffStats) -> bool {
    |d: DiffStats| d.old == old && d.new == new
}

/// The walks from `from` that leave out what `hidden` reaches.
pub open spec fn is_walk_of(from: Oid, hidden: Oid) -> spec_fn(WalkView) -> bool {
    |w: WalkView| w.from == from && w.hidden == hidden
}

impl RepositoryView {
    /// The commit of this id, if it was found.
    pub open spec fn commit(self, id: Oid) -> Option<CommitView> {
        first_match(self.commits, is_commit(id))
    }

    /// The merge base of the two commits, if one was found.
    pub open spec fn merge_base(self, one: Oid, two: Oid) -> Option<Oid> {
        match first_match(self.merge_bases, is_merge_base_of(one, two)) {
            Some(m) => Some(m.base),
            None => None,
        }
    }

    /// How the tree of `new` differs from that of `old`, if that was computed.
    pub open spec fn diff(self, old: Oid, new: Oid) -> Option<DiffStats> {
        first_match(self.diffs, is_diff_of(old, new))
    }

    /// The commits reached from `from` and not from `hidden`, if that walk
    /// was made.
    pub open spec fn walk(self, from: Oid, hidden: Oid) -> Option<Seq<Oid>> {
        match first_match(self.walks, is_walk_of(from, hidden)) {
            Some(w) => Some(w.commits),
            None => None,
        }
    }
}

impl View for Repository {
    type V = RepositoryView;

    open spec fn view(&self) -> RepositoryView {
        RepositoryView {
            remotes: views(self.remotes@),
            local_branches: views(self.local_branches@),
            remote_branches: views(self.remote_branches@),
            commits: views(self.commits@),
            merge_bases: self.merge_bases@,
            diffs: self.diffs@,
            walks: views(self.walks@),
        }
    }
}

/// The optional commit as its view.
pub open spec fn opt_commit(c: Option<&Commit>) -> Option<CommitView> {
    match c {
        Some(x) => Some(x@),
        None => None,
    }
}

impl Repository {
    /// A repository of which nothing was read.
    pub fn new() -> (r: Self)
        ensures
            r@.remotes.len() == 0,
            r@.local_branches.len() == 0,
            r@.remote_branches.len() == 0,
            r@.commits.len() == 0,
            r@.merge_bases.len() == 0,
            r@.diffs.len() == 0,
            r@.walks.len() == 0,
    {
        Repository {
            remotes: Vec::new(),
            local_branches: Vec::new(),
            remote_branches: Vec::new(),
            commits: Vec::new(),
            merge_bases: Vec::new(),
            diffs: Vec::new(),
            walks: Vec::new(),
        }
    }

    /// The commit of this id, if it was found.
    pub fn find_commit(&self, id: Oid) -> (r: Option<&Commit>)
        ensures
            opt_commit(r) == self@.commit(id),
    {
        let ghost p = is_commit(id);
        let mut i: usize = 0;
        while i < self.commits.len()
            invariant
                i <= self.commits.len(),
                p == is_commit(id),
                forall|k: int| 0 <= k < i ==> !p(#[trigger] self@.commits[k]),
            decreases self.commits.len() - i,
        {
            if self.commits[i].id == id {
                proof {
                    assert(is_first(self@.commits, p, i as int));
                    lemma_first_index_found(self@.commits, p, i as int);
                }
                return Some(&self.commits[i]);
            }
            i = i + 1;
        }
        proof {
            lemma_first_index_absent(self@.commits, p);
        }
        None
    }

    /// The merge base of the two commits, if one was found for the two in
    /// this order.
    pub fn merge_base(&self, one: Oid, two: Oid) -> (r: Option<Oid>)
        ensures
            r == self@.merge_base(one, two),
    {
        let ghost p = is_merge_base_of(one, two);
        let mut i: usize = 0;
        while i < self.merge_bases.len()
            invariant
                i <= self.merge_bases.len(),
                p == is_merge_base_of(one, two),
                forall|k: int| 0 <= k < i ==> !p(#[trigger] self@.merge_bases[k]),
            decreases self.merge_bases.len() - i,
        {
            if self.merge_bases[i].one == one && self.merge_bases[i].two == two {
                proof {
                    assert(is_first(self@.merge_bases, p, i as int));
                    lemma_first_index_found(self@.merge_bases, p, i as int);
                }
                return Some(self.merge_bases[i].base);
            }
            i = i + 1;
        }
        proof {
            lemma_first_index_absent(self@.merge_bases, p);
        }
        None
    }

    /// How the tree of `new` differs from that of `old`, if that was computed.
    pub fn diff(&self, old: Oid, new: Oid) -> (r: Option<DiffStats>)
        ensures
            r == self@.diff(old, new),
    {
        let ghost p = is_diff_of(old, new);
        let mut i: usize = 0;
        while i < self.diffs.len()
            invariant
                i <= self.diffs.len(),
                p == is_diff_of(old, new),
                forall|k: int| 0 <= k < i ==> !p(#[trigger] self@.diffs[k]),
            decreases self.diffs.len() - i,
        {
            if self.diffs[i].old == old && self.diffs[i].new == new {
                proof {
                    assert(is_first(self@.diffs, p, i as int));
                    lemma_first_index_found(self@.diffs, p, i as int);
                }
                return Some(self.diffs[i]);
            }
            i = i + 1;
        }
        proof {
            lemma_first_index_absent(self@.diffs, p);
        }
        None
    }

    /// The commits reached from `from` and not from `hidden`, if that walk
    /// was made.
    pub fn walk(&self, from: Oid, hidden: Oid) -> (r: Option<&Vec<Oid>>)
        ensures
            match r {
                Some(c) => self@.walk(from, hidden) == Some(c@),
                None => self@.walk(from, hidden) is None,
            },
    {
        let ghost p = is_walk_of(from, hidden);
        let mut i: usize = 0;
        while i < self.walks.len()
            invariant
                i <= self.walks.len(),
                p == is_walk_of(from, hidden),
                forall|k: int| 0 <= k < i ==> !p(#[trigger] self@.walks[k]),
            decreases self.walks.len() - i,
        {
            if self.walks[i].from == from && self.walks[i].hidden == hidden {
                proof {
                    assert(is_first(self@.walks, p, i as int));
                    lemma_first_index_found(self@.walks, p, i as int);
                }
                return Some(&self.walks[i].commits);
            }
            i = i + 1;
        }
        proof {
            lemma_first_index_absent(self@.walks, p);
        }
        None
    }
}

} // verus!
