//! The listing of branches: what one entry holds, and which entries a filter
//! lets through.

use vstd::prelude::*;
use vstd::std_specs::cmp::PartialEqSpecImpl;

use crate::commit::{Author, AuthorView};
use crate::oid::Oid;
use crate::sequences::views;
use crate::stack::{Stack, StackId, StackView};
use crate::text::texts_eq;

verus! {

/// A filter that can be applied to the branch listing. A field that is not
/// set asks for nothing; the fields that are set must all be met.
#[derive(Clone, Copy, Debug, PartialEq, Eq, Structural)]
pub struct BranchListingFilter {
    /// Whether the branch is to have a local reference or a virtual branch.
    pub local: Option<bool>,
    /// Whether the branch is to be applied in the workspace.
    pub applied: Option<bool>,
}

impl Default for BranchListingFilter {
    fn default() -> (r: Self)
        ensures
            r.local is None,
            r.applied is None,
    {
        BranchListingFilter { local: None, applied: None }
    }
}

/// The virtual branch that stands behind an entry of the listing.
#[derive(Debug)]
pub struct VirtualBranchReference {
    /// The name that the user gave, not normalised.
    pub given_name: String,
    /// The id of the virtual branch.
    pub id: StackId,
    /// Whether the virtual branch is applied in the workspace.
    pub in_workspace: bool,
}

/// What a [`VirtualBranchReference`] stands for.
pub struct VirtualBranchReferenceView {
    pub given_name: Seq<char>,
    pub id: StackId,
    pub in_workspace: bool,
}

impl View for VirtualBranchReference {
    type V = VirtualBranchReferenceView;

    open spec fn view(&self) -> VirtualBranchReferenceView {
        VirtualBranchReferenceView {
            given_name: self.given_name@,
            id: self.id,
            in_workspace: self.in_workspace,
        }
    }
}

impl Clone for VirtualBranchReference {
    fn clone(&self) -> (r: Self)
        ensures
            r == *self,
    {
        VirtualBranchReference {
            given_name: self.given_name.clone(),
            id: self.id,
            in_workspace: self.in_workspace,
        }
    }
}

impl PartialEq for VirtualBranchReference {
    fn eq(&self, other: &Self) -> (r: bool) {
        self.given_name == other.given_name && self.id == other.id && self.in_workspace
            == other.in_workspace
    }
}

impl PartialEqSpecImpl for VirtualBranchReference {
    open spec fn obeys_eq_spec() -> bool {
        true
    }

    open spec fn eq_spec(&self, other: &Self) -> bool {
        self@ == other@
    }
}

impl Eq for VirtualBranchReference {

}

/// The reference to a virtual branch that a listing entry carries.
pub open spec fn reference_to(b: StackView) -> VirtualBranchReferenceView {
    VirtualBranchReferenceView { given_name: b.name, id: b.id, in_workspace: b.in_workspace }
}

impl VirtualBranchReference {
    /// The reference to this virtual branch.
    pub fn of(branch: &Stack) -> (r: Self)
        ensures
            r@ == reference_to(branch@),
    {
        VirtualBranchReference {
            given_name: branch.name.clone(),
            id: branch.id,
            in_workspace: branch.in_workspace,
        }
    }
}

/// The optional reference to a virtual branch as its view.
pub open spec fn opt_reference(r: Option<VirtualBranchReference>) -> Option<
    VirtualBranchReferenceView,
> {
    match r {
        Some(x) => Some(x@),
        None => None,
    }
}

/// A branch of the repository: the local references, the remote references
/// and the virtual branch that share one identity, taken together. It is a
/// summary for display, not the whole of what a branch holds.
#[derive(Debug)]
pub struct BranchListing {
    /// The identity of the branch, without the name of a remote.
    pub name: String,
    /// The remotes that the local references of this identity follow, each
    /// once.
    pub remotes: Vec<String>,
    /// The virtual branch of this identity, if there is one.
    pub virtual_branch: Option<VirtualBranchReference>,
    /// When the branch was last changed, in milliseconds: by a commit, or by
    /// a change to the virtual branch.
    pub updated_at: u128,
    /// Who wrote the head commit.
    pub last_commiter: Author,
    /// Whether there is a local reference of this identity.
    pub has_local: bool,
    /// The head of interest, for which statistics are computed: the head of
    /// the virtual branch, else that of the first local reference, else that
    /// of the first remote one.
    pub head: Oid,
}

/// What a [`BranchListing`] stands for.
pub struct BranchListingView {
    pub name: Seq<char>,
    pub remotes: Seq<Seq<char>>,
    pub virtual_branch: Option<VirtualBranchReferenceView>,
    pub updated_at: u128,
    pub last_commiter: AuthorView,
    pub has_local: bool,
    pub head: Oid,
}

impl View for BranchListing {
    type V = BranchListingView;

    open spec fn view(&self) -> BranchListingView {
        BranchListingView {
            name: self.name@,
            remotes: views(self.remotes@),
            virtual_branch: opt_reference(self.virtual_branch),
            updated_at: self.updated_at,
            last_commiter: self.last_commiter@,
            has_local: self.has_local,
            head: self.head,
        }
    }
}

/// Whether two optional references to a virtual branch are both absent or
/// the same.
fn opt_reference_eq(a: &Option<VirtualBranchReference>, b: &Option<VirtualBranchReference>) -> (r:
    bool)
    ensures
        r == (opt_reference(*a) == opt_reference(*b)),
{
    match (a, b) {
        (Some(x), Some(y)) => *x == *y,
        (None, None) => true,
        _ => false,
    }
}

impl PartialEq for BranchListing {
    fn eq(&self, other: &Self) -> (r: bool) {
        self.name == other.name && texts_eq(&self.remotes, &other.remotes) && opt_reference_eq(
            &self.virtual_branch,
            &other.virtual_branch,
        ) && self.updated_at == other.updated_at && self.last_commiter == other.last_commiter
            && self.has_local == other.has_local && self.head == other.head
    }
}

impl PartialEqSpecImpl for BranchListing {
    open spec fn obeys_eq_spec() -> bool {
        true
    }

    open spec fn eq_spec(&self, other: &Self) -> bool {
        self@ == other@
    }
}

impl Eq for BranchListing {

}

/// The statistics of one branch, relative to the default target.
#[derive(Debug)]
pub struct BranchListingDetails {
    /// The identity of the branch, without the name of a remote.
    pub name: String,
    /// The number of lines added within the branch, without what is not yet
    /// committed.
    pub lines_added: usize,
    /// The number of lines removed within the branch, without what is not yet
    /// committed.
    pub lines_removed: usize,
    /// The number of files changed within the branch.
    pub number_of_files: usize,
    /// The number of commits of the branch that the target lacks.
    pub number_of_commits: usize,
    /// Those who wrote these commits, each once; no mailmap is applied.
    pub authors: Vec<Author>,
}

/// What a [`BranchListingDetails`] stands for.
pub struct BranchListingDetailsView {
    pub name: Seq<char>,
    pub lines_added: usize,
    pub lines_removed: usize,
    pub number_of_files: usize,
    pub number_of_commits: usize,
    pub authors: Seq<AuthorView>,
}

impl View for BranchListingDetails {
    type V = BranchListingDetailsView;

    open spec fn view(&self) -> BranchListingDetailsView {
        BranchListingDetailsView {
            name: self.name@,
            lines_added: self.lines_added,
            lines_removed: self.lines_removed,
            number_of_files: self.number_of_files,
            number_of_commits: self.number_of_commits,
            authors: views(self.authors@),
        }
    }
}

/// Whether two lists of authors hold the same authors in the same order.
fn authors_eq(a: &Vec<Author>, b: &Vec<Author>) -> (r: bool)
    ensures
        r == (views(a@) == views(b@)),
{
    if a.len() != b.len() {
        assert(views(a@).len() != views(b@).len());
        return false;
    }
    let mut i: usize = 0;
    while i < a.len()
        invariant
            i <= a.len() == b.len(),
            forall|k: int| 0 <= k < i ==> a@[k]@ == b@[k]@,
        decreases a.len() - i,
    {
        if a[i] != b[i] {
            assert(views(a@)[i as int] != views(b@)[i as int]);
            return false;
        }
        i = i + 1;
    }
    assert(views(a@) =~= views(b@));
    true
}

impl PartialEq for BranchListingDetails {
    fn eq(&self, other: &Self) -> (r: bool) {
        self.name == other.name && self.lines_added == other.lines_added && self.lines_removed
            == other.lines_removed && self.number_of_files == other.number_of_files
            && self.number_of_commits == other.number_of_commits && authors_eq(
            &self.authors,
            &other.authors,
        )
    }
}

impl PartialEqSpecImpl for BranchListingDetails {
    open spec fn obeys_eq_spec() -> bool {
        true
    }

    open spec fn eq_spec(&self, other: &Self) -> bool {
        self@ == other@
    }
}

impl Eq for BranchListingDetails {

}

/// Whether an entry meets what a filter asks of the workspace: with a virtual
/// branch, that its workspace flag is the one asked for; without one, that
/// `false` was asked for.
pub open spec fn meets_applied(b: BranchListingView, applied: bool) -> bool {
    match b.virtual_branch {
        Some(v) => v.in_workspace == applied,
        None => !applied,
    }
}

/// Whether an entry meets what a filter asks of local presence: that the
/// entry has a local reference or a virtual branch, or that it has neither.
pub open spec fn meets_local(b: BranchListingView, local: bool) -> bool {
    (b.has_local || b.virtual_branch is Some) == local
}

/// Whether an entry meets every field that is set in the filter.
pub open spec fn meets(b: BranchListingView, filter: BranchListingFilter) -> bool {
    &&& filter.applied matches Some(applied) ==> meets_applied(b, applied)
    &&& filter.local matches Some(local) ==> meets_local(b, local)
}

/// Whether a branch meets every field that is set in the filter.
pub fn matches_all(branch: &BranchListing, filter: BranchListingFilter) -> (r: bool)
    ensures
        r == meets(branch@, filter),
{
    let applied_met = match filter.applied {
        Some(applied) => match &branch.virtual_branch {
            Some(vb) => applied == vb.in_workspace,
            None => !applied,
        },
        None => true,
    };
    let local_met = match filter.local {
        Some(local) => (branch.has_local || branch.virtual_branch.is_some()) == local,
        None => true,
    };
    applied_met && local_met
}

/// A filter that asks for branches applied in the workspace lets through
/// only entries with a virtual branch whose workspace flag is set; one that
/// asks for branches not applied lets through only entries without a virtual
/// branch, or with one whose flag is not set.
pub proof fn lemma_applied_filter(b: BranchListingView, filter: BranchListingFilter)
    requires
        meets(b, filter),
    ensures
        filter.applied == Some(true) ==> b.virtual_branch is Some && b.virtual_branch->0.in_workspace,
        filter.applied == Some(false) ==> b.virtual_branch is None
            || !b.virtual_branch->0.in_workspace,
{
}

} // verus!
