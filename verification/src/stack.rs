//! Virtual branches.

use vstd::prelude::*;
use vstd::std_specs::cmp::PartialEqSpecImpl;

use crate::oid::Oid;
use crate::reference::{
    opt_refname, opt_refname_eq, opt_remote, opt_remote_eq, Refname, RefnameView, RemoteRefname,
    RemoteRefnameView,
};
use crate::text::{opt_text, opt_text_eq};

verus! {

/// The id of a virtual branch: the 128 bits of a UUID. It is given once and
/// never changes.
#[derive(Clone, Copy, Debug, PartialEq, Eq, Structural, Hash)]
pub struct StackId(pub u128);

/// A virtual branch: a unit of work that the application manages, whether or
/// not a reference backs it.
#[derive(Debug)]
pub struct Stack {
    pub id: StackId,
    /// The name that the user gave; any text.
    pub name: String,
    /// The commit that the branch points at.
    pub head: Oid,
    /// The remote branch that this one is pushed to, once there is one.
    pub upstream: Option<RemoteRefname>,
    /// The reference that this branch was made from, if any.
    pub source_refname: Option<Refname>,
    /// Whether the branch is applied in the workspace.
    pub in_workspace: bool,
    /// The place of the branch among those in the workspace.
    pub order: usize,
    /// When the branch was last changed, in milliseconds.
    pub updated_timestamp_ms: u128,
    /// Set while the branch is out of the workspace with work that is not yet
    /// committed: such a branch must not be discarded.
    pub not_in_workspace_wip_change_id: Option<String>,
}

/// What a [`Stack`] stands for: its fields, with text as characters.
pub struct StackView {
    pub id: StackId,
    pub name: Seq<char>,
    pub head: Oid,
    pub upstream: Option<RemoteRefnameView>,
    pub source_refname: Option<RefnameView>,
    pub in_workspace: bool,
    pub order: nat,
    pub updated_timestamp_ms: u128,
    pub not_in_workspace_wip_change_id: Option<Seq<char>>,
}

impl StackView {
    /// The same branch at another place in the workspace.
    pub open spec fn with_order(self, order: nat) -> StackView {
        StackView { order, ..self }
    }

    /// The same branch, taken out of the workspace.
    pub open spec fn out_of_workspace(self) -> StackView {
        StackView { in_workspace: false, ..self }
    }
}

impl View for Stack {
    type V = StackView;

    open spec fn view(&self) -> StackView {
        StackView {
            id: self.id,
            name: self.name@,
            head: self.head,
            upstream: opt_remote(self.upstream),
            source_refname: opt_refname(self.source_refname),
            in_workspace: self.in_workspace,
            order: self.order as nat,
            updated_timestamp_ms: self.updated_timestamp_ms,
            not_in_workspace_wip_change_id: opt_text(self.not_in_workspace_wip_change_id),
        }
    }
}

impl Clone for Stack {
    fn clone(&self) -> (r: Self)
        ensures
            r == *self,
    {
        Stack {
            id: self.id,
            name: self.name.clone(),
            head: self.head,
            upstream: self.upstream.clone(),
            source_refname: self.source_refname.clone(),
            in_workspace: self.in_workspace,
            order: self.order,
            updated_timestamp_ms: self.updated_timestamp_ms,
            not_in_workspace_wip_change_id: self.not_in_workspace_wip_change_id.clone(),
        }
    }
}

impl PartialEq for Stack {
    fn eq(&self, other: &Self) -> (r: bool) {
        self.id == other.id && self.name == other.name && self.head == other.head && opt_remote_eq(
            &self.upstream,
            &other.upstream,
        ) && opt_refname_eq(&self.source_refname, &other.source_refname) && self.in_workspace
            == other.in_workspace && self.order == other.order && self.updated_timestamp_ms
            == other.updated_timestamp_ms && opt_text_eq(
            &self.not_in_workspace_wip_change_id,
            &other.not_in_workspace_wip_change_id,
        )
    }
}

impl PartialEqSpecImpl for Stack {
    open spec fn obeys_eq_spec() -> bool {
        true
    }

    open spec fn eq_spec(&self, other: &Self) -> bool {
        self@ == other@
    }
}

impl Eq for Stack {

}

impl Stack {
    /// The commit that the branch points at.
    pub fn head(&self) -> (r: Oid)
        ensures
            r == self.head,
    {
        self.head
    }
}

} // verus!
