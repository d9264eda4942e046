//! The integration target.

use vstd::prelude::*;
use vstd::std_specs::cmp::PartialEqSpecImpl;

use crate::oid::Oid;
use crate::reference::{RemoteRefname, RemoteRefnameView};

verus! {

/// The base that virtual branches are measured against: a branch on a remote,
/// and the commit of it that the workspace was last brought up to.
#[derive(Debug)]
pub struct Target {
    /// The remote branch to integrate into.
    pub branch: RemoteRefname,
    /// Where the remote's repository lives.
    pub remote_url: String,
    /// The base commit.
    pub sha: Oid,
}

/// What a [`Target`] stands for.
pub struct TargetView {
    pub branch: RemoteRefnameView,
    pub remote_url: Seq<char>,
    pub sha: Oid,
}

impl View for Target {
    type V = TargetView;

    open spec fn view(&self) -> TargetView {
        TargetView { branch: self.branch@, remote_url: self.remote_url@, sha: self.sha }
    }
}

impl Clone for Target {
    fn clone(&self) -> (r: Self)
        ensures
            r == *self,
    {
        Target { branch: self.branch.clone(), remote_url: self.remote_url.clone(), sha: self.sha }
    }
}

impl PartialEq for Target {
    fn eq(&self, other: &Self) -> (r: bool) {
        self.branch == other.branch && self.remote_url == other.remote_url && self.sha == other.sha
    }
}

impl PartialEqSpecImpl for Target {
    open spec fn obeys_eq_spec() -> bool {
        true
    }

    open spec fn eq_spec(&self, other: &Self) -> bool {
        self@ == other@
    }
}

impl Eq for Target {

}

/// The optional target as its view.
pub open spec fn opt_target(t: Option<Target>) -> Option<TargetView> {
    match t {
        Some(x) => Some(x@),
        None => None,
    }
}

} // verus!
