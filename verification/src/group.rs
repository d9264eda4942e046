//! The branches of one identity, and the listing entry that stands for them.

use vstd::prelude::*;

use crate::branch::{reference_to, BranchListing, BranchListingView, VirtualBranchReference};
use crate::identity::{
    given_name, is_technical, reference_given_name, should_list_git_branch, stack_identity,
    virtual_identity,
};
use crate::oid::Oid;
use crate::repository::{ReferenceBranch, ReferenceBranchView, Repository, RepositoryView};
use crate::sequences::{
    first_match, is_first, lemma_first_index_absent, lemma_first_index_found, views,
};
use crate::stack::{Stack, StackView};
use crate::target::{Target, TargetView};
use crate::text::{opt_text, text_eq};

verus! {

/// A branch of one of the three kinds that a listing brings together.
#[derive(Debug)]
pub enum GroupBranch {
    /// A local branch of the repository.
    Local(ReferenceBranch),
    /// A branch of the repository that follows a branch of a remote.
    Remote(ReferenceBranch),
    /// A virtual branch.
    Virtual(Stack),
}

/// What a [`GroupBranch`] stands for.
pub enum GroupBranchView {
    Local(ReferenceBranchView),
    Remote(ReferenceBranchView),
    Virtual(StackView),
}

impl View for GroupBranch {
    type V = GroupBranchView;

    open spec fn view(&self) -> GroupBranchView {
        match self {
            GroupBranch::Local(b) => GroupBranchView::Local(b@),
            GroupBranch::Remote(b) => GroupBranchView::Remote(b@),
            GroupBranch::Virtual(b) => GroupBranchView::Virtual(b@),
        }
    }
}

impl GroupBranchView {
    /// The name under which the branch is grouped with others, if one can be
    /// told.
    pub open spec fn identity(self, remotes: Seq<Seq<char>>) -> Option<Seq<char>> {
        match self {
            GroupBranchView::Local(b) => given_name(b, true, remotes),
            GroupBranchView::Remote(b) => given_name(b, false, remotes),
            GroupBranchView::Virtual(b) => virtual_identity(b),
        }
    }

    /// The identity under which the branch is listed: none where no identity
    /// can be told, and none where it is a technical one.
    pub open spec fn listed_identity(self, remotes: Seq<Seq<char>>) -> Option<Seq<char>> {
        match self.identity(remotes) {
            Some(n) => if is_technical(n) {
                None
            } else {
                Some(n)
            },
            None => None,
        }
    }
}

impl GroupBranch {
    /// A name for the branch. Branches of one identity, be they virtual, local
    /// or remote, are grouped together under one entry of the listing. Without
    /// an identity a branch is odd enough to be left out.
    pub fn identity(&self, remotes: &Vec<String>) -> (r: Option<String>)
        ensures
            opt_text(r) == self@.identity(views(remotes@)),
    {
        match self {
            GroupBranch::Local(b) => reference_given_name(b, true, remotes),
            GroupBranch::Remote(b) => reference_given_name(b, false, remotes),
            GroupBranch::Virtual(b) => stack_identity(b),
        }
    }

    /// The identity under which the branch is listed, if it is listed.
    pub fn listed_identity(&self, remotes: &Vec<String>) -> (r: Option<String>)
        ensures
            opt_text(r) == self@.listed_identity(views(remotes@)),
    {
        match self.identity(remotes) {
            Some(n) => if should_list_git_branch(n.as_str()) {
                Some(n)
            } else {
                None
            },
            None => None,
        }
    }
}

/// The local branches.
pub open spec fn is_local() -> spec_fn(GroupBranchView) -> bool {
    |e: GroupBranchView| e is Local
}

/// The remote branches.
pub open spec fn is_remote() -> spec_fn(GroupBranchView) -> bool {
    |e: GroupBranchView| e is Remote
}

/// The virtual branch of a group: of several, the one that was changed last,
/// and of those changed at one time the one that stands last.
pub open spec fn latest_virtual(members: Seq<GroupBranchView>) -> Option<StackView>
    decreases members.len(),
{
    if members.len() == 0 {
        None
    } else {
        let init = latest_virtual(members.drop_last());
        match members.last() {
            GroupBranchView::Virtual(v) => match init {
                Some(b) => if b.updated_timestamp_ms > v.updated_timestamp_ms {
                    Some(b)
                } else {
                    Some(v)
                },
                None => Some(v),
            },
            _ => init,
        }
    }
}

/// The remotes that the local branches of a group follow, each once, in the
/// order in which they are first met.
pub open spec fn remote_names(members: Seq<GroupBranchView>) -> Seq<Seq<char>>
    decreases members.len(),
{
    if members.len() == 0 {
        Seq::empty()
    } else {
        let init = remote_names(members.drop_last());
        match members.last() {
            GroupBranchView::Local(b) => match b.remote {
                Some(r) => if init.contains(r) {
                    init
                } else {
                    init.push(r)
                },
                None => init,
            },
            _ => init,
        }
    }
}

/// Whether a group has a local branch.
pub open spec fn has_local(members: Seq<GroupBranchView>) -> bool {
    first_match(members, is_local()) is Some
}

/// Whether a local branch of the group has this given name.
pub open spec fn has_local_named(
    members: Seq<GroupBranchView>,
    remotes: Seq<Seq<char>>,
    name: Seq<char>,
) -> bool {
    exists|i: int|
        0 <= i < members.len() && (#[trigger] members[i]) is Local && given_name(
            members[i]->Local_0,
            true,
            remotes,
        ) == Some(name)
}

/// The head of a reference branch that is a member of a group.
pub open spec fn reference_head(e: Option<GroupBranchView>) -> Option<Oid> {
    match e {
        Some(GroupBranchView::Local(b)) => b.head,
        Some(GroupBranchView::Remote(b)) => b.head,
        _ => None,
    }
}

/// The head of interest of a group: the head of its virtual branch; without
/// one, that of its first local branch; without a local branch, that of its
/// first remote one. A local branch whose head is not known is not passed
/// over for a remote one.
pub open spec fn head_of_interest(members: Seq<GroupBranchView>) -> Option<Oid> {
    match latest_virtual(members) {
        Some(v) => Some(v.head),
        None => if has_local(members) {
            reference_head(first_match(members, is_local()))
        } else {
            reference_head(first_match(members, is_remote()))
        },
    }
}

/// The time of a commit in milliseconds, as an unsigned number of 128 bits.
/// A time before the epoch wraps around, as a cast of the signed number does.
pub open spec fn commit_millis(seconds: i64) -> u128 {
    if seconds >= 0 {
        (seconds * 1000) as u128
    } else {
        (0x1_0000_0000_0000_0000_0000_0000_0000_0000 + seconds * 1000) as u128
    }
}

/// When a group was last changed: the later of the time of its head commit
/// and the time at which its virtual branch was changed.
pub open spec fn last_change(seconds: i64, chosen: Option<StackView>) -> u128 {
    let committed = commit_millis(seconds);
    match chosen {
        Some(v) => if v.updated_timestamp_ms > committed {
            v.updated_timestamp_ms
        } else {
            committed
        },
        None => committed,
    }
}

/// The entry that stands for a group in the listing, if the group is listed.
///
/// A group without a virtual branch is left out where one of its local
/// branches has the given name of the target's branch: that is the base
/// branch of the project. A group is also left out where no head of interest
/// can be told, or the commit of that head is not found.
pub open spec fn group_entry(
    identity: Seq<char>,
    members: Seq<GroupBranchView>,
    repo: RepositoryView,
    target: TargetView,
) -> Option<BranchListingView> {
    let chosen = latest_virtual(members);
    if chosen is None && has_local_named(members, repo.remotes, target.branch.branch) {
        None
    } else {
        match head_of_interest(members) {
            None => None,
            Some(head) => match repo.commit(head) {
                None => None,
                Some(c) => Some(
                    BranchListingView {
                        name: identity,
                        remotes: remote_names(members),
                        virtual_branch: match chosen {
                            Some(v) => Some(reference_to(v)),
                            None => None,
                        },
                        updated_at: last_change(c.time_seconds, chosen),
                        last_commiter: c.author,
                        has_local: has_local(members),
                        head,
                    },
                ),
            },
        }
    }
}

/// The time of a commit in milliseconds.
pub fn commit_time_ms(seconds: i64) -> (r: u128)
    ensures
        r == commit_millis(seconds),
{
    if seconds >= 0 {
        (seconds as u128) * 1000
    } else {
        let back: u128 = ((-(seconds as i128)) as u128) * 1000;
        u128::MAX - back + 1
    }
}

/// Whether `names` holds this name.
fn holds_name(names: &Vec<String>, name: &str) -> (r: bool)
    ensures
        r == views(names@).contains(name@),
{
    let mut i: usize = 0;
    while i < names.len()
        invariant
            i <= names.len(),
            forall|k: int| 0 <= k < i ==> views(names@)[k] != name@,
        decreases names.len() - i,
    {
        if text_eq(names[i].as_str(), name) {
            assert(views(names@)[i as int] == name@);
            return true;
        }
        i = i + 1;
    }
    false
}

/// The optional listing entry as its view.
pub open spec fn opt_listing(b: Option<BranchListing>) -> Option<BranchListingView> {
    match b {
        Some(x) => Some(x@),
        None => None,
    }
}

/// The optional virtual branch as its view.
pub open spec fn opt_chosen(b: Option<&Stack>) -> Option<StackView> {
    match b {
        Some(x) => Some(x@),
        None => None,
    }
}

/// Whether a local branch among the first `n` of the group has this given
/// name.
spec fn has_local_named_before(
    members: Seq<GroupBranchView>,
    remotes: Seq<Seq<char>>,
    name: Seq<char>,
    n: int,
) -> bool {
    exists|i: int|
        0 <= i < n && (#[trigger] members[i]) is Local && given_name(
            members[i]->Local_0,
            true,
            remotes,
        ) == Some(name)
}

/// Converts the branches of one identity into the entry that stands for them
/// in the listing, where they are listed.
pub fn branch_group_to_branch(
    identity: &str,
    group_branches: &Vec<&GroupBranch>,
    repo: &Repository,
    target: &Target,
) -> (r: Option<BranchListing>)
    ensures
        opt_listing(r) == group_entry(identity@, views(group_branches@), repo@, target@),
{
    let ghost members = views(group_branches@);
    let ghost remotes = repo@.remotes;
    let ghost base = target@.branch.branch;
    let mut chosen: Option<&Stack> = None;
    let mut first_local: Option<usize> = None;
    let mut first_remote: Option<usize> = None;
    let mut names: Vec<String> = Vec::new();
    let mut is_base = false;
    let mut i: usize = 0;
    while i < group_branches.len()
        invariant
            i <= group_branches.len(),
            members == views(group_branches@),
            remotes == repo@.remotes,
            base == target@.branch.branch,
            opt_chosen(chosen) == latest_virtual(members.take(i as int)),
            views(names@) == remote_names(members.take(i as int)),
            is_base == has_local_named_before(members, remotes, base, i as int),
            match first_local {
                Some(k) => k < i && is_first(members, is_local(), k as int),
                None => forall|k: int| 0 <= k < i ==> !is_local()(#[trigger] members[k]),
            },
            match first_remote {
                Some(k) => k < i && is_first(members, is_remote(), k as int),
                None => forall|k: int| 0 <= k < i ==> !is_remote()(#[trigger] members[k]),
            },
        decreases group_branches.len() - i,
    {
        proof {
            assert(members.take(i + 1).drop_last() == members.take(i as int));
            assert(members.take(i + 1).last() == members[i as int]);
            assert(members[i as int] == group_branches@[i as int]@);
        }
        let ghost was_base = is_base;
        match group_branches[i] {
            GroupBranch::Virtual(v) => {
                let later = match chosen {
                    Some(b) => !(b.updated_timestamp_ms > v.updated_timestamp_ms),
                    None => true,
                };
                if later {
                    chosen = Some(v);
                }
            },
            GroupBranch::Local(b) => {
                if first_local.is_none() {
                    first_local = Some(i);
                }
                match &b.remote {
                    Some(remote) => {
                        if !holds_name(&names, remote.as_str()) {
                            let ghost before = names@;
                            names.push(remote.clone());
                            assert(views(names@) =~= views(before).push(remote@));
                        }
                    },
                    None => {},
                }
                match reference_given_name(b, true, &repo.remotes) {
                    Some(name) => {
                        if text_eq(name.as_str(), target.branch.branch()) {
                            is_base = true;
                        }
                    },
                    None => {},
                }
            },
            GroupBranch::Remote(_) => {
                if first_remote.is_none() {
                    first_remote = Some(i);
                }
            },
        }
        proof {
            if has_local_named_before(members, remotes, base, i + 1) {
                let k = choose|k: int|
                    0 <= k < i + 1 && (#[trigger] members[k]) is Local && given_name(
                        members[k]->Local_0,
                        true,
                        remotes,
                    ) == Some(base);
                if k < i {
                    assert(has_local_named_before(members, remotes, base, i as int));
                }
            }
            if was_base {
                let k = choose|k: int|
                    0 <= k < i && (#[trigger] members[k]) is Local && given_name(
                        members[k]->Local_0,
                        true,
                        remotes,
                    ) == Some(base);
                assert(0 <= k < i + 1 && members[k] is Local);
            }
        }
        i = i + 1;
    }
    proof {
        assert(members.take(group_branches.len() as int) == members);
        assert(is_base == has_local_named(members, remotes, base));
        match first_local {
            Some(k) => {
                lemma_first_index_found(members, is_local(), k as int);
            },
            None => {
                lemma_first_index_absent(members, is_local());
            },
        }
        match first_remote {
            Some(k) => {
                lemma_first_index_found(members, is_remote(), k as int);
            },
            None => {
                lemma_first_index_absent(members, is_remote());
            },
        }
    }
    if chosen.is_none() && is_base {
        return None;
    }
    let head: Option<Oid> = match chosen {
        Some(v) => Some(v.head),
        None => match first_local {
            Some(k) => match group_branches[k] {
                GroupBranch::Local(b) => b.head,
                _ => None,
            },
            None => match first_remote {
                Some(k) => match group_branches[k] {
                    GroupBranch::Remote(b) => b.head,
                    _ => None,
                },
                None => None,
            },
        },
    };
    let head = match head {
        Some(h) => h,
        None => {
            return None;
        },
    };
    let commit = match repo.find_commit(head) {
        Some(c) => c,
        None => {
            return None;
        },
    };
    let committed = commit_time_ms(commit.time_seconds);
    let updated_at = match chosen {
        Some(v) => if v.updated_timestamp_ms > committed {
            v.updated_timestamp_ms
        } else {
            committed
        },
        None => committed,
    };
    let virtual_branch = match chosen {
        Some(v) => Some(VirtualBranchReference::of(v)),
        None => None,
    };
    Some(
        BranchListing {
            name: identity.to_owned(),
            remotes: names,
            virtual_branch,
            updated_at,
            last_commiter: commit.author.clone(),
            has_local: first_local.is_some(),
            head,
        },
    )
}

} // verus!
