//! The listing: local, remote and virtual branches, grouped by identity into
//! one entry each.

use vstd::prelude::*;

use crate::branch::{matches_all, meets, BranchListing, BranchListingFilter, BranchListingView};
use crate::branch::reference_to;
use crate::group::{
    branch_group_to_branch, group_entry, has_local_named, is_local, latest_virtual, GroupBranch,
    GroupBranchView,
};
use crate::identity::given_name;
use crate::repository::{Repository, RepositoryView};
use crate::sequences::{
    first_index, kept_before, lemma_filter_empty, lemma_filter_index, lemma_filter_source,
    lemma_filter_step, lemma_first_index, views,
};
use crate::state::{StoreError, VirtualBranchesHandle, VirtualBranchesView};
use crate::target::{Target, TargetView};
use crate::text::opt_text;

verus! {

/// The branches that are listed under this identity.
pub open spec fn in_group(remotes: Seq<Seq<char>>, identity: Seq<char>) -> spec_fn(
    GroupBranchView,
) -> bool {
    |e: GroupBranchView| e.listed_identity(remotes) == Some(identity)
}

/// The branches that are listed under this identity, in their order.
pub open spec fn members(
    branches: Seq<GroupBranchView>,
    remotes: Seq<Seq<char>>,
    identity: Seq<char>,
) -> Seq<GroupBranchView> {
    branches.filter(in_group(remotes, identity))
}

/// Whether the branch at `i` is listed and is the first of its identity.
pub open spec fn opens_group(branches: Seq<GroupBranchView>, remotes: Seq<Seq<char>>, i: int) -> bool {
    &&& branches[i].listed_identity(remotes) is Some
    &&& forall|j: int|
        0 <= j < i ==> (#[trigger] branches[j]).listed_identity(remotes)
            != branches[i].listed_identity(remotes)
}

/// The entry that the branch at `i` brings into the listing: that of its
/// group, where the branch is the first of the group and the group is listed.
pub open spec fn entry_at(
    branches: Seq<GroupBranchView>,
    repo: RepositoryView,
    target: TargetView,
    i: int,
) -> Option<BranchListingView> {
    if opens_group(branches, repo.remotes, i) {
        let identity = branches[i].listed_identity(repo.remotes)->0;
        group_entry(identity, members(branches, repo.remotes, identity), repo, target)
    } else {
        None
    }
}

/// The entries of the groups that are opened by the first `n` branches.
pub open spec fn combined_upto(
    branches: Seq<GroupBranchView>,
    repo: RepositoryView,
    target: TargetView,
    n: int,
) -> Seq<BranchListingView>
    decreases n,
{
    if n <= 0 {
        Seq::empty()
    } else {
        let init = combined_upto(branches, repo, target, n - 1);
        match entry_at(branches, repo, target, n - 1) {
            Some(e) => init.push(e),
            None => init,
        }
    }
}

/// The listing of these branches: one entry for each identity whose group is
/// listed, in the order in which the identities are first met.
pub open spec fn combined(
    branches: Seq<GroupBranchView>,
    repo: RepositoryView,
    target: TargetView,
) -> Seq<BranchListingView> {
    combined_upto(branches, repo, target, branches.len() as int)
}

/// Whether two optional strings are both present and hold the same text.
fn same_identity(a: &Option<String>, b: &String) -> (r: bool)
    ensures
        r == (opt_text(*a) == Some(b@)),
{
    match a {
        Some(x) => *x == *b,
        None => false,
    }
}

/// Combines the branches into the listing: they are grouped by identity, and
/// each group that is listed gives one entry. Branches without an identity,
/// and those with a technical one, are left out.
pub fn combine_branches(
    group_branches: &Vec<GroupBranch>,
    repo: &Repository,
    target_branch: &Target,
) -> (r: Vec<BranchListing>)
    ensures
        views(r@) == combined(views(group_branches@), repo@, target_branch@),
{
    let ghost branches = views(group_branches@);
    let ghost remotes = repo@.remotes;
    let mut identities: Vec<Option<String>> = Vec::new();
    let mut i: usize = 0;
    while i < group_branches.len()
        invariant
            i <= group_branches.len(),
            branches == views(group_branches@),
            remotes == repo@.remotes,
            identities@.len() == i,
            forall|k: int|
                0 <= k < i ==> opt_text(#[trigger] identities@[k]) == branches[k].listed_identity(
                    remotes,
                ),
        decreases group_branches.len() - i,
    {
        let identity = group_branches[i].listed_identity(&repo.remotes);
        identities.push(identity);
        i = i + 1;
    }
    let mut out: Vec<BranchListing> = Vec::new();
    let mut i: usize = 0;
    while i < group_branches.len()
        invariant
            i <= group_branches.len(),
            branches == views(group_branches@),
            remotes == repo@.remotes,
            identities@.len() == group_branches.len(),
            forall|k: int|
                0 <= k < identities@.len() ==> opt_text(#[trigger] identities@[k])
                    == branches[k].listed_identity(remotes),
            views(out@) == combined_upto(branches, repo@, target_branch@, i as int),
        decreases group_branches.len() - i,
    {
        let ghost before = out@;
        match &identities[i] {
            Some(identity) => {
                assert(opt_text(identities@[i as int]) == Some(identity@));
                let mut opens = true;
                let mut j: usize = 0;
                while j < i
                    invariant
                        j <= i < group_branches.len(),
                        identities@.len() == group_branches.len(),
                        branches == views(group_branches@),
                        forall|k: int|
                            0 <= k < identities@.len() ==> opt_text(#[trigger] identities@[k])
                                == branches[k].listed_identity(remotes),
                        branches[i as int].listed_identity(remotes) == Some(identity@),
                        opens == forall|k: int|
                            0 <= k < j ==> (#[trigger] branches[k]).listed_identity(remotes)
                                != Some(identity@),
                    decreases i - j,
                {
                    if same_identity(&identities[j], identity) {
                        assert(opt_text(identities@[j as int]) == Some(identity@));
                        assert(branches[j as int].listed_identity(remotes) == Some(identity@));
                        opens = false;
                    } else {
                        assert(opt_text(identities@[j as int]) != Some(identity@));
                    }
                    j = j + 1;
                }
                assert(opens == opens_group(branches, remotes, i as int));
                if opens {
                    let ghost p = in_group(remotes, identity@);
                    let mut group: Vec<&GroupBranch> = Vec::new();
                    let mut k: usize = 0;
                    proof {
                        lemma_filter_empty(branches.take(0), p);
                    }
                    while k < group_branches.len()
                        invariant
                            k <= group_branches.len(),
                            identities@.len() == group_branches.len(),
                            branches == views(group_branches@),
                            p == in_group(remotes, identity@),
                            forall|m: int|
                                0 <= m < identities@.len() ==> opt_text(#[trigger] identities@[m])
                                    == branches[m].listed_identity(remotes),
                            views(group@) == branches.take(k as int).filter(p),
                        decreases group_branches.len() - k,
                    {
                        proof {
                            lemma_filter_step(branches, p, k as int);
                            assert(opt_text(identities@[k as int])
                                == branches[k as int].listed_identity(remotes));
                        }
                        if same_identity(&identities[k], identity) {
                            let ghost held = group@;
                            group.push(&group_branches[k]);
                            assert(views(group@) =~= views(held).push(branches[k as int]));
                        }
                        k = k + 1;
                    }
                    assert(branches.take(group_branches.len() as int) == branches);
                    match branch_group_to_branch(identity.as_str(), &group, repo, target_branch) {
                        Some(entry) => {
                            out.push(entry);
                            assert(views(out@) =~= views(before).push(entry@));
                        },
                        None => {},
                    }
                }
            },
            None => {
                assert(opt_text(identities@[i as int]) is None);
            },
        }
        i = i + 1;
    }
    out
}

/// The branches that a listing brings together: the local branches of the
/// repository, its remote branches, and the virtual branches of the document.
pub open spec fn branches_of(repo: RepositoryView, doc: VirtualBranchesView) -> Seq<GroupBranchView> {
    Seq::new(repo.local_branches.len(), |i: int| GroupBranchView::Local(repo.local_branches[i]))
        + Seq::new(
        repo.remote_branches.len(),
        |i: int| GroupBranchView::Remote(repo.remote_branches[i]),
    ) + Seq::new(doc.branches.len(), |i: int| GroupBranchView::Virtual(doc.branches[i]))
}

/// The optional list of names as texts.
pub open spec fn opt_names(names: Option<Vec<String>>) -> Option<Seq<Seq<char>>> {
    match names {
        Some(n) => Some(views(n@)),
        None => None,
    }
}

/// The entries that a listing keeps: those that meet the filter, where there
/// is one, and whose identity is among the names, where names are given.
pub open spec fn is_wanted(filter: Option<BranchListingFilter>, names: Option<Seq<Seq<char>>>)
    -> spec_fn(BranchListingView) -> bool {
    |b: BranchListingView|
        (match filter {
            Some(f) => meets(b, f),
            None => true,
        }) && (match names {
            Some(n) => n.contains(b.name),
            None => true,
        })
}

/// Whether `names` holds this name.
fn names_hold(names: &Vec<String>, name: &String) -> (r: bool)
    ensures
        r == views(names@).contains(name@),
{
    let mut i: usize = 0;
    while i < names.len()
        invariant
            i <= names.len(),
            forall|k: int| 0 <= k < i ==> views(names@)[k] != name@,
        decreases names.len() - i,
    {
        if names[i] == *name {
            assert(views(names@)[i as int] == name@);
            return true;
        }
        i = i + 1;
    }
    false
}

/// Returns a list of the branches of the project: the branches of the
/// repository and the virtual branches of the document, grouped by identity,
/// of which those are kept that meet the filter and whose identity is among
/// the names given. Where no filter or no names are given, they ask for
/// nothing.
///
/// Fails with `DefaultTargetNotFound` where the document has no default
/// target.
pub fn list_branches(
    repo: &Repository,
    vb_handle: &VirtualBranchesHandle,
    filter: Option<BranchListingFilter>,
    filter_branch_names: Option<Vec<String>>,
) -> (r: Result<Vec<BranchListing>, StoreError>)
    ensures
        match r {
            Ok(listing) => vb_handle@.default_target is Some && views(listing@) == combined(
                branches_of(repo@, vb_handle@),
                repo@,
                vb_handle@.default_target->0,
            ).filter(is_wanted(filter, opt_names(filter_branch_names))),
            Err(e) => e == StoreError::DefaultTargetNotFound && vb_handle@.default_target is None,
        },
{
    let mut branches: Vec<GroupBranch> = Vec::new();
    let mut i: usize = 0;
    while i < repo.local_branches.len()
        invariant
            i <= repo.local_branches.len(),
            branches@.len() == i,
            forall|k: int|
                0 <= k < i ==> (#[trigger] branches@[k])@ == GroupBranchView::Local(
                    repo@.local_branches[k],
                ),
        decreases repo.local_branches.len() - i,
    {
        branches.push(GroupBranch::Local(repo.local_branches[i].clone()));
        i = i + 1;
    }
    let locals = repo.local_branches.len();
    let mut i: usize = 0;
    while i < repo.remote_branches.len()
        invariant
            i <= repo.remote_branches.len(),
            locals == repo.local_branches.len(),
            branches@.len() == locals + i,
            forall|k: int|
                0 <= k < locals ==> (#[trigger] branches@[k])@ == GroupBranchView::Local(
                    repo@.local_branches[k],
                ),
            forall|k: int|
                0 <= k < i ==> (#[trigger] branches@[locals + k])@ == GroupBranchView::Remote(
                    repo@.remote_branches[k],
                ),
        decreases repo.remote_branches.len() - i,
    {
        branches.push(GroupBranch::Remote(repo.remote_branches[i].clone()));
        i = i + 1;
    }
    let references = branches.len();
    let virtual_branches = vb_handle.list_all_branches();
    let mut i: usize = 0;
    while i < virtual_branches.len()
        invariant
            i <= virtual_branches.len(),
            locals == repo.local_branches.len(),
            references == locals + repo.remote_branches.len(),
            views(virtual_branches@) == vb_handle@.branches,
            branches@.len() == references + i,
            forall|k: int|
                0 <= k < locals ==> (#[trigger] branches@[k])@ == GroupBranchView::Local(
                    repo@.local_branches[k],
                ),
            forall|k: int|
                0 <= k < references - locals ==> (#[trigger] branches@[locals + k])@
                    == GroupBranchView::Remote(repo@.remote_branches[k]),
            forall|k: int|
                0 <= k < i ==> (#[trigger] branches@[references + k])@ == GroupBranchView::Virtual(
                    vb_handle@.branches[k],
                ),
        decreases virtual_branches.len() - i,
    {
        assert(views(virtual_branches@)[i as int] == vb_handle@.branches[i as int]);
        branches.push(GroupBranch::Virtual(virtual_branches[i].clone()));
        i = i + 1;
    }
    proof {
        let all = branches_of(repo@, vb_handle@);
        assert(views(branches@).len() == all.len());
        assert forall|k: int| 0 <= k < all.len() implies views(branches@)[k] == all[k] by {
            if k < locals {
                assert(branches@[k]@ == GroupBranchView::Local(repo@.local_branches[k]));
            } else if k < references {
                assert(branches@[locals + (k - locals)]@ == GroupBranchView::Remote(
                    repo@.remote_branches[k - locals],
                ));
            } else {
                assert(branches@[references + (k - references)]@ == GroupBranchView::Virtual(
                    vb_handle@.branches[k - references],
                ));
            }
        }
        assert(views(branches@) =~= all);
    }
    let target = match vb_handle.get_default_target() {
        Ok(t) => t,
        Err(e) => {
            return Err(e);
        },
    };
    let listing = combine_branches(&branches, repo, &target);
    let ghost all = views(listing@);
    let ghost wanted = is_wanted(filter, opt_names(filter_branch_names));
    let mut out: Vec<BranchListing> = Vec::new();
    proof {
        lemma_filter_empty(all.take(0), wanted);
    }
    for entry in it: listing
        invariant
            views(it.seq()) == all,
            wanted == is_wanted(filter, opt_names(filter_branch_names)),
            views(out@) == all.take(it.index() as int).filter(wanted),
    {
        proof {
            lemma_filter_step(all, wanted, it.index() as int);
            assert(all[it.index() as int] == entry@);
        }
        let meets_filter = match filter {
            Some(f) => matches_all(&entry, f),
            None => true,
        };
        let named = match &filter_branch_names {
            Some(names) => names_hold(names, &entry.name),
            None => true,
        };
        if meets_filter && named {
            let ghost before = out@;
            out.push(entry);
            assert(views(out@) =~= views(before).push(entry@));
        }
    }
    assert(all.take(all.len() as int) == all);
    Ok(out)
}

/// Where an entry of the listing comes from: the entry at `k` is that of a
/// group which the branch at the returned index opens, and `k` entries come
/// from the branches before it.
pub proof fn lemma_entry_origin(
    branches: Seq<GroupBranchView>,
    repo: RepositoryView,
    target: TargetView,
    n: int,
    k: int,
) -> (i: int)
    requires
        0 <= n <= branches.len(),
        0 <= k < combined_upto(branches, repo, target, n).len(),
    ensures
        0 <= i < n,
        entry_at(branches, repo, target, i) == Some(combined_upto(branches, repo, target, n)[k]),
        combined_upto(branches, repo, target, i).len() == k,
    decreases n,
{
    let init = combined_upto(branches, repo, target, n - 1);
    if k < init.len() {
        lemma_entry_origin(branches, repo, target, n - 1, k)
    } else {
        n - 1
    }
}

/// An entry of the listing carries the identity of its group as its name,
/// and is the entry of the branches that are listed under that identity.
pub proof fn lemma_entry_of_group(
    branches: Seq<GroupBranchView>,
    repo: RepositoryView,
    target: TargetView,
    k: int,
)
    requires
        0 <= k < combined(branches, repo, target).len(),
    ensures
        group_entry(
            combined(branches, repo, target)[k].name,
            members(branches, repo.remotes, combined(branches, repo, target)[k].name),
            repo,
            target,
        ) == Some(combined(branches, repo, target)[k]),
{
    let i = lemma_entry_origin(branches, repo, target, branches.len() as int, k);
}

/// Every identity in the listing is unique: no two entries have one name.
pub proof fn lemma_identities_unique(
    branches: Seq<GroupBranchView>,
    repo: RepositoryView,
    target: TargetView,
    k: int,
    m: int,
)
    requires
        0 <= k < m < combined(branches, repo, target).len(),
    ensures
        combined(branches, repo, target)[k].name != combined(branches, repo, target)[m].name,
{
    let n = branches.len() as int;
    let i = lemma_entry_origin(branches, repo, target, n, k);
    let j = lemma_entry_origin(branches, repo, target, n, m);
    assert(i != j);
    assert(opens_group(branches, repo.remotes, i));
    assert(opens_group(branches, repo.remotes, j));
}

/// Every identity is unique in the listing that a filter has thinned out too.
pub proof fn lemma_listed_identities_unique(
    branches: Seq<GroupBranchView>,
    repo: RepositoryView,
    target: TargetView,
    wanted: spec_fn(BranchListingView) -> bool,
    k: int,
    m: int,
)
    requires
        0 <= k < m < combined(branches, repo, target).filter(wanted).len(),
    ensures
        combined(branches, repo, target).filter(wanted)[k].name != combined(
            branches,
            repo,
            target,
        ).filter(wanted)[m].name,
{
    let all = combined(branches, repo, target);
    let a = lemma_filter_source(all, wanted, k);
    let b = lemma_filter_source(all, wanted, m);
    assert(a != b);
    if a < b {
        lemma_identities_unique(branches, repo, target, a, b);
    } else {
        lemma_identities_unique(branches, repo, target, b, a);
    }
}

/// A listing holds only entries that meet its filter and whose identity is
/// among its names. So a filter that asks for branches applied in the
/// workspace gives only entries with a virtual branch whose workspace flag is
/// set, and one that asks for branches not applied gives only entries without
/// a virtual branch, or with one whose flag is not set.
pub proof fn lemma_listed_are_wanted(
    branches: Seq<GroupBranchView>,
    repo: RepositoryView,
    target: TargetView,
    filter: Option<BranchListingFilter>,
    names: Option<Seq<Seq<char>>>,
    k: int,
)
    requires
        0 <= k < combined(branches, repo, target).filter(is_wanted(filter, names)).len(),
    ensures
        ({
            let e = combined(branches, repo, target).filter(is_wanted(filter, names))[k];
            &&& filter matches Some(f) ==> meets(e, f)
            &&& names matches Some(n) ==> n.contains(e.name)
            &&& (filter is Some && filter->0.applied == Some(true)) ==> (e.virtual_branch is Some
                && e.virtual_branch->0.in_workspace)
            &&& (filter is Some && filter->0.applied == Some(false)) ==> (e.virtual_branch is None
                || !e.virtual_branch->0.in_workspace)
        }),
{
    let all = combined(branches, repo, target);
    let j = lemma_filter_source(all, is_wanted(filter, names), k);
}

/// The base branch of the project is not listed: no entry without a virtual
/// branch has a local branch and the name of the target's branch.
pub proof fn lemma_target_branch_left_out(
    branches: Seq<GroupBranchView>,
    repo: RepositoryView,
    target: TargetView,
    k: int,
)
    requires
        0 <= k < combined(branches, repo, target).len(),
    ensures
        !(combined(branches, repo, target)[k].virtual_branch is None && combined(
            branches,
            repo,
            target,
        )[k].has_local && combined(branches, repo, target)[k].name == target.branch.branch),
{
    let e = combined(branches, repo, target)[k];
    lemma_entry_of_group(branches, repo, target, k);
    let group = members(branches, repo.remotes, e.name);
    if e.virtual_branch is None && e.has_local && e.name == target.branch.branch {
        lemma_first_index(group, is_local());
        let q = first_index(group, is_local())->0;
        assert(is_local()(group[q]));
        let j = lemma_filter_source(branches, in_group(repo.remotes, e.name), q);
        assert(in_group(repo.remotes, e.name)(branches[j]));
        assert(group[q] is Local && given_name(group[q]->Local_0, true, repo.remotes) == Some(
            e.name,
        ));
        assert(has_local_named(group, repo.remotes, target.branch.branch));
    }
}

/// The virtual branch of a group is one of its members, and none of the
/// virtual branches of the group was changed later. A group has none where
/// none of its members is a virtual branch.
pub proof fn lemma_latest_virtual(group: Seq<GroupBranchView>)
    ensures
        match latest_virtual(group) {
            Some(v) => group.contains(GroupBranchView::Virtual(v)) && forall|i: int|
                0 <= i < group.len() && (#[trigger] group[i]) is Virtual
                    ==> group[i]->Virtual_0.updated_timestamp_ms <= v.updated_timestamp_ms,
            None => forall|i: int| 0 <= i < group.len() ==> !((#[trigger] group[i]) is Virtual),
        },
    decreases group.len(),
{
    if group.len() > 0 {
        let init = group.drop_last();
        lemma_latest_virtual(init);
        match latest_virtual(group) {
            Some(v) => {
                if latest_virtual(init) == Some(v) && !(group.last() == GroupBranchView::Virtual(
                    v,
                )) {
                    let i = choose|i: int|
                        0 <= i < init.len() && init[i] == GroupBranchView::Virtual(v);
                    assert(group[i] == GroupBranchView::Virtual(v));
                } else {
                    assert(group[group.len() - 1] == GroupBranchView::Virtual(v));
                }
                assert forall|i: int| 0 <= i < group.len() && (#[trigger] group[i]) is Virtual implies group[i]->Virtual_0.updated_timestamp_ms
                    <= v.updated_timestamp_ms by {
                    if i < init.len() {
                        assert(init[i] == group[i]);
                    }
                }
            },
            None => {
                assert forall|i: int| 0 <= i < group.len() implies !((#[trigger] group[i]) is Virtual) by {
                    if i < init.len() {
                        assert(init[i] == group[i]);
                    }
                }
            },
        }
    }
}

/// Where a virtual branch shares its identity with references, the head of
/// the entry is the head of the virtual branch, and the entry refers to it.
/// An entry whose group has no virtual branch refers to none.
pub proof fn lemma_virtual_head_first(
    branches: Seq<GroupBranchView>,
    repo: RepositoryView,
    target: TargetView,
    k: int,
)
    requires
        0 <= k < combined(branches, repo, target).len(),
    ensures
        match latest_virtual(
            members(branches, repo.remotes, combined(branches, repo, target)[k].name),
        ) {
            Some(v) => combined(branches, repo, target)[k].head == v.head && combined(
                branches,
                repo,
                target,
            )[k].virtual_branch == Some(reference_to(v)),
            None => combined(branches, repo, target)[k].virtual_branch is None,
        },
{
    lemma_entry_of_group(branches, repo, target, k);
}

/// Where one virtual branch alone shares its identity with references, the
/// head of the entry of that identity is the head of the virtual branch.
pub proof fn lemma_only_virtual_head(
    branches: Seq<GroupBranchView>,
    repo: RepositoryView,
    target: TargetView,
    k: int,
    j: int,
)
    requires
        0 <= k < combined(branches, repo, target).len(),
        0 <= j < branches.len(),
        branches[j] is Virtual,
        branches[j].listed_identity(repo.remotes) == Some(combined(branches, repo, target)[k].name),
        forall|other: int|
            0 <= other < branches.len() && other != j && (#[trigger] branches[other]) is Virtual
                ==> branches[other].listed_identity(repo.remotes) != Some(
                combined(branches, repo, target)[k].name,
            ),
    ensures
        combined(branches, repo, target)[k].head == branches[j]->Virtual_0.head,
        combined(branches, repo, target)[k].virtual_branch == Some(
            reference_to(branches[j]->Virtual_0),
        ),
{
    let e = combined(branches, repo, target)[k];
    let p = in_group(repo.remotes, e.name);
    let group = members(branches, repo.remotes, e.name);
    lemma_virtual_head_first(branches, repo, target, k);
    lemma_latest_virtual(group);
    lemma_filter_index(branches, p);
    assert(p(branches[j]));
    let q = kept_before(branches, p, j) as int;
    assert(group[q] == branches[j]);
    match latest_virtual(group) {
        Some(w) => {
            let at = choose|at: int| 0 <= at < group.len() && group[at] == GroupBranchView::Virtual(w);
            let from = lemma_filter_source(branches, p, at);
            assert(p(branches[from]));
            assert(from == j);
        },
        None => {
            assert(!(group[q] is Virtual));
        },
    }
}

} // verus!
