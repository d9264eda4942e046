//! The statistics of listed branches: lines, files, commits and authors,
//! relative to the default target.

use vstd::prelude::*;

use crate::branch::{
    BranchListing, BranchListingDetails, BranchListingDetailsView, BranchListingView,
};
use crate::commit::{Author, AuthorView};
use crate::listing::{branches_of, combined, is_wanted, list_branches};
use crate::oid::Oid;
use crate::repository::{Repository, RepositoryView};
use crate::sequences::views;
use crate::state::{StoreError, VirtualBranchesHandle};

verus! {

/// The authors of `s`, each once, in the order in which they are first met.
pub open spec fn distinct(s: Seq<AuthorView>) -> Seq<AuthorView>
    decreases s.len(),
{
    if s.len() == 0 {
        Seq::empty()
    } else {
        let init = distinct(s.drop_last());
        if init.contains(s.last()) {
            init
        } else {
            init.push(s.last())
        }
    }
}

/// The authors of the commits of a walk, one for one; none where one of the
/// commits is not found.
pub open spec fn walked_authors(repo: RepositoryView, commits: Seq<Oid>) -> Option<Seq<AuthorView>>
    decreases commits.len(),
{
    if commits.len() == 0 {
        Some(Seq::empty())
    } else {
        match (walked_authors(repo, commits.drop_last()), repo.commit(commits.last())) {
            (Some(init), Some(c)) => Some(init.push(c.author)),
            _ => None,
        }
    }
}

/// The statistics of one entry of the listing, relative to the commit `sha`
/// of the target.
///
/// The lines and files are those by which the tree of the head differs from
/// that of the merge base of target and head; the commits are those reached
/// from the head and not from the merge base. There are no statistics where
/// the merge base, the difference, the walk or one of its commits is not
/// found.
pub open spec fn details_of(b: BranchListingView, repo: RepositoryView, sha: Oid) -> Option<
    BranchListingDetailsView,
> {
    match repo.merge_base(sha, b.head) {
        None => None,
        Some(base) => match (repo.diff(base, b.head), repo.walk(b.head, base)) {
            (Some(d), Some(commits)) => match walked_authors(repo, commits) {
                Some(authors) => Some(
                    BranchListingDetailsView {
                        name: b.name,
                        lines_added: d.insertions,
                        lines_removed: d.deletions,
                        number_of_files: d.files_changed,
                        number_of_commits: commits.len() as usize,
                        authors: distinct(authors),
                    },
                ),
                None => None,
            },
            _ => None,
        },
    }
}

/// The statistics of the entries of a listing, in their order, without the
/// entries that have none.
pub open spec fn enriched(listing: Seq<BranchListingView>, repo: RepositoryView, sha: Oid) -> Seq<
    BranchListingDetailsView,
>
    decreases listing.len(),
{
    if listing.len() == 0 {
        Seq::empty()
    } else {
        let init = enriched(listing.drop_last(), repo, sha);
        match details_of(listing.last(), repo, sha) {
            Some(d) => init.push(d),
            None => init,
        }
    }
}

/// The optional statistics as their view.
pub open spec fn opt_details(d: Option<BranchListingDetails>) -> Option<BranchListingDetailsView> {
    match d {
        Some(x) => Some(x@),
        None => None,
    }
}

/// Whether `authors` holds this author.
fn holds_author(authors: &Vec<Author>, author: &Author) -> (r: bool)
    ensures
        r == views(authors@).contains(author@),
{
    let mut i: usize = 0;
    while i < authors.len()
        invariant
            i <= authors.len(),
            forall|k: int| 0 <= k < i ==> views(authors@)[k] != author@,
        decreases authors.len() - i,
    {
        if authors[i] == *author {
            assert(views(authors@)[i as int] == author@);
            return true;
        }
        i = i + 1;
    }
    false
}

/// Those who wrote the commits of a walk, each once; none where one of the
/// commits is not found.
fn authors_of(repo: &Repository, commits: &Vec<Oid>) -> (r: Option<Vec<Author>>)
    ensures
        match r {
            Some(a) => walked_authors(repo@, commits@) is Some && views(a@) == distinct(
                walked_authors(repo@, commits@)->0,
            ),
            None => walked_authors(repo@, commits@) is None,
        },
{
    let mut authors: Vec<Author> = Vec::new();
    let mut i: usize = 0;
    while i < commits.len()
        invariant
            i <= commits.len(),
            walked_authors(repo@, commits@.take(i as int)) is Some,
            views(authors@) == distinct(walked_authors(repo@, commits@.take(i as int))->0),
        decreases commits.len() - i,
    {
        proof {
            assert(commits@.take(i + 1).drop_last() == commits@.take(i as int));
            assert(commits@.take(i + 1).last() == commits@[i as int]);
        }
        match repo.find_commit(commits[i]) {
            Some(commit) => {
                proof {
                    let all = walked_authors(repo@, commits@.take(i + 1))->0;
                    assert(all.drop_last() == walked_authors(repo@, commits@.take(i as int))->0);
                    assert(all.last() == commit@.author);
                }
                if !holds_author(&authors, &commit.author) {
                    let ghost before = authors@;
                    authors.push(commit.author.clone());
                    assert(views(authors@) =~= views(before).push(commit@.author));
                }
            },
            None => {
                proof {
                    lemma_walk_breaks(repo@, commits@, i + 1);
                }
                return None;
            },
        }
        i = i + 1;
    }
    assert(commits@.take(commits.len() as int) == commits@);
    Some(authors)
}

/// A walk of which a part has a commit that is not found has one itself.
proof fn lemma_walk_breaks(repo: RepositoryView, commits: Seq<Oid>, n: int)
    requires
        0 <= n <= commits.len(),
        walked_authors(repo, commits.take(n)) is None,
    ensures
        walked_authors(repo, commits) is None,
    decreases commits.len() - n,
{
    if n < commits.len() {
        assert(commits.take(n + 1).drop_last() == commits.take(n));
        lemma_walk_breaks(repo, commits, n + 1);
    } else {
        assert(commits.take(n) == commits);
    }
}

/// The statistics of one entry of the listing, relative to the commit `sha`
/// of the target, where the repository gives them.
pub fn branch_details(branch: &BranchListing, repo: &Repository, sha: Oid) -> (r: Option<
    BranchListingDetails,
>)
    ensures
        opt_details(r) == details_of(branch@, repo@, sha),
{
    let base = match repo.merge_base(sha, branch.head) {
        Some(b) => b,
        None => {
            return None;
        },
    };
    let stats = match repo.diff(base, branch.head) {
        Some(d) => d,
        None => {
            return None;
        },
    };
    let commits = match repo.walk(branch.head, base) {
        Some(c) => c,
        None => {
            return None;
        },
    };
    let authors = match authors_of(repo, commits) {
        Some(a) => a,
        None => {
            return None;
        },
    };
    Some(
        BranchListingDetails {
            name: branch.name.clone(),
            lines_added: stats.insertions,
            lines_removed: stats.deletions,
            number_of_files: stats.files_changed,
            number_of_commits: commits.len(),
            authors,
        },
    )
}

/// Takes a list of branch names, as a listing gives them, and returns the
/// statistics of the branches of these names: of each one that is listed and
/// for which the repository gives the merge base with the target, the
/// difference and the walk. The others are left out.
///
/// Fails with `DefaultTargetNotFound` where the document has no default
/// target.
pub fn get_branch_listing_details(
    repo: &Repository,
    vb_handle: &VirtualBranchesHandle,
    branch_names: Vec<String>,
) -> (r: Result<Vec<BranchListingDetails>, StoreError>)
    ensures
        match r {
            Ok(details) => vb_handle@.default_target is Some && views(details@) == enriched(
                combined(branches_of(repo@, vb_handle@), repo@, vb_handle@.default_target->0).filter(
                    is_wanted(None, Some(views(branch_names@))),
                ),
                repo@,
                vb_handle@.default_target->0.sha,
            ),
            Err(e) => e == StoreError::DefaultTargetNotFound && vb_handle@.default_target is None,
        },
{
    let branches = match list_branches(repo, vb_handle, None, Some(branch_names)) {
        Ok(b) => b,
        Err(e) => {
            return Err(e);
        },
    };
    let default_target = match vb_handle.get_default_target() {
        Ok(t) => t,
        Err(e) => {
            return Err(e);
        },
    };
    let ghost listing = views(branches@);
    let mut enriched_branches: Vec<BranchListingDetails> = Vec::new();
    let mut i: usize = 0;
    while i < branches.len()
        invariant
            i <= branches.len(),
            listing == views(branches@),
            views(enriched_branches@) == enriched(
                listing.take(i as int),
                repo@,
                default_target.sha,
            ),
        decreases branches.len() - i,
    {
        proof {
            assert(listing.take(i + 1).drop_last() == listing.take(i as int));
            assert(listing.take(i + 1).last() == branches@[i as int]@);
        }
        match branch_details(&branches[i], repo, default_target.sha) {
            Some(details) => {
                let ghost before = enriched_branches@;
                enriched_branches.push(details);
                assert(views(enriched_branches@) =~= views(before).push(details@));
            },
            None => {},
        }
        i = i + 1;
    }
    assert(listing.take(branches.len() as int) == listing);
    Ok(enriched_branches)
}

} // verus!
