//! The identity of a branch: the short name under which a local reference, a
//! remote reference and a virtual branch are taken for one branch.

use vstd::prelude::*;

use crate::reference::{normalize_branch_name, normalized};
use crate::repository::{ReferenceBranch, ReferenceBranchView};
use crate::stack::{Stack, StackView};
use crate::sequences::views;
use crate::text::{chars_of, opt_text, string_of, text_eq};

verus! {

/// Whether `name` is `remote`, a slash, and what follows.
pub open spec fn follows(name: Seq<char>, remote: Seq<char>) -> bool {
    name.len() > remote.len() && name.subrange(0, remote.len() as int) == remote
        && name[remote.len() as int] == '/'
}

/// The length of the longest of `remotes` that `name` follows, if it follows
/// any.
pub open spec fn tracked_len(name: Seq<char>, remotes: Seq<Seq<char>>) -> Option<nat>
    decreases remotes.len(),
{
    if remotes.len() == 0 {
        None
    } else {
        let rest = tracked_len(name, remotes.drop_last());
        let r = remotes.last();
        if follows(name, r) && (rest is None || rest->0 < r.len()) {
            Some(r.len())
        } else {
            rest
        }
    }
}

/// The name of a reference without the remote that it follows. A local
/// branch that follows none keeps its name; of a remote branch that follows
/// none no name can be told.
pub open spec fn given_name(b: ReferenceBranchView, local: bool, remotes: Seq<Seq<char>>) -> Option<
    Seq<char>,
> {
    match tracked_len(b.name, remotes) {
        Some(n) => Some(b.name.skip(n as int + 1)),
        None => if local {
            Some(b.name)
        } else {
            None
        },
    }
}

/// The identity of a virtual branch: the branch that its source reference
/// names; else the branch that it is pushed to; else its own name, normalised.
pub open spec fn virtual_identity(b: StackView) -> Option<Seq<char>> {
    let from_source = match b.source_refname {
        Some(s) => s.branch(),
        None => None,
    };
    match from_source {
        Some(n) => Some(n),
        None => match b.upstream {
            Some(u) => Some(u.branch),
            None => match normalized(b.name) {
                Ok(n) => Some(n),
                Err(_) => None,
            },
        },
    }
}

/// The identities that are never listed: the branches that the application
/// keeps for itself, and the bare `HEAD`.
pub open spec fn is_technical(identity: Seq<char>) -> bool {
    identity == "gitbutler/integration"@ || identity == "gitbutler/target"@ || identity
        == "gitbutler/oplog"@ || identity == "HEAD"@
}

/// Determines if a branch of this identity is listed: all but the technical
/// ones are.
pub fn should_list_git_branch(identity: &str) -> (r: bool)
    ensures
        r == !is_technical(identity@),
{
    let technical = text_eq(identity, "gitbutler/integration") || text_eq(
        identity,
        "gitbutler/target",
    ) || text_eq(identity, "gitbutler/oplog") || text_eq(identity, "HEAD");
    !technical
}

/// Whether `name` is `remote`, a slash, and what follows.
fn follows_remote(name: &Vec<char>, remote: &Vec<char>) -> (r: bool)
    ensures
        r == follows(name@, remote@),
{
    if name.len() <= remote.len() {
        return false;
    }
    let mut i: usize = 0;
    while i < remote.len()
        invariant
            i <= remote.len() < name.len(),
            forall|k: int| 0 <= k < i ==> name@[k] == remote@[k],
        decreases remote.len() - i,
    {
        if name[i] != remote[i] {
            assert(name@.subrange(0, remote.len() as int)[i as int] != remote@[i as int]);
            return false;
        }
        i = i + 1;
    }
    assert(name@.subrange(0, remote.len() as int) =~= remote@);
    name[remote.len()] == '/'
}

/// The name of a reference without the remote that it follows.
pub fn reference_given_name(branch: &ReferenceBranch, local: bool, remotes: &Vec<String>) -> (r:
    Option<String>)
    ensures
        opt_text(r) == given_name(branch@, local, views(remotes@)),
{
    let name = chars_of(branch.name.as_str());
    let ghost all = views(remotes@);
    let mut best: Option<usize> = None;
    let mut i: usize = 0;
    while i < remotes.len()
        invariant
            i <= remotes.len(),
            name@ == branch@.name,
            all == views(remotes@),
            match best {
                Some(n) => tracked_len(name@, all.take(i as int)) == Some(n as nat) && n
                    < name.len(),
                None => tracked_len(name@, all.take(i as int)) is None,
            },
        decreases remotes.len() - i,
    {
        let remote = chars_of(remotes[i].as_str());
        proof {
            assert(all.take(i + 1).drop_last() == all.take(i as int));
            assert(all.take(i + 1).last() == remote@);
        }
        if follows_remote(&name, &remote) {
            let longer = match best {
                Some(n) => n < remote.len(),
                None => true,
            };
            if longer {
                best = Some(remote.len());
            }
        }
        i = i + 1;
    }
    assert(all.take(remotes.len() as int) == all);
    match best {
        Some(n) => {
            let r = string_of(&name, n + 1, name.len());
            Some(r)
        },
        None => if local {
            Some(branch.name.clone())
        } else {
            None
        },
    }
}

/// The identity of a virtual branch.
pub fn stack_identity(branch: &Stack) -> (r: Option<String>)
    ensures
        opt_text(r) == virtual_identity(branch@),
{
    let from_source: Option<&str> = match &branch.source_refname {
        Some(s) => s.branch(),
        None => None,
    };
    match from_source {
        Some(n) => Some(n.to_owned()),
        None => match &branch.upstream {
            Some(u) => Some(u.branch.clone()),
            None => match normalize_branch_name(branch.name.as_str()) {
                Ok(n) => Some(n),
                Err(_) => None,
            },
        },
    }
}

} // verus!
