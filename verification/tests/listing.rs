use virtual_branches::branch::{
    matches_all, BranchListing, BranchListingDetails, BranchListingFilter, VirtualBranchReference,
};
use virtual_branches::commit::{Author, Commit};
use virtual_branches::details::{branch_details, get_branch_listing_details};
use virtual_branches::group::{branch_group_to_branch, commit_time_ms, GroupBranch};
use virtual_branches::listing::{combine_branches, list_branches};
use virtual_branches::oid::Oid;
use virtual_branches::reference::{Refname, RemoteRefname};
use virtual_branches::repository::{DiffStats, MergeBase, ReferenceBranch, Repository, Walk};
use virtual_branches::stack::{Stack, StackId};
use virtual_branches::state::{StoreError, VirtualBranches, VirtualBranchesHandle};
use virtual_branches::target::Target;

fn oid(n: u128) -> Oid {
    Oid { high: 0, low: n }
}

fn author(name: &str) -> Author {
    Author { name: Some(name.to_string()), email: Some(format!("{name}@example.com")) }
}

fn commit(id: u128, seconds: i64, by: &str) -> Commit {
    Commit { id: oid(id), time_seconds: seconds, author: author(by) }
}

fn reference(name: &str, head: Option<u128>, remote: Option<&str>) -> ReferenceBranch {
    ReferenceBranch {
        name: name.to_string(),
        head: head.map(oid),
        remote: remote.map(|r| r.to_string()),
    }
}

fn stack(id: u128, name: &str, head: u128, in_workspace: bool, updated: u128) -> Stack {
    Stack {
        id: StackId(id),
        name: name.to_string(),
        head: oid(head),
        upstream: None,
        source_refname: None,
        in_workspace,
        order: 0,
        updated_timestamp_ms: updated,
        not_in_workspace_wip_change_id: None,
    }
}

fn target() -> Target {
    Target {
        branch: RemoteRefname::new("origin", "master"),
        remote_url: "https://example.com/repo.git".to_string(),
        sha: oid(1000),
    }
}

fn repository() -> Repository {
    let mut repo = Repository::new();
    repo.remotes = vec!["origin".to_string(), "upstream".to_string()];
    repo
}

fn handle_with(branches: Vec<Stack>) -> VirtualBranchesHandle {
    VirtualBranchesHandle::new(VirtualBranches::from_parts(Some(target()), Vec::new(), branches))
}

fn names(listing: &[BranchListing]) -> Vec<String> {
    listing.iter().map(|b| b.name.clone()).collect()
}

fn entry(name: &str, vb: Option<bool>, has_local: bool) -> BranchListing {
    BranchListing {
        name: name.to_string(),
        remotes: Vec::new(),
        virtual_branch: vb.map(|in_workspace| VirtualBranchReference {
            given_name: name.to_string(),
            id: StackId(1),
            in_workspace,
        }),
        updated_at: 0,
        last_commiter: author("a"),
        has_local,
        head: oid(1),
    }
}

#[test]
fn commit_time_in_milliseconds() {
    assert_eq!(commit_time_ms(0), 0);
    assert_eq!(commit_time_ms(1), 1000);
    assert_eq!(commit_time_ms(1_700_000_000), 1_700_000_000_000);
    assert_eq!(commit_time_ms(i64::MAX), 9_223_372_036_854_775_807_000);
    assert_eq!(commit_time_ms(-1), u128::MAX - 999);
    assert_eq!(commit_time_ms(-1), (-1000i64) as u128);
    assert_eq!(commit_time_ms(i64::MIN), ((i64::MIN as i128) * 1000) as u128);
}

#[test]
fn two_tracking_references_and_a_virtual_branch_make_one_entry() {
    let mut repo = repository();
    repo.local_branches = vec![
        reference("origin/feature", Some(1), Some("origin")),
        reference("upstream/feature", Some(2), Some("upstream")),
    ];
    repo.commits = vec![commit(1, 10, "ann"), commit(2, 20, "bob"), commit(3, 30, "cy")];
    let h = handle_with(vec![stack(7, "feature", 3, true, 5)]);
    let listing = list_branches(&repo, &h, None, None).unwrap();
    assert_eq!(listing.len(), 1);
    let e = &listing[0];
    assert_eq!(e.name, "feature");
    assert_eq!(e.head, oid(3));
    assert_eq!(e.remotes, vec!["origin".to_string(), "upstream".to_string()]);
    assert!(e.has_local);
    assert_eq!(
        e.virtual_branch,
        Some(VirtualBranchReference {
            given_name: "feature".to_string(),
            id: StackId(7),
            in_workspace: true
        })
    );
    assert_eq!(e.updated_at, 30_000);
    assert_eq!(e.last_commiter, author("cy"));
}

#[test]
fn identities_in_a_listing_are_unique() {
    let mut repo = repository();
    repo.local_branches = vec![
        reference("a", Some(1), None),
        reference("b", Some(1), None),
        reference("origin/a", Some(1), Some("origin")),
    ];
    repo.remote_branches = vec![
        reference("origin/a", Some(1), Some("origin")),
        reference("upstream/b", Some(1), Some("upstream")),
        reference("origin/c", Some(1), Some("origin")),
    ];
    repo.commits = vec![commit(1, 10, "ann")];
    let h = handle_with(vec![stack(1, "a", 1, true, 0), stack(2, "c", 1, false, 0), stack(3, "d", 1, true, 0)]);
    let listing = list_branches(&repo, &h, None, None).unwrap();
    assert_eq!(names(&listing), vec!["a", "b", "c", "d"]);
}

#[test]
fn the_target_branch_is_not_listed() {
    let mut repo = repository();
    repo.local_branches = vec![reference("master", Some(1), Some("origin")), reference("x", Some(1), None)];
    repo.commits = vec![commit(1, 10, "ann")];
    let h = handle_with(Vec::new());
    let listing = list_branches(&repo, &h, None, None).unwrap();
    assert_eq!(names(&listing), vec!["x"]);
}

#[test]
fn the_target_branch_is_listed_with_a_virtual_branch() {
    let mut repo = repository();
    repo.local_branches = vec![reference("master", Some(1), None)];
    repo.commits = vec![commit(1, 10, "ann"), commit(2, 10, "bob")];
    let h = handle_with(vec![stack(1, "master", 2, true, 0)]);
    let listing = list_branches(&repo, &h, None, None).unwrap();
    assert_eq!(names(&listing), vec!["master"]);
    assert_eq!(listing[0].head, oid(2));
}

#[test]
fn a_remote_branch_of_the_target_name_alone_is_listed() {
    let mut repo = repository();
    repo.remote_branches = vec![reference("origin/master", Some(1), Some("origin"))];
    repo.commits = vec![commit(1, 10, "ann")];
    let h = handle_with(Vec::new());
    let listing = list_branches(&repo, &h, None, None).unwrap();
    assert_eq!(names(&listing), vec!["master"]);
    assert!(!listing[0].has_local);
    assert_eq!(listing[0].virtual_branch, None);
}

#[test]
fn technical_branches_and_branches_without_identity_are_left_out() {
    let mut repo = repository();
    repo.local_branches = vec![
        reference("gitbutler/integration", Some(1), None),
        reference("gitbutler/target", Some(1), None),
        reference("gitbutler/oplog", Some(1), None),
        reference("HEAD", Some(1), None),
        reference("kept", Some(1), None),
    ];
    repo.remote_branches = vec![
        reference("origin/HEAD", Some(1), Some("origin")),
        reference("elsewhere/x", Some(1), None),
    ];
    repo.commits = vec![commit(1, 10, "ann")];
    let h = handle_with(vec![stack(1, "   ", 1, true, 0)]);
    let listing = list_branches(&repo, &h, None, None).unwrap();
    assert_eq!(names(&listing), vec!["kept"]);
}

#[test]
fn a_group_without_a_head_is_dropped_and_the_rest_is_listed() {
    let mut repo = repository();
    repo.local_branches = vec![reference("broken", None, None), reference("fine", Some(1), None)];
    repo.remote_branches = vec![
        reference("origin/broken", Some(1), Some("origin")),
        reference("origin/lost", Some(9), Some("origin")),
    ];
    repo.commits = vec![commit(1, 10, "ann")];
    let h = handle_with(vec![stack(1, "gone", 8, true, 0)]);
    let listing = list_branches(&repo, &h, None, None).unwrap();
    assert_eq!(names(&listing), vec!["fine"]);
}

#[test]
fn the_head_of_interest_goes_by_priority() {
    let mut repo = repository();
    repo.local_branches = vec![reference("a", Some(1), None), reference("origin/a", Some(2), None)];
    repo.remote_branches = vec![reference("origin/a", Some(3), None), reference("origin/b", Some(3), None), reference("upstream/b", Some(4), None)];
    repo.commits = vec![commit(1, 1, "l"), commit(2, 2, "m"), commit(3, 3, "r"), commit(4, 4, "s")];
    let h = handle_with(Vec::new());
    let listing = list_branches(&repo, &h, None, None).unwrap();
    assert_eq!(names(&listing), vec!["a", "b"]);
    assert_eq!(listing[0].head, oid(1));
    assert!(listing[0].has_local);
    assert_eq!(listing[0].last_commiter, author("l"));
    assert_eq!(listing[1].head, oid(3));
    assert!(!listing[1].has_local);
    assert!(listing[1].remotes.is_empty());
}

#[test]
fn of_several_virtual_branches_the_latest_is_taken() {
    let mut repo = repository();
    repo.commits = vec![commit(1, 1, "a"), commit(2, 1, "b"), commit(3, 1, "c")];
    let h = handle_with(vec![
        stack(1, "same", 1, true, 50),
        stack(2, "same", 2, false, 90),
        stack(3, "same", 3, true, 90),
        stack(4, "same", 1, true, 10),
    ]);
    let listing = list_branches(&repo, &h, None, None).unwrap();
    assert_eq!(listing.len(), 1);
    assert_eq!(listing[0].head, oid(3));
    assert_eq!(listing[0].virtual_branch.as_ref().unwrap().id, StackId(3));
    assert_eq!(listing[0].updated_at, 1000);
}

#[test]
fn updated_at_is_the_later_of_commit_and_virtual_branch() {
    let mut repo = repository();
    repo.commits = vec![commit(1, 2, "a")];
    let h = handle_with(vec![stack(1, "early", 1, true, 1999), stack(2, "late", 1, true, 2001)]);
    let listing = list_branches(&repo, &h, None, None).unwrap();
    assert_eq!(listing[0].updated_at, 2000);
    assert_eq!(listing[1].updated_at, 2001);
}

#[test]
fn remotes_are_collected_once_from_local_branches() {
    let mut repo = repository();
    repo.local_branches = vec![
        reference("origin/f", Some(1), Some("origin")),
        reference("f", Some(1), Some("upstream")),
        reference("upstream/f", Some(1), Some("origin")),
        reference("f", Some(1), None),
    ];
    repo.remote_branches = vec![reference("origin/f", Some(1), Some("third"))];
    repo.commits = vec![commit(1, 2, "a")];
    let h = handle_with(Vec::new());
    let listing = list_branches(&repo, &h, None, None).unwrap();
    assert_eq!(listing.len(), 1);
    assert_eq!(listing[0].remotes, vec!["origin".to_string(), "upstream".to_string()]);
}

#[test]
fn listing_fails_without_a_default_target() {
    let repo = repository();
    let h = VirtualBranchesHandle::new(VirtualBranches::new());
    assert_eq!(list_branches(&repo, &h, None, None), Err(StoreError::DefaultTargetNotFound));
    assert_eq!(
        get_branch_listing_details(&repo, &h, vec!["a".to_string()]),
        Err(StoreError::DefaultTargetNotFound)
    );
}

#[test]
fn filter_applied_true_keeps_the_workspace() {
    let f = BranchListingFilter { local: None, applied: Some(true) };
    assert!(matches_all(&entry("a", Some(true), false), f));
    assert!(!matches_all(&entry("a", Some(false), true), f));
    assert!(!matches_all(&entry("a", None, true), f));
}

#[test]
fn filter_applied_false_keeps_the_rest() {
    let f = BranchListingFilter { local: None, applied: Some(false) };
    assert!(!matches_all(&entry("a", Some(true), false), f));
    assert!(matches_all(&entry("a", Some(false), true), f));
    assert!(matches_all(&entry("a", None, false), f));
}

#[test]
fn filter_local_goes_by_local_reference_or_virtual_branch() {
    let yes = BranchListingFilter { local: Some(true), applied: None };
    let no = BranchListingFilter { local: Some(false), applied: None };
    assert!(matches_all(&entry("a", None, true), yes));
    assert!(matches_all(&entry("a", Some(false), false), yes));
    assert!(!matches_all(&entry("a", None, false), yes));
    assert!(!matches_all(&entry("a", None, true), no));
    assert!(!matches_all(&entry("a", Some(true), false), no));
    assert!(matches_all(&entry("a", None, false), no));
}

#[test]
fn filter_fields_combine_and_an_empty_filter_asks_nothing() {
    let both = BranchListingFilter { local: Some(true), applied: Some(false) };
    assert!(matches_all(&entry("a", None, true), both));
    assert!(matches_all(&entry("a", Some(false), false), both));
    assert!(!matches_all(&entry("a", None, false), both));
    assert!(!matches_all(&entry("a", Some(true), true), both));
    let none = BranchListingFilter::default();
    assert_eq!(none, BranchListingFilter { local: None, applied: None });
    assert!(matches_all(&entry("a", None, false), none));
    assert!(matches_all(&entry("a", Some(true), true), none));
}

#[test]
fn listing_applies_filter_and_names() {
    let mut repo = repository();
    repo.local_branches = vec![reference("a", Some(1), None), reference("b", Some(1), None)];
    repo.remote_branches = vec![reference("origin/c", Some(1), None)];
    repo.commits = vec![commit(1, 2, "x")];
    let h = handle_with(vec![stack(1, "a", 1, true, 0), stack(2, "d", 1, false, 0)]);
    let applied = BranchListingFilter { local: None, applied: Some(true) };
    assert_eq!(names(&list_branches(&repo, &h, Some(applied), None).unwrap()), vec!["a"]);
    let unapplied = BranchListingFilter { local: None, applied: Some(false) };
    assert_eq!(names(&list_branches(&repo, &h, Some(unapplied), None).unwrap()), vec!["b", "c", "d"]);
    let local = BranchListingFilter { local: Some(true), applied: None };
    assert_eq!(names(&list_branches(&repo, &h, Some(local), None).unwrap()), vec!["a", "b", "d"]);
    let remote_only = BranchListingFilter { local: Some(false), applied: None };
    assert_eq!(names(&list_branches(&repo, &h, Some(remote_only), None).unwrap()), vec!["c"]);
    let wanted = Some(vec!["d".to_string(), "b".to_string(), "zzz".to_string(), "".to_string()]);
    assert_eq!(names(&list_branches(&repo, &h, None, wanted.clone()).unwrap()), vec!["b", "d"]);
    assert_eq!(names(&list_branches(&repo, &h, Some(unapplied), wanted).unwrap()), vec!["b", "d"]);
    assert!(list_branches(&repo, &h, None, Some(Vec::new())).unwrap().is_empty());
}

#[test]
fn a_group_is_converted_on_its_own() {
    let mut repo = repository();
    repo.commits = vec![commit(5, 7, "z")];
    let local = GroupBranch::Local(reference("origin/n", Some(5), Some("origin")));
    let remote = GroupBranch::Remote(reference("origin/n", Some(6), None));
    assert_eq!(local.identity(&repo.remotes), Some("n".to_string()));
    assert_eq!(remote.listed_identity(&repo.remotes), Some("n".to_string()));
    let group = vec![&remote, &local];
    let e = branch_group_to_branch("n", &group, &repo, &target()).unwrap();
    assert_eq!(
        e,
        BranchListing {
            name: "n".to_string(),
            remotes: vec!["origin".to_string()],
            virtual_branch: None,
            updated_at: 7000,
            last_commiter: author("z"),
            has_local: true,
            head: oid(5),
        }
    );
    let base = GroupBranch::Local(reference("origin/master", Some(5), None));
    assert_eq!(branch_group_to_branch("master", &vec![&base], &repo, &target()), None);
    assert_eq!(branch_group_to_branch("none", &Vec::new(), &repo, &target()), None);
    let all = vec![remote, local];
    assert_eq!(combine_branches(&all, &repo, &target()), vec![e]);
}

#[test]
fn a_virtual_branch_is_grouped_by_its_source_reference() {
    let mut repo = repository();
    repo.local_branches = vec![reference("topic", Some(1), None)];
    repo.commits = vec![commit(1, 1, "a"), commit(2, 1, "b")];
    let mut vb = stack(1, "Some other name", 2, true, 0);
    vb.source_refname = Some(Refname::Local("topic".to_string()));
    let h = handle_with(vec![vb]);
    let listing = list_branches(&repo, &h, None, None).unwrap();
    assert_eq!(names(&listing), vec!["topic"]);
    assert_eq!(listing[0].head, oid(2));
    assert_eq!(listing[0].virtual_branch.as_ref().unwrap().given_name, "Some other name");
}

fn enriched_repository() -> Repository {
    let mut repo = repository();
    repo.local_branches = vec![reference("a", Some(1), None), reference("b", Some(2), None), reference("c", Some(3), None)];
    repo.commits = vec![
        commit(1, 1, "ann"),
        commit(2, 1, "bob"),
        commit(3, 1, "cy"),
        commit(11, 1, "bob"),
        commit(12, 1, "ann"),
    ];
    repo.merge_bases = vec![
        MergeBase { one: oid(1000), two: oid(1), base: oid(500) },
        MergeBase { one: oid(1000), two: oid(3), base: oid(501) },
        MergeBase { one: oid(2), two: oid(1000), base: oid(502) },
    ];
    repo.diffs = vec![
        DiffStats { old: oid(500), new: oid(1), insertions: 10, deletions: 4, files_changed: 3 },
        DiffStats { old: oid(501), new: oid(3), insertions: 1, deletions: 2, files_changed: 1 },
    ];
    repo.walks = vec![
        Walk { from: oid(1), hidden: oid(500), commits: vec![oid(1), oid(11), oid(12), oid(2)] },
        Walk { from: oid(3), hidden: oid(501), commits: vec![oid(3), oid(404)] },
    ];
    repo
}

#[test]
fn details_hold_the_statistics_of_a_branch() {
    let repo = enriched_repository();
    let h = handle_with(Vec::new());
    let all = vec!["a".to_string(), "b".to_string(), "c".to_string()];
    let details = get_branch_listing_details(&repo, &h, all).unwrap();
    assert_eq!(
        details,
        vec![BranchListingDetails {
            name: "a".to_string(),
            lines_added: 10,
            lines_removed: 4,
            number_of_files: 3,
            number_of_commits: 4,
            authors: vec![author("ann"), author("bob")],
        }]
    );
}

#[test]
fn details_are_left_out_where_the_repository_has_no_answer() {
    let repo = enriched_repository();
    let h = handle_with(Vec::new());
    let listing = list_branches(&repo, &h, None, None).unwrap();
    assert_eq!(names(&listing), vec!["a", "b", "c"]);
    assert!(branch_details(&listing[0], &repo, oid(1000)).is_some());
    assert_eq!(branch_details(&listing[1], &repo, oid(1000)), None);
    assert_eq!(branch_details(&listing[2], &repo, oid(1000)), None);
    assert_eq!(branch_details(&listing[0], &repo, oid(1001)), None);
    let only = get_branch_listing_details(&repo, &h, vec!["c".to_string()]).unwrap();
    assert!(only.is_empty());
}
