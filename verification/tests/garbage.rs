use virtual_branches::commit::{Author, Commit};
use virtual_branches::oid::Oid;
use virtual_branches::reference::RemoteRefname;
use virtual_branches::repository::{MergeBase, Repository};
use virtual_branches::stack::{Stack, StackId};
use virtual_branches::state::{StoreError, VirtualBranches, VirtualBranchesHandle};
use virtual_branches::target::Target;

fn oid(n: u128) -> Oid {
    Oid { high: 0, low: n }
}

fn stack(id: u128, head: u128, in_workspace: bool, mark: Option<&str>) -> Stack {
    Stack {
        id: StackId(id),
        name: format!("branch {id}"),
        head: oid(head),
        upstream: None,
        source_refname: None,
        in_workspace,
        order: 0,
        updated_timestamp_ms: 0,
        not_in_workspace_wip_change_id: mark.map(|m| m.to_string()),
    }
}

fn target() -> Target {
    Target {
        branch: RemoteRefname::new("origin", "master"),
        remote_url: "https://example.com/repo.git".to_string(),
        sha: oid(1000),
    }
}

fn commit(id: u128) -> Commit {
    Commit { id: oid(id), time_seconds: 0, author: Author { name: None, email: None } }
}

fn ids(handle: &VirtualBranchesHandle) -> Vec<u128> {
    handle.list_all_branches().iter().map(|b| b.id.0).collect()
}

fn repository() -> Repository {
    let mut repo = Repository::new();
    repo.commits = vec![commit(10), commit(20), commit(30)];
    repo.merge_bases = vec![
        MergeBase { one: oid(10), two: oid(1000), base: oid(10) },
        MergeBase { one: oid(20), two: oid(1000), base: oid(5) },
        MergeBase { one: oid(99), two: oid(1000), base: oid(99) },
        MergeBase { one: oid(1000), two: oid(30), base: oid(30) },
    ];
    repo
}

fn handle_with(branches: Vec<Stack>) -> VirtualBranchesHandle {
    VirtualBranchesHandle::new(VirtualBranches::from_parts(Some(target()), Vec::new(), branches))
}

#[test]
fn garbage_collection_removes_merged_and_broken_branches() {
    let mut h = handle_with(vec![
        stack(1, 10, false, None),
        stack(2, 20, false, None),
        stack(3, 77, false, None),
        stack(4, 10, true, None),
        stack(5, 99, false, None),
    ]);
    let removed = h.garbage_collect(&repository()).unwrap();
    assert_eq!(removed, vec![StackId(1), StackId(3), StackId(5)]);
    assert_eq!(ids(&h), vec![2, 4]);
    assert_eq!(h.get_default_target(), Ok(target()));
}

#[test]
fn garbage_collection_keeps_work_in_progress() {
    let mut h = handle_with(vec![
        stack(1, 10, false, Some("wip")),
        stack(2, 77, false, Some("wip")),
        stack(3, 30, false, Some("")),
    ]);
    let before = h.list_all_branches();
    let removed = h.garbage_collect(&repository()).unwrap();
    assert!(removed.is_empty());
    assert_eq!(h.list_all_branches(), before);
}

#[test]
fn garbage_collection_keeps_the_workspace() {
    let mut h = handle_with(vec![stack(1, 10, true, None), stack(2, 77, true, None)]);
    let removed = h.garbage_collect(&repository()).unwrap();
    assert!(removed.is_empty());
    assert_eq!(ids(&h), vec![1, 2]);
}

#[test]
fn garbage_collection_fails_without_a_default_target() {
    let mut doc = VirtualBranchesHandle::new(VirtualBranches::new());
    doc.set_branch(stack(1, 10, false, None));
    assert_eq!(doc.garbage_collect(&repository()), Err(StoreError::DefaultTargetNotFound));
    assert_eq!(ids(&doc), vec![1]);
}

#[test]
fn garbage_collection_fails_without_a_merge_base_and_removes_nothing() {
    let mut h = handle_with(vec![
        stack(1, 10, false, None),
        stack(2, 30, false, None),
        stack(3, 77, false, None),
    ]);
    assert_eq!(h.garbage_collect(&repository()), Err(StoreError::MergeBaseNotFound(StackId(2))));
    assert_eq!(ids(&h), vec![1, 2, 3]);
}

#[test]
fn garbage_collection_of_an_empty_document() {
    let mut h = handle_with(Vec::new());
    assert_eq!(h.garbage_collect(&repository()), Ok(Vec::new()));
    assert!(ids(&h).is_empty());
}
