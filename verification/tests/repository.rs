use virtual_branches::commit::{Author, Commit};
use virtual_branches::oid::Oid;
use virtual_branches::reference::{Refname, RemoteRefname};
use virtual_branches::repository::{DiffStats, MergeBase, Repository, Walk};
use virtual_branches::stack::{Stack, StackId};
use virtual_branches::target::Target;

fn oid(n: u128) -> Oid {
    Oid { high: 0, low: n }
}

fn commit(id: u128, by: &str) -> Commit {
    Commit {
        id: oid(id),
        time_seconds: 1,
        author: Author { name: Some(by.to_string()), email: None },
    }
}

#[test]
fn nothing_is_found_in_a_repository_of_which_nothing_was_read() {
    let repo = Repository::new();
    assert!(repo.find_commit(oid(1)).is_none());
    assert_eq!(repo.merge_base(oid(1), oid(2)), None);
    assert_eq!(repo.diff(oid(1), oid(2)), None);
    assert!(repo.walk(oid(1), oid(2)).is_none());
}

#[test]
fn the_first_answer_is_taken() {
    let mut repo = Repository::new();
    repo.commits = vec![commit(1, "first"), commit(2, "other"), commit(1, "second")];
    repo.merge_bases = vec![
        MergeBase { one: oid(1), two: oid(2), base: oid(7) },
        MergeBase { one: oid(1), two: oid(2), base: oid(8) },
    ];
    repo.diffs = vec![
        DiffStats { old: oid(1), new: oid(2), insertions: 1, deletions: 2, files_changed: 3 },
        DiffStats { old: oid(1), new: oid(2), insertions: 4, deletions: 5, files_changed: 6 },
    ];
    repo.walks = vec![
        Walk { from: oid(1), hidden: oid(2), commits: vec![oid(1)] },
        Walk { from: oid(1), hidden: oid(2), commits: vec![] },
    ];
    assert_eq!(repo.find_commit(oid(1)).unwrap().author.name, Some("first".to_string()));
    assert_eq!(repo.find_commit(oid(2)).unwrap().author.name, Some("other".to_string()));
    assert_eq!(repo.merge_base(oid(1), oid(2)), Some(oid(7)));
    assert_eq!(repo.diff(oid(1), oid(2)).unwrap().insertions, 1);
    assert_eq!(repo.walk(oid(1), oid(2)), Some(&vec![oid(1)]));
}

#[test]
fn answers_are_kept_for_two_commits_in_their_order() {
    let mut repo = Repository::new();
    repo.merge_bases = vec![MergeBase { one: oid(1), two: oid(2), base: oid(7) }];
    repo.diffs =
        vec![DiffStats { old: oid(1), new: oid(2), insertions: 1, deletions: 2, files_changed: 3 }];
    repo.walks = vec![Walk { from: oid(1), hidden: oid(2), commits: vec![oid(1)] }];
    assert_eq!(repo.merge_base(oid(2), oid(1)), None);
    assert_eq!(repo.diff(oid(2), oid(1)), None);
    assert!(repo.walk(oid(2), oid(1)).is_none());
    assert!(repo.find_commit(Oid { high: 1, low: 1 }).is_none());
}

#[test]
fn values_are_equal_where_every_field_is() {
    let a = Author { name: Some("a".to_string()), email: None };
    assert_eq!(a, a.clone());
    assert_ne!(a, Author { name: Some("a".to_string()), email: Some("".to_string()) });
    assert_ne!(a, Author { name: None, email: None });

    let r = RemoteRefname::new("origin", "main");
    assert_eq!(r, r.clone());
    assert_ne!(r, RemoteRefname::new("origin", "mai"));
    assert_ne!(Refname::Local("x".to_string()), Refname::Virtual("x".to_string()));
    assert_ne!(Refname::Local("x".to_string()), Refname::Other("refs/heads/x".to_string()));
    assert_eq!(Refname::Remote(r.clone()), Refname::Remote(r.clone()));

    let t = Target { branch: r, remote_url: "url".to_string(), sha: oid(1) };
    assert_eq!(t, t.clone());
    let mut u = t.clone();
    u.sha = Oid { high: 1, low: 1 };
    assert_ne!(t, u);

    let s = Stack {
        id: StackId(1),
        name: "n".to_string(),
        head: oid(1),
        upstream: None,
        source_refname: None,
        in_workspace: false,
        order: 0,
        updated_timestamp_ms: 0,
        not_in_workspace_wip_change_id: None,
    };
    assert_eq!(s, s.clone());
    let mut changed = s.clone();
    changed.updated_timestamp_ms = 1;
    assert_ne!(s, changed);
    let mut marked = s.clone();
    marked.not_in_workspace_wip_change_id = Some("x".to_string());
    assert_ne!(s, marked);
    let mut sourced = s.clone();
    sourced.source_refname = Some(Refname::Local("x".to_string()));
    assert_ne!(s, sourced);
    assert_eq!(s.head(), oid(1));
}
