use virtual_branches::identity::{reference_given_name, should_list_git_branch, stack_identity};
use virtual_branches::oid::Oid;
use virtual_branches::reference::{normalize_branch_name, NameError, Refname, RemoteRefname};
use virtual_branches::repository::ReferenceBranch;
use virtual_branches::stack::{Stack, StackId};

fn reference(name: &str) -> ReferenceBranch {
    ReferenceBranch { name: name.to_string(), head: None, remote: None }
}

fn remotes(names: &[&str]) -> Vec<String> {
    names.iter().map(|n| n.to_string()).collect()
}

fn named(name: &str) -> Stack {
    Stack {
        id: StackId(1),
        name: name.to_string(),
        head: Oid { high: 0, low: 1 },
        upstream: None,
        source_refname: None,
        in_workspace: true,
        order: 0,
        updated_timestamp_ms: 0,
        not_in_workspace_wip_change_id: None,
    }
}

#[test]
fn normalize_keeps_a_plain_name() {
    assert_eq!(normalize_branch_name("feature/branch"), Ok("feature/branch".to_string()));
    assert_eq!(normalize_branch_name("foo#branch"), Ok("foo#branch".to_string()));
    assert_eq!(normalize_branch_name("foo!branch"), Ok("foo!branch".to_string()));
}

#[test]
fn normalize_rewrites_spaces_and_symbols() {
    assert_eq!(normalize_branch_name("my branch name"), Ok("my-branch-name".to_string()));
    assert_eq!(normalize_branch_name("a \t\n b"), Ok("a-b".to_string()));
    assert_eq!(normalize_branch_name("a|b+c^d~e<f>g\\h:i*j"), Ok("a-b-c-d-e-f-g-h-i-j".to_string()));
    assert_eq!(normalize_branch_name("a\u{a0}b\u{2003}c"), Ok("a-b-c".to_string()));
    assert_eq!(normalize_branch_name("a :b"), Ok("a--b".to_string()));
}

#[test]
fn normalize_trims_both_ends() {
    assert_eq!(normalize_branch_name("  hello  "), Ok("hello".to_string()));
    assert_eq!(normalize_branch_name("-/.feature./-"), Ok("feature".to_string()));
    assert_eq!(normalize_branch_name("..a.b.."), Ok("a.b".to_string()));
}

#[test]
fn normalize_refuses_what_reduces_to_nothing() {
    assert_eq!(normalize_branch_name(""), Err(NameError::Empty));
    assert_eq!(normalize_branch_name("   "), Err(NameError::Empty));
    assert_eq!(normalize_branch_name("-/./-"), Err(NameError::Empty));
    assert_eq!(normalize_branch_name("***"), Err(NameError::Empty));
}

#[test]
fn normalize_refuses_what_no_reference_name_may_hold() {
    assert_eq!(normalize_branch_name("a..b"), Err(NameError::Forbidden));
    assert_eq!(normalize_branch_name("a//b"), Err(NameError::Forbidden));
    assert_eq!(normalize_branch_name("a@{b"), Err(NameError::Forbidden));
    assert_eq!(normalize_branch_name("a/.b"), Err(NameError::Forbidden));
    assert_eq!(normalize_branch_name("a?b"), Err(NameError::Forbidden));
    assert_eq!(normalize_branch_name("a[b"), Err(NameError::Forbidden));
    assert_eq!(normalize_branch_name("a\u{1}b"), Err(NameError::Forbidden));
    assert_eq!(normalize_branch_name("a\u{7f}b"), Err(NameError::Forbidden));
    assert_eq!(normalize_branch_name("branch.lock"), Err(NameError::Forbidden));
    assert_eq!(normalize_branch_name("@"), Err(NameError::Forbidden));
    assert_eq!(normalize_branch_name("a@b"), Ok("a@b".to_string()));
    assert_eq!(normalize_branch_name("lock"), Ok("lock".to_string()));
}

#[test]
fn technical_identities_are_not_listed() {
    assert!(!should_list_git_branch("gitbutler/integration"));
    assert!(!should_list_git_branch("gitbutler/target"));
    assert!(!should_list_git_branch("gitbutler/oplog"));
    assert!(!should_list_git_branch("HEAD"));
    assert!(should_list_git_branch("head"));
    assert!(should_list_git_branch("gitbutler/other"));
    assert!(should_list_git_branch("main"));
    assert!(should_list_git_branch(""));
}

#[test]
fn given_name_strips_the_remote() {
    let known = remotes(&["origin", "upstream"]);
    assert_eq!(
        reference_given_name(&reference("origin/feature"), false, &known),
        Some("feature".to_string())
    );
    assert_eq!(
        reference_given_name(&reference("upstream/a/b"), false, &known),
        Some("a/b".to_string())
    );
    assert_eq!(
        reference_given_name(&reference("origin/feature"), true, &known),
        Some("feature".to_string())
    );
}

#[test]
fn given_name_of_a_branch_that_follows_no_remote() {
    let known = remotes(&["origin"]);
    assert_eq!(reference_given_name(&reference("feature"), true, &known), Some("feature".to_string()));
    assert_eq!(reference_given_name(&reference("feature"), false, &known), None);
    assert_eq!(reference_given_name(&reference("origins/x"), false, &known), None);
    assert_eq!(
        reference_given_name(&reference("origins/x"), true, &known),
        Some("origins/x".to_string())
    );
    assert_eq!(reference_given_name(&reference("origin"), false, &known), None);
    assert_eq!(reference_given_name(&reference("origin/"), false, &known), Some("".to_string()));
    assert_eq!(reference_given_name(&reference("x"), false, &Vec::new()), None);
}

#[test]
fn given_name_strips_the_longest_remote() {
    let known = remotes(&["team", "team/fork", "te"]);
    assert_eq!(
        reference_given_name(&reference("team/fork/feature"), false, &known),
        Some("feature".to_string())
    );
    assert_eq!(
        reference_given_name(&reference("team/other"), false, &known),
        Some("other".to_string())
    );
    let reversed = remotes(&["team/fork", "team"]);
    assert_eq!(
        reference_given_name(&reference("team/fork/feature"), false, &reversed),
        Some("feature".to_string())
    );
}

#[test]
fn identity_of_a_virtual_branch_prefers_its_source() {
    let mut b = named("My Feature");
    assert_eq!(stack_identity(&b), Some("My-Feature".to_string()));
    b.upstream = Some(RemoteRefname::new("origin", "pushed"));
    assert_eq!(stack_identity(&b), Some("pushed".to_string()));
    b.source_refname = Some(Refname::Local("source".to_string()));
    assert_eq!(stack_identity(&b), Some("source".to_string()));
    b.source_refname = Some(Refname::Other("refs/tags/v1".to_string()));
    assert_eq!(stack_identity(&b), Some("pushed".to_string()));
    b.source_refname = Some(Refname::Remote(RemoteRefname::new("origin", "there")));
    assert_eq!(stack_identity(&b), Some("there".to_string()));
    b.source_refname = Some(Refname::Virtual("lane".to_string()));
    assert_eq!(stack_identity(&b), Some("lane".to_string()));
}

#[test]
fn identity_of_a_virtual_branch_fails_with_its_name() {
    let mut b = named("   ");
    assert_eq!(stack_identity(&b), None);
    b.name = "a..b".to_string();
    assert_eq!(stack_identity(&b), None);
    b.upstream = Some(RemoteRefname::new("origin", "pushed"));
    assert_eq!(stack_identity(&b), Some("pushed".to_string()));
}

#[test]
fn reference_names_as_text() {
    assert_eq!(Refname::Local("a/b".to_string()).text(), "refs/heads/a/b");
    assert_eq!(Refname::Virtual("lane".to_string()).text(), "refs/gitbutler/lane");
    assert_eq!(Refname::Other("refs/tags/v1".to_string()).text(), "refs/tags/v1");
    let remote = RemoteRefname::new("origin", "main");
    assert_eq!(remote.text(), "refs/remotes/origin/main");
    assert_eq!(remote.remote(), "origin");
    assert_eq!(remote.branch(), "main");
    assert_eq!(Refname::Remote(remote).text(), "refs/remotes/origin/main");
    assert_eq!(Refname::Other("x".to_string()).branch(), None);
    assert_eq!(Refname::Local("x".to_string()).branch(), Some("x"));
}

#[test]
fn reference_names_are_read_from_text() {
    assert_eq!(Refname::from_text("refs/heads/a/b"), Refname::Local("a/b".to_string()));
    assert_eq!(Refname::from_text("refs/heads/"), Refname::Local("".to_string()));
    assert_eq!(Refname::from_text("refs/gitbutler/lane"), Refname::Virtual("lane".to_string()));
    assert_eq!(
        Refname::from_text("refs/remotes/origin/a/b"),
        Refname::Remote(RemoteRefname::new("origin", "a/b"))
    );
    assert_eq!(
        Refname::from_text("refs/remotes/origin/"),
        Refname::Remote(RemoteRefname::new("origin", ""))
    );
    assert_eq!(
        Refname::from_text("refs/remotes/origin"),
        Refname::Other("refs/remotes/origin".to_string())
    );
    assert_eq!(Refname::from_text("refs/tags/v1"), Refname::Other("refs/tags/v1".to_string()));
    assert_eq!(Refname::from_text("HEAD"), Refname::Other("HEAD".to_string()));
    assert_eq!(Refname::from_text("refs/heads"), Refname::Other("refs/heads".to_string()));
    assert_eq!(Refname::from_text(""), Refname::Other("".to_string()));
}

#[test]
fn remote_reference_names_are_read_from_text() {
    assert_eq!(
        RemoteRefname::from_text("refs/remotes/up/stream/x"),
        Some(RemoteRefname::new("up", "stream/x"))
    );
    assert_eq!(RemoteRefname::from_text("refs/remotes//x"), Some(RemoteRefname::new("", "x")));
    assert_eq!(RemoteRefname::from_text("refs/remotes/origin"), None);
    assert_eq!(RemoteRefname::from_text("refs/heads/origin/x"), None);
    assert_eq!(RemoteRefname::from_text("refs/remotes"), None);
}

#[test]
fn a_reference_name_that_is_read_is_written_as_it_was() {
    for text in [
        "refs/heads/main",
        "refs/remotes/origin/main",
        "refs/remotes/origin",
        "refs/gitbutler/lane",
        "refs/tags/v1",
        "HEAD",
        "",
    ] {
        assert_eq!(Refname::from_text(text).text(), text);
    }
}
