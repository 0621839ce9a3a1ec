use agentd::error::{ErrorKind, SandboxError};
use agentd::guard::{check_access, combine, Access, ByteBudget, PathGuard};
use agentd::policy::Pattern;
use agentd::vpath::VPath;

fn guard(refuse: &[&str], hide: &[&str]) -> PathGuard {
    let refuse: Vec<Pattern> = refuse.iter().map(|pattern| Pattern::new(pattern)).collect();
    let hide: Vec<Pattern> = hide.iter().map(|pattern| Pattern::new(pattern)).collect();
    PathGuard::compile(&refuse, &hide).expect("valid globs")
}

#[test]
fn patterns_match_anywhere_in_the_tree() {
    let guard = guard(&[".env", "*.pem"], &[".git/**"]);

    assert_eq!(guard.access(&VPath::new("/work/.env").expect("valid")), Access::Refused);
    assert_eq!(guard.access(&VPath::new("/work/sub/.env").expect("valid")), Access::Refused);
    assert_eq!(guard.access(&VPath::new("/work/key.pem").expect("valid")), Access::Refused);
    assert_eq!(
        guard.access(&VPath::new("/work/.git/objects/ab").expect("valid")),
        Access::Hidden
    );
    assert_eq!(
        guard.access(&VPath::new("/work/src/main.rs").expect("valid")),
        Access::Allowed
    );
}

#[test]
fn deny_wins_over_hide_along_the_whole_chain() {
    let guard = guard(&[".env"], &["**"]);

    // The whole tree is hidden, but a refused path stays refused.
    assert_eq!(guard.access(&VPath::new("/a/.env").expect("valid")), Access::Refused);
    assert_eq!(guard.access(&VPath::new("/a/b").expect("valid")), Access::Hidden);

    // A hidden ancestor hides descendants even when they match nothing.
    assert_eq!(guard.access(&VPath::new("/hidden/child").expect("valid")), Access::Hidden);
}

#[test]
fn anchors_match_the_mount_root() {
    let guard = guard(&["/.env"], &[]);

    assert_eq!(guard.access(&VPath::new("/.env").expect("valid")), Access::Refused);
    assert_eq!(guard.access(&VPath::new("/sub/.env").expect("valid")), Access::Allowed);
}

#[test]
fn invalid_patterns_fail_closed() {
    let patterns = vec![Pattern::new("[unclosed")];
    let error = PathGuard::compile(&patterns, &[]).err().expect("an invalid glob is rejected");

    assert!(matches!(error, SandboxError::InvalidPolicy(_)));
}

#[test]
fn byte_budget_enforces_both_caps() {
    let mut budget = ByteBudget::new(Some(10), Some(20));

    budget.reserve(8).expect("within the file cap");
    budget.reserve(8).expect("within the total cap");
    let file_cap_error = budget.reserve(11).expect_err("over the file cap");
    assert_eq!(file_cap_error.kind(), ErrorKind::FileTooLarge);
    let total_cap_error = budget.reserve(8).expect_err("over the total cap");
    assert_eq!(total_cap_error.kind(), ErrorKind::StorageFull);

    budget.release(8);
    budget.reserve(10).expect("fits after releasing");
}

#[test]
fn a_hidden_ancestor_hides_what_matches_nothing_itself() {
    let guard = guard(&[], &["secret"]);
    let below = VPath::new("/secret/deep/file").expect("valid");

    assert_eq!(guard.access(&below), Access::Hidden);
    assert_eq!(guard.access_no_ancestors(&below), Access::Allowed);
}

#[test]
fn access_decides_the_error() {
    let guard = guard(&[".env"], &[".git"]);
    let denied = check_access(&guard, &VPath::new("/.env").expect("valid"));
    assert_eq!(denied.expect_err("refused").kind(), ErrorKind::PermissionDenied);
    let hidden = check_access(&guard, &VPath::new("/.git").expect("valid"));
    assert_eq!(hidden.expect_err("hidden").kind(), ErrorKind::NotFound);
    assert!(check_access(&guard, &VPath::new("/src").expect("valid")).is_ok());

    assert!(Access::Hidden.is_hidden());
    assert!(!Access::Refused.is_hidden());
    assert_eq!(Access::Refused.to_error().kind(), ErrorKind::PermissionDenied);
    assert_eq!(
        combine(&vec![Access::Allowed, Access::Hidden, Access::Refused]),
        Access::Refused
    );
}

#[test]
fn an_empty_guard_allows_everything() {
    let guard = guard(&[], &[]);
    assert_eq!(guard.access(&VPath::new("/any/where").expect("valid")), Access::Allowed);
    assert_eq!(guard.access(&VPath::root()), Access::Allowed);
}

#[test]
fn a_budget_without_caps_is_boundless() {
    let mut budget = ByteBudget::new(None, None);
    budget.reserve(u64::MAX).expect("no cap");
    budget.reserve(1).expect("nothing is counted without a total cap");

    let mut full = ByteBudget::new(None, Some(u64::MAX));
    full.reserve(u64::MAX).expect("exactly the cap");
    let over = full.reserve(1).expect_err("more than can be counted");
    assert_eq!(over.kind(), ErrorKind::StorageFull);
}
