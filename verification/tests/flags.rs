use pidof_rs::utils::is_superuser;
use pidof_rs::{CheckRoot, CheckScripts, CheckThreads, CheckWorkers};

#[test]
fn flags_come_from_booleans() {
    assert_eq!(CheckScripts::from(true), CheckScripts::Yes);
    assert_eq!(CheckScripts::from(false), CheckScripts::No);
    assert_eq!(CheckThreads::from(true), CheckThreads::Yes);
    assert_eq!(CheckThreads::from(false), CheckThreads::No);
    assert_eq!(CheckWorkers::from(true), CheckWorkers::Yes);
    assert_eq!(CheckWorkers::from(false), CheckWorkers::No);
}

#[test]
fn the_root_check_needs_request_privilege_and_a_root() {
    let root = || Some("/".to_owned());

    assert_eq!(CheckRoot::decide(true, true, root()), CheckRoot::Yes("/".to_owned()));
    assert_eq!(CheckRoot::decide(true, true, None), CheckRoot::No);
    assert_eq!(CheckRoot::decide(true, false, root()), CheckRoot::No);
    assert_eq!(CheckRoot::decide(false, true, root()), CheckRoot::No);
    assert_eq!(CheckRoot::decide(false, false, None), CheckRoot::No);
}

#[test]
fn the_root_check_for_the_caller_is_off_unless_requested_and_resolved() {
    assert_eq!(CheckRoot::for_caller(false, Some("/".to_owned())), CheckRoot::No);
    assert_eq!(CheckRoot::for_caller(true, None), CheckRoot::No);

    let policy = CheckRoot::for_caller(true, Some("/".to_owned()));
    assert!(policy == CheckRoot::No || policy == CheckRoot::Yes("/".to_owned()));
}

#[test]
fn the_root_check_is_enabled_with_a_root() {
    assert!(CheckRoot::Yes("/".to_owned()).is_enabled());
    assert!(!CheckRoot::No.is_enabled());
}

#[test]
fn the_superuser_is_the_user_zero() {
    assert!(is_superuser(0));
    assert!(!is_superuser(1));
    assert!(!is_superuser(1000));
    assert!(!is_superuser(u32::MAX));
}
