use conic_terracotta::session::{Session, SessionError, SessionStateId};

#[test]
fn version_token_semantics() {
    let mut s = Session::<(), ()>::waiting();
    assert!(s.can_capture(s.token()));

    s.commit();
    assert!(!s.can_capture(s.token() - 1));

    let token = s.token();
    s.commit_shared();
    assert!(s.can_capture(token));

    s.reset_to_waiting();
    assert!(!s.can_capture(token));
}

#[test]
fn reset_keeps_index_monotonic() {
    let mut s = Session::<(), ()>::waiting();
    let before = s.version();
    s.reset_to_waiting();
    assert!(s.version() > before);
    assert_eq!(s.state(), SessionStateId::Waiting);
}

#[test]
fn shared_commits_keep_every_token() {
    let mut s = Session::<(), ()>::waiting();
    s.commit();
    let token = s.token();
    s.commit_shared();
    s.commit_shared();
    assert_eq!(s.version(), 1);
    assert!(s.can_capture(token));
    assert!(!s.can_capture(token - 1));
    s.commit();
    assert!(!s.can_capture(token));
    assert!(s.can_capture(s.token()));
}

#[test]
fn state_and_error_numbers() {
    assert_eq!(SessionStateId::Waiting.id(), 0);
    assert_eq!(SessionStateId::HostOk.id(), 3);
    assert_eq!(SessionStateId::Exception.id(), 7);
    assert_eq!(SessionError::PingHostFail.code(), 0);
    assert_eq!(SessionError::ScaffoldingInvalidResponse.code(), 5);
}

#[test]
fn tokens_along_a_run_of_commits() {
    // plain, shared, shared, plain, shared: two plain commits, so version 2.
    let mut s = Session::<(), ()>::waiting();
    assert!(s.can_capture(0));
    s.commit();
    s.commit_shared();
    s.commit_shared();
    assert_eq!(s.version(), 1);
    assert!(s.can_capture(1) && !s.can_capture(0));
    s.reset_to_waiting();
    assert_eq!(s.commit_shared(), 2);
    assert_eq!(s.version(), 2);
    for t in 0..2u64 {
        assert!(!s.can_capture(t));
    }
    for t in 2..10u64 {
        assert!(s.can_capture(t));
    }
    assert!(s.can_capture(s.token()));
}
