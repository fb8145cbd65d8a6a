use conic_terracotta::session::{Session, SessionStateId};
use conic_terracotta::snapshot::{guest_url, Snapshot};

#[test]
fn waiting_snapshot() {
    let session = Session::<(), ()>::waiting();
    let snapshot = Snapshot::from(&session);
    assert_eq!(snapshot.state, SessionStateId::Waiting);
    assert!(snapshot.room_code.is_empty());
}

#[test]
fn guest_ok_url() {
    assert_eq!(guest_url(Some(25565)), "127.0.0.1");
    assert_eq!(guest_url(Some(54321)), "127.0.0.1:54321");
}
