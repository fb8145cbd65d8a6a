use conic_terracotta::flow::guest::{connect_step, ConnectEvent, ConnectPhase};
use conic_terracotta::flow::guest::profile_list_from_json;
use conic_terracotta::json::Json;
use conic_terracotta::context::{ContextConfig, Emitter};
use conic_terracotta::easytier::argument::Proto;
use conic_terracotta::event::Event;
use conic_terracotta::flow::flow_profile;
use conic_terracotta::flow::guest::{
    fingerprint, guest_game_forwards, guest_ready, guest_sync_step, is_fingerprint_echo,
    parse_profile_list, parse_server_port, ping_body, SyncOutcome,
};
use conic_terracotta::flow::host::{host_monitor_tick, host_ready, MonitorStep};
use conic_terracotta::net::{Ipv4, SocketAddress};
use conic_terracotta::profile::{Profile, ProfileKind, ProfileSnapshot};
use conic_terracotta::room::Room;
use conic_terracotta::scaffolding::PacketResponse;
use conic_terracotta::session::{SessionError, SessionStateId};

fn profile(id: &str, name: &str, kind: ProfileKind) -> Profile {
    ProfileSnapshot { machine_id: id.into(), name: name.into(), vendor: "v".into(), kind }.into_profile()
}

fn emitter() -> Emitter<(), ()> {
    Emitter::new(ContextConfig::with_data_dir("/tmp/x".to_string()))
}

#[test]
fn own_profiles_have_defaults() {
    let p = flow_profile(None, None, true);
    assert_eq!(p.get_machine_id(), "00000000000000000000000000000000");
    assert_eq!(p.get_name(), "Terracotta Anonymous Host");
    assert_eq!(p.get_kind(), ProfileKind::Host);
    assert_eq!(p.get_vendor(), conic_terracotta::VENDOR);
    let g = flow_profile(Some("ab".into()), Some("me".into()), false);
    assert_eq!(g.get_machine_id(), "ab");
    assert_eq!(g.get_name(), "me");
    assert_eq!(g.get_kind(), ProfileKind::Local);
    assert_eq!(flow_profile(None, None, false).get_name(), "Terracotta Anonymous Guest");
}

#[test]
fn fingerprint_and_server_port() {
    let f = fingerprint();
    assert_eq!(f.len(), 16);
    assert!(is_fingerprint_echo(&PacketResponse::Success { data: f.clone() }));
    assert!(!is_fingerprint_echo(&PacketResponse::Success { data: vec![0x41] }));
    assert_eq!(parse_server_port(&PacketResponse::Success { data: vec![0x63, 0xdd] }), Some(25565));
    assert_eq!(parse_server_port(&PacketResponse::Success { data: vec![1] }), None);
    assert_eq!(parse_server_port(&PacketResponse::Fail { status: 32, data: vec![0, 1] }), None);
}

#[test]
fn game_forwards_cover_both_families_and_protocols() {
    let fs = guest_game_forwards(Ipv4::new(10, 144, 144, 1), 25565, 40000);
    assert_eq!(fs.len(), 4);
    assert_eq!(fs[0].proto, Proto::Tcp);
    assert_eq!(fs[1].proto, Proto::Udp);
    assert!(matches!(fs[2].local, SocketAddress::V6 { port: 40000, .. }));
    for f in &fs {
        assert_eq!(f.remote, SocketAddress::V4 { ip: Ipv4::new(10, 144, 144, 1), port: 25565 });
    }
}

#[test]
fn ping_body_is_the_profile() {
    let p = profile("m", "n", ProfileKind::Local);
    assert_eq!(
        String::from_utf8(ping_body(&p)).unwrap(),
        r#"{"machine_id":"m","name":"n","vendor":"v"}"#
    );
}

#[test]
fn profile_list_is_sorted_and_checked() {
    let local = profile("m2", "me", ProfileKind::Local);
    let data = br#"[
        {"name":"Guest","machine_id":"m3","vendor":"v","kind":"GUEST"},
        {"name":"Host","machine_id":"m1","vendor":"v","kind":"HOST"}
    ]"#;
    let list = parse_profile_list(data, &local).expect("list");
    let ids: Vec<&str> = list.iter().map(|p| p.get_machine_id()).collect();
    assert_eq!(ids, vec!["m1", "m2", "m3"]);
    assert_eq!(list[1].get_kind(), ProfileKind::Local);

    let no_host = br#"[{"name":"G","machine_id":"m3","vendor":"v","kind":"GUEST"}]"#;
    assert!(parse_profile_list(no_host, &local).is_none());
    let two_hosts = br#"[
        {"name":"H","machine_id":"a","vendor":"v","kind":"HOST"},
        {"name":"H","machine_id":"b","vendor":"v","kind":"HOST"}
    ]"#;
    assert!(parse_profile_list(two_hosts, &local).is_none());
    let duplicate = br#"[
        {"name":"H","machine_id":"a","vendor":"v","kind":"HOST"},
        {"name":"G","machine_id":"a","vendor":"v","kind":"GUEST"}
    ]"#;
    assert!(parse_profile_list(duplicate, &local).is_none());
    let local_twice = br#"[
        {"name":"H","machine_id":"a","vendor":"v","kind":"HOST"},
        {"name":"x","machine_id":"m2","vendor":"v"},
        {"name":"y","machine_id":"m2","vendor":"v"}
    ]"#;
    assert!(parse_profile_list(local_twice, &local).is_none());
    assert!(parse_profile_list(b"nonsense", &local).is_none());
}

#[test]
fn guest_list_follows_the_host() {
    let mut e = emitter();
    e.session.state = SessionStateId::GuestOk;
    e.session.index = 5;
    e.session.profiles = vec![
        (1, profile("local", "me", ProfileKind::Local)),
        (1, profile("h", "Host", ProfileKind::Host)),
        (1, profile("gone", "G", ProfileKind::Guest)),
    ];
    let server = vec![
        profile("g2", "New", ProfileKind::Guest),
        profile("h", "Renamed", ProfileKind::Host),
        profile("local", "me", ProfileKind::Local),
    ];
    let r = guest_sync_step(&mut e, 5, &server, true, 9);
    assert!(matches!(r, SyncOutcome::Synced));
    let ids: Vec<&str> = e.session.profiles.iter().map(|p| p.1.get_machine_id()).collect();
    assert_eq!(ids, vec!["local", "h", "g2"]);
    assert_eq!(e.session.profiles[1].1.get_name(), "Renamed");
    assert_eq!(e.session.profiles[2].0, 9);
    assert_eq!(e.session.version(), 5);
    assert!(e.can_capture(5));
    assert!(matches!(e.poll_event(), Some(Event::StateChanged { version: 5, .. })));
    match e.poll_event() {
        Some(Event::PlayerJoined { profile }) => assert_eq!(profile.get_machine_id(), "g2"),
        other => panic!("unexpected {:?}", other),
    }
    match e.poll_event() {
        Some(Event::PlayerLeft { machine_id }) => assert_eq!(machine_id, "gone"),
        other => panic!("unexpected {:?}", other),
    }
    assert!(e.poll_event().is_none());

    // Nothing changes on a second round.
    let r = guest_sync_step(&mut e, 5, &server, true, 10);
    assert!(matches!(r, SyncOutcome::Synced));
    assert_eq!(e.session.version(), 5);
    assert!(e.poll_event().is_none());
}

#[test]
fn guest_sync_errors() {
    let mut e = emitter();
    e.session.index = 2;
    e.session.profiles = vec![(1, profile("h", "Host", ProfileKind::Host))];
    let server = vec![profile("h", "Host", ProfileKind::Guest)];
    let r = guest_sync_step(&mut e, 2, &server, true, 0);
    assert!(matches!(r, SyncOutcome::Failed(SessionError::ScaffoldingInvalidResponse)));
    assert_eq!(e.session.state, SessionStateId::Exception);
    assert_eq!(e.session.error, Some(SessionError::ScaffoldingInvalidResponse));
    assert_eq!(e.session.version(), 3);

    let r = guest_sync_step(&mut e, 2, &server, true, 0);
    assert!(matches!(r, SyncOutcome::Stopped));

    let mut e = emitter();
    let r = guest_sync_step(&mut e, 0, &vec![], false, 0);
    assert!(matches!(r, SyncOutcome::Failed(SessionError::GuestEasytierCrash)));
}

#[test]
fn host_watch_expires_silent_guests() {
    let mut e = emitter();
    e.session.state = SessionStateId::HostOk;
    e.session.index = 3;
    e.session.profiles = vec![
        (0, profile("h", "Host", ProfileKind::Host)),
        (5_000, profile("old", "A", ProfileKind::Guest)),
        (9_000, profile("new", "B", ProfileKind::Guest)),
    ];
    let r = host_monitor_tick(&mut e, 3, true, 2, true, 15_000);
    assert!(matches!(r, MonitorStep::Continue(0)));
    let ids: Vec<&str> = e.session.profiles.iter().map(|p| p.1.get_machine_id()).collect();
    assert_eq!(ids, vec!["h", "new"]);
    // Dropping expired guests is a read-only refresh: the version stays.
    assert_eq!(e.session.version(), 3);
    assert!(e.can_capture(3));
    assert!(matches!(e.poll_event(), Some(Event::StateChanged { version: 3, .. })));
    match e.poll_event() {
        Some(Event::PlayerLeft { machine_id }) => assert_eq!(machine_id, "old"),
        other => panic!("unexpected {:?}", other),
    }
    assert!(matches!(host_monitor_tick(&mut e, 3, false, 0, true, 15_000), MonitorStep::Continue(1)));
    assert!(e.poll_event().is_none());
    assert!(matches!(host_monitor_tick(&mut e, 3, false, 2, true, 15_000), MonitorStep::Stop));
    assert_eq!(e.session.error, Some(SessionError::PingServerRst));
}

#[test]
fn host_watch_sees_a_dead_process() {
    let mut e = emitter();
    e.session.state = SessionStateId::HostOk;
    assert!(matches!(host_monitor_tick(&mut e, 0, true, 0, false, 0), MonitorStep::Stop));
    assert_eq!(e.session.error, Some(SessionError::HostEasytierCrash));
    assert_eq!(e.session.state, SessionStateId::Exception);
}

#[test]
fn ready_steps_announce() {
    let mut e = emitter();
    let room = Room::from_value(3);
    let v = host_ready(&mut e, 0, &room, (), 25565, profile("h", "H", ProfileKind::Host), 1);
    assert_eq!(v, Some(1));
    assert_eq!(e.session.state, SessionStateId::HostOk);
    assert_eq!(e.session.port, Some(25565));
    assert!(matches!(e.poll_event(), Some(Event::StateChanged { state: SessionStateId::HostOk, version: 1 })));
    match e.poll_event() {
        Some(Event::HostReady { room_code, port }) => {
            assert_eq!(room_code, room.code);
            assert_eq!(port, 25565);
        }
        other => panic!("unexpected {:?}", other),
    }
    assert_eq!(host_ready(&mut e, 0, &room, (), 1, profile("h", "H", ProfileKind::Host), 1), None);

    let mut g = emitter();
    let v = guest_ready(&mut g, 0, (), 40000, profile("l", "L", ProfileKind::Local), 1);
    assert_eq!(v, Some(1));
    let _ = g.poll_event();
    match g.poll_event() {
        Some(Event::GuestReady { url }) => assert_eq!(url, "127.0.0.1:40000"),
        other => panic!("unexpected {:?}", other),
    }

    // The event always names the port, the game's default one too.
    let mut g = emitter();
    assert_eq!(guest_ready(&mut g, 0, (), 25565, profile("l", "L", ProfileKind::Local), 1), Some(1));
    let _ = g.poll_event();
    match g.poll_event() {
        Some(Event::GuestReady { url }) => assert_eq!(url, "127.0.0.1:25565"),
        other => panic!("unexpected {:?}", other),
    }
    assert_eq!(conic_terracotta::flow::guest::ready_url(25565), "127.0.0.1:25565");
}

fn listed(name: &str, id: &str, kind: &str) -> conic_terracotta::json::Json {
    Json::Object(vec![
        ("name".to_string(), Json::Str(name.to_string())),
        ("machine_id".to_string(), Json::Str(id.to_string())),
        ("vendor".to_string(), Json::Str("v".to_string())),
        ("kind".to_string(), Json::Str(kind.to_string())),
    ])
}

#[test]
fn profile_list_from_a_decoded_value() {
    let local = profile("m2", "me", ProfileKind::Local);
    let value = Json::Array(vec![listed("Guest", "m3", "GUEST"), listed("Host", "m1", "HOST")]);
    let list = profile_list_from_json(&value, &local).expect("list");
    let ids: Vec<&str> = list.iter().map(|p| p.get_machine_id()).collect();
    assert_eq!(ids, vec!["m1", "m2", "m3"]);
    assert_eq!(list[0].get_kind(), ProfileKind::Host);
    assert!(profile_list_from_json(&Json::Array(vec![listed("G", "m3", "GUEST")]), &local).is_none());
    assert!(profile_list_from_json(&Json::Null, &local).is_none());
}

#[test]
fn connect_phase_steps() {
    let looked = |alive, found| ConnectEvent::Looked { alive, found };
    assert_eq!(connect_step(ConnectPhase::Searching(0), looked(true, false)), ConnectPhase::Searching(1));
    assert_eq!(
        connect_step(ConnectPhase::Searching(4), looked(true, false)),
        ConnectPhase::Failed(SessionError::PingHostFail)
    );
    assert_eq!(
        connect_step(ConnectPhase::Searching(2), looked(false, true)),
        ConnectPhase::Failed(SessionError::GuestEasytierCrash)
    );
    assert_eq!(connect_step(ConnectPhase::Searching(2), looked(true, true)), ConnectPhase::Forwarding);
    assert_eq!(connect_step(ConnectPhase::Searching(2), ConnectEvent::Lost), ConnectPhase::Abandoned);
    assert_eq!(connect_step(ConnectPhase::Forwarding, ConnectEvent::Forwarded(true)), ConnectPhase::Verifying(0));
    assert_eq!(
        connect_step(ConnectPhase::Forwarding, ConnectEvent::Forwarded(false)),
        ConnectPhase::Failed(SessionError::GuestEasytierCrash)
    );
    let pinged = |verified, alive| ConnectEvent::Pinged { verified, alive };
    assert_eq!(connect_step(ConnectPhase::Verifying(3), pinged(true, true)), ConnectPhase::Connected);
    assert_eq!(connect_step(ConnectPhase::Verifying(3), pinged(false, true)), ConnectPhase::Verifying(4));
    assert_eq!(
        connect_step(ConnectPhase::Verifying(59), pinged(false, true)),
        ConnectPhase::Failed(SessionError::PingHostFail)
    );
    assert_eq!(
        connect_step(ConnectPhase::Verifying(3), pinged(false, false)),
        ConnectPhase::Failed(SessionError::GuestEasytierCrash)
    );
    assert_eq!(connect_step(ConnectPhase::Forwarding, pinged(true, true)), ConnectPhase::Forwarding);
}
