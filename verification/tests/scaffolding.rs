use conic_terracotta::json::Json;
use conic_terracotta::scaffolding::protocols::player_ping_from_json;
use conic_terracotta::context::{ContextConfig, Emitter};
use conic_terracotta::event::Event;
use conic_terracotta::profile::{ProfileKind, ProfileSnapshot};
use conic_terracotta::scaffolding::protocols::dispatch;
use conic_terracotta::scaffolding::server::{
    decode_request, decode_response, encode_request, encode_response, parse_kind, respond,
};
use conic_terracotta::scaffolding::{HandlerError, PacketResponse};
use conic_terracotta::session::SessionStateId;

fn host(port: u16) -> Emitter<(), ()> {
    let mut e: Emitter<(), ()> = Emitter::new(ContextConfig::with_data_dir("/tmp/x".to_string()));
    e.session.state = SessionStateId::HostOk;
    e.session.port = Some(port);
    e.session.profiles = vec![(
        0,
        ProfileSnapshot {
            machine_id: "host-id".into(),
            name: "Host".into(),
            vendor: "v".into(),
            kind: ProfileKind::Host,
        }
        .into_profile(),
    )];
    e
}

#[test]
fn packet_response_constructors() {
    assert_eq!(PacketResponse::ok(vec![1, 2]), Ok(PacketResponse::Success { data: vec![1, 2] }));
    assert_eq!(
        PacketResponse::fail(32, vec![]),
        Ok(PacketResponse::Fail { status: 32, data: vec![] })
    );
}

#[test]
fn ping_echoes_the_body() {
    let mut e = host(25565);
    let r = dispatch(&mut e, "c", "ping", &[1, 2, 3], 0);
    assert_eq!(r, Ok(PacketResponse::Success { data: vec![1, 2, 3] }));
}

#[test]
fn protocols_lists_the_handlers() {
    let mut e = host(25565);
    let r = dispatch(&mut e, "c", "protocols", &[], 0);
    assert_eq!(
        r,
        Ok(PacketResponse::Success {
            data: b"c:ping\0c:protocols\0c:server_port\0c:player_ping\0c:player_profiles_list".to_vec()
        })
    );
}

#[test]
fn server_port_of_a_running_host() {
    let mut e = host(0x1234);
    assert_eq!(
        dispatch(&mut e, "c", "server_port", &[], 0),
        Ok(PacketResponse::Success { data: vec![0x12, 0x34] })
    );
    e.session.state = SessionStateId::HostStarting;
    assert_eq!(
        dispatch(&mut e, "c", "server_port", &[], 0),
        Ok(PacketResponse::Fail { status: 32, data: vec![] })
    );
}

#[test]
fn unknown_request_is_answered_255() {
    let mut e = host(1);
    assert_eq!(
        dispatch(&mut e, "x", "ping", &[], 0),
        Ok(PacketResponse::Fail {
            status: 255,
            data: b"Requested protocol hasn't been implemented.".to_vec()
        })
    );
}

#[test]
fn player_ping_joins_renames_and_refuses_the_host() {
    let mut e = host(1);
    let body = br#"{"name":"Guest","machine_id":"g1","vendor":"v"}"#;
    assert_eq!(dispatch(&mut e, "c", "player_ping", body, 100), Ok(PacketResponse::Success { data: vec![] }));
    assert_eq!(e.session.profiles.len(), 2);
    assert_eq!(e.session.profiles[1].0, 100);
    assert_eq!(e.session.profiles[1].1.get_kind(), ProfileKind::Guest);
    assert_eq!(e.session.version(), 0);
    assert!(matches!(e.poll_event(), Some(Event::StateChanged { state: SessionStateId::HostOk, version: 0 })));
    match e.poll_event() {
        Some(Event::PlayerJoined { profile }) => assert_eq!(profile.get_machine_id(), "g1"),
        other => panic!("unexpected {:?}", other),
    }

    // Seen again under the same name: only the time moves.
    assert!(dispatch(&mut e, "c", "player_ping", body, 200).is_ok());
    assert_eq!(e.session.profiles[1].0, 200);
    assert_eq!(e.session.version(), 0);
    assert!(e.poll_event().is_none());

    // Renamed: committed and announced.
    let renamed = br#"{"name":"Other","machine_id":"g1","vendor":"v"}"#;
    assert!(dispatch(&mut e, "c", "player_ping", renamed, 300).is_ok());
    assert_eq!(e.session.profiles[1].1.get_name(), "Other");
    assert_eq!(e.session.version(), 0);
    assert!(matches!(e.poll_event(), Some(Event::StateChanged { .. })));

    let as_host = br#"{"name":"H","machine_id":"host-id","vendor":"v"}"#;
    let r = dispatch(&mut e, "c", "player_ping", as_host, 400);
    assert_eq!(r, Err(HandlerError::CannotModifyHost));
    assert_eq!(
        r.unwrap_err().text(),
        "Custom { kind: Other, error: \"IllegalStateException: Cannot modify host, machine_id may conflict.\" }"
    );
}

#[test]
fn player_ping_errors() {
    let mut e = host(1);
    let r = dispatch(&mut e, "c", "player_ping", br#"{"name":"x"}"#, 0);
    assert_eq!(r, Err(HandlerError::InvalidInput));
    assert_eq!(HandlerError::InvalidInput.text(), "Kind(InvalidInput)");
    match dispatch(&mut e, "c", "player_ping", b"not json", 0) {
        Err(HandlerError::Json(t)) => assert!(t.starts_with("Custom { kind: InvalidData")),
        other => panic!("unexpected {:?}", other),
    }
    assert_eq!(e.session.profiles.len(), 1);
}

#[test]
fn profiles_list_of_a_running_host() {
    let mut e = host(1);
    match dispatch(&mut e, "c", "player_profiles_list", &[], 0) {
        Ok(PacketResponse::Success { data }) => {
            assert_eq!(
                String::from_utf8(data).unwrap(),
                r#"[{"kind":"HOST","machine_id":"host-id","name":"Host","vendor":"v"}]"#
            );
        }
        other => panic!("unexpected {:?}", other),
    }
    e.session.state = SessionStateId::Waiting;
    let r = dispatch(&mut e, "c", "player_profiles_list", &[], 0);
    assert_eq!(r, Err(HandlerError::ExpectingHostOk));
}

#[test]
fn kinds_split_at_the_only_colon() {
    assert_eq!(parse_kind(b"c:ping"), Some(("c".to_string(), "ping".to_string())));
    assert_eq!(parse_kind(b"cping"), None);
    assert_eq!(parse_kind(b"c:pi:ng"), None);
    assert_eq!(parse_kind(&[0xff, b':', b'a']), None);
}

#[test]
fn request_frames_round_trip() {
    let frame = encode_request("c", "ping", &[9, 8]).unwrap();
    assert_eq!(frame, vec![6, b'c', b':', b'p', b'i', b'n', b'g', 0, 0, 0, 2, 9, 8]);
    assert_eq!(decode_request(&frame), Some(("c".to_string(), "ping".to_string(), vec![9, 8])));
    assert_eq!(decode_request(&frame[..frame.len() - 1]), None);
    assert!(encode_request(&"x".repeat(300), "p", &[]).is_none());
}

#[test]
fn response_frames() {
    assert_eq!(encode_response(0, &[7]), vec![0, 0, 0, 0, 1, 7]);
    assert_eq!(
        respond(Ok(PacketResponse::Fail { status: 32, data: vec![] })),
        vec![32, 0, 0, 0, 0]
    );
    let mut expected = vec![255, 0, 0, 0, 18];
    expected.extend_from_slice(b"Kind(InvalidInput)");
    assert_eq!(respond(Err(HandlerError::InvalidInput)), expected);
    assert_eq!(decode_response(&[0, 0, 0, 0, 1, 7]), Some(PacketResponse::Success { data: vec![7] }));
    assert_eq!(decode_response(&[3, 0, 0, 0, 0]), Some(PacketResponse::Fail { status: 3, data: vec![] }));
    assert_eq!(decode_response(&[3, 0, 0, 0, 2, 1]), None);
}

#[test]
fn player_ping_from_a_decoded_value() {
    let mut e = host(1);
    let value = Json::Object(vec![
        ("name".to_string(), Json::Str("Guest".to_string())),
        ("machine_id".to_string(), Json::Str("g1".to_string())),
        ("vendor".to_string(), Json::Str("v".to_string())),
    ]);
    assert_eq!(player_ping_from_json(&mut e, &value, 7), Ok(PacketResponse::Success { data: vec![] }));
    assert_eq!(e.session.profiles.len(), 2);
    assert_eq!(e.session.profiles[1].0, 7);
    let missing = Json::Object(vec![("name".to_string(), Json::Str("Guest".to_string()))]);
    assert_eq!(player_ping_from_json(&mut e, &missing, 8), Err(HandlerError::InvalidInput));
    assert_eq!(e.session.profiles.len(), 2);
}
