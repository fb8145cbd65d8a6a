use conic_terracotta::addresses::select_addresses;
use conic_terracotta::context::ContextConfig;
use conic_terracotta::ffi::{
    configure_request, create_room_request, join_room_request, read_string, verify_room_code_result,
    RawConfig, TERRA_ERR_ALREADY_ACTIVE, TERRA_ERR_BAD_STATE, TERRA_ERR_INVALID_ARGUMENT,
    TERRA_ERR_INVALID_ROOM_CODE,
};
use conic_terracotta::logging::{log, recent, LogRing, LOG_CAPACITY};
use conic_terracotta::machine_id::{fresh_machine_id, stored_machine_id, MachineIdPlan, StoredId};
use conic_terracotta::net::{IpAddress, Ipv4, Ipv6};
use conic_terracotta::ports::PortRequest;
use conic_terracotta::room::Room;
use conic_terracotta::session::SessionStateId;
use conic_terracotta::text::parse_u16;

#[test]
fn log_ring_keeps_the_last_lines() {
    let mut ring = LogRing::new();
    for i in 0..(LOG_CAPACITY + 10) {
        log(&mut ring, &format!("line {}", i));
    }
    assert_eq!(ring.lines.len(), LOG_CAPACITY);
    assert_eq!(ring.lines[0], "line 10");
    assert_eq!(recent(&ring, 2), vec![format!("line {}", LOG_CAPACITY + 8), format!("line {}", LOG_CAPACITY + 9)]);
    assert_eq!(recent(&ring, 10_000).len(), LOG_CAPACITY);
    assert!(recent(&ring, 0).is_empty());
}

#[test]
fn port_fallbacks() {
    assert_eq!(PortRequest::EasyTierRPC.fallback_port(), 35780);
    assert_eq!(PortRequest::Scaffolding.fallback_port(), 35781);
    assert_eq!(PortRequest::Minecraft.resolve(None), 35782);
    assert_eq!(PortRequest::Minecraft.resolve(Some(25565)), 25565);
}

#[test]
fn machine_ids() {
    match stored_machine_id(&StoredId::Read((0u8..16).collect())) {
        MachineIdPlan::Use(id) => assert_eq!(id, "000102030405060708090a0b0c0d0e0f"),
        MachineIdPlan::Renew => panic!("sixteen bytes are an id"),
    }
    assert!(matches!(stored_machine_id(&StoredId::Read(vec![1; 17])), MachineIdPlan::Renew));
    assert!(matches!(stored_machine_id(&StoredId::Read(vec![])), MachineIdPlan::Renew));
    match stored_machine_id(&StoredId::Unreadable) {
        MachineIdPlan::Use(id) => assert_eq!(id, "00000000000000000000000000000000"),
        MachineIdPlan::Renew => panic!("a failed read uses zeros"),
    }
    let (bytes, id) = fresh_machine_id().expect("random source");
    assert_eq!(bytes.len(), 16);
    assert_eq!(id.len(), 32);
    assert!(id.chars().all(|c| c.is_ascii_hexdigit() && !c.is_ascii_uppercase()));
}

#[test]
fn u16_parsing_follows_std() {
    for t in ["0", "+1", "65535", "00080", "+", "", "-1", "65536", "1a", "++1"] {
        assert_eq!(parse_u16(t), t.parse::<u16>().ok(), "{}", t);
    }
}

#[test]
fn addresses_sorted_greatest_first() {
    let v4 = |a, b, c, d| IpAddress::V4(Ipv4::new(a, b, c, d));
    let r = select_addresses(&vec![
        v4(192, 168, 1, 2),
        v4(10, 144, 144, 2),
        v4(127, 0, 0, 1),
        IpAddress::V6(Ipv6::localhost()),
        v4(10, 0, 0, 1),
        IpAddress::V6(Ipv6 { s0: 0xfe80, s1: 0, s2: 0, s3: 0, s4: 0, s5: 0, s6: 0, s7: 1 }),
    ]);
    assert_eq!(
        r,
        vec![
            IpAddress::V6(Ipv6 { s0: 0xfe80, s1: 0, s2: 0, s3: 0, s4: 0, s5: 0, s6: 0, s7: 1 }),
            IpAddress::V6(Ipv6::unspecified()),
            v4(192, 168, 1, 2),
            v4(10, 0, 0, 1),
            v4(0, 0, 0, 0),
        ]
    );
}

#[test]
fn interface_strings() {
    assert_eq!(read_string(None), Ok(String::new()));
    assert_eq!(read_string(Some(b"")), Ok(String::new()));
    assert_eq!(read_string(Some(b"abc")), Ok("abc".to_string()));
    assert_eq!(read_string(Some(&[0xff])), Err(TERRA_ERR_INVALID_ARGUMENT));
}

#[test]
fn room_requests() {
    let code = Room::from_value(7).code;
    assert_eq!(
        create_room_request(Some(b"p"), Some(code.as_bytes()), SessionStateId::Waiting),
        Ok((Some("p".to_string()), Some(code.clone())))
    );
    assert_eq!(create_room_request(None, Some(b""), SessionStateId::Waiting), Ok((None, None)));
    assert_eq!(
        create_room_request(None, Some(b"U/INVALID"), SessionStateId::Waiting),
        Err(TERRA_ERR_INVALID_ROOM_CODE)
    );
    assert_eq!(
        create_room_request(Some(&[0xff]), None, SessionStateId::Waiting),
        Err(TERRA_ERR_INVALID_ARGUMENT)
    );
    assert_eq!(create_room_request(None, None, SessionStateId::HostOk), Err(TERRA_ERR_ALREADY_ACTIVE));
    assert_eq!(
        join_room_request(Some(b"U/AAAA-AAAA-AAAA-AAA"), None, SessionStateId::Waiting),
        Err(TERRA_ERR_INVALID_ROOM_CODE)
    );
    assert_eq!(join_room_request(None, None, SessionStateId::Waiting), Err(TERRA_ERR_INVALID_ARGUMENT));
    assert_eq!(
        join_room_request(Some(code.as_bytes()), Some(b""), SessionStateId::Waiting),
        Ok((code.clone(), None))
    );
    assert_eq!(verify_room_code_result(Some(code.as_bytes())), 3);
    assert_eq!(verify_room_code_result(Some(b"not-a-code")), -1);
    assert_eq!(verify_room_code_result(None), -1);
}

#[test]
fn configure_motd_and_defaults() {
    let raw = RawConfig {
        public_nodes: vec![Some(b"tcp://n:1".to_vec()), None],
        data_dir: Some(b"/tmp/conic-ffi-motd-test".to_vec()),
        motd: Some(b"custom-motd".to_vec()),
    };
    let c: ContextConfig = configure_request(Some(raw), SessionStateId::Waiting, "/tmp/d".into()).unwrap();
    assert_eq!(c.motd.as_deref(), Some("custom-motd"));
    assert_eq!(c.data_dir, "/tmp/conic-ffi-motd-test");
    assert_eq!(c.public_nodes, vec!["tcp://n:1".to_string(), String::new()]);
    let empty = RawConfig { public_nodes: vec![], data_dir: None, motd: Some(vec![]) };
    let c = configure_request(Some(empty), SessionStateId::Waiting, "/tmp/d".into()).unwrap();
    assert_eq!(c.motd, None);
    assert_eq!(c.data_dir, "/tmp/d");
    assert!(matches!(
        configure_request(None, SessionStateId::HostOk, "/tmp/d".into()),
        Err(TERRA_ERR_BAD_STATE)
    ));
    let bad = RawConfig { public_nodes: vec![Some(vec![0xff])], data_dir: None, motd: None };
    assert!(matches!(
        configure_request(Some(bad), SessionStateId::HostOk, "/tmp/d".into()),
        Err(TERRA_ERR_INVALID_ARGUMENT)
    ));
}

#[test]
fn machine_id_reads_back_as_handed_out() {
    let (bytes, id) = fresh_machine_id().expect("random source");
    match stored_machine_id(&StoredId::Read(bytes.clone())) {
        MachineIdPlan::Use(read) => assert_eq!(read, id),
        MachineIdPlan::Renew => panic!("stored bytes are an id"),
    }
    let mut longer = bytes;
    longer.push(0);
    assert!(matches!(stored_machine_id(&StoredId::Read(longer)), MachineIdPlan::Renew));
}
