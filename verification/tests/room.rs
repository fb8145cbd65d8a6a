use conic_terracotta::room::Room;

#[test]
fn create_parse_round_trip() {
    for _ in 0..256 {
        let room = Room::create().expect("random source");
        assert_eq!(room.code.len(), "U/AAAA-AAAA-AAAA-AAAA".len());
        assert!(room.code.starts_with("U/"));

        let parsed = Room::parse(&room.code).expect("round trip");
        assert_eq!(parsed, room);
        assert_eq!(parsed.network_name, format!("scaffolding-mc-{}", &room.code[2..11]));
        assert_eq!(
            parsed.network_secret,
            format!("{}-{}", &room.code[12..16], &room.code[17..21])
        );
    }
}

#[test]
fn parse_tolerates_prefix_and_case() {
    let room = Room::create().expect("random source");
    let lower = room.code.to_ascii_lowercase();
    let with_prefix = format!("[SCANNING] {}", lower);
    assert_eq!(Room::parse(&with_prefix), Some(room));
}

#[test]
fn parse_rejects_invalid() {
    assert!(Room::parse("").is_none());
    assert!(Room::parse("X/AAAA-AAAA-AAAA-AAAA").is_none());
    assert!(Room::parse("U/AAAA-AAAA-AAAA-AAA").is_none());
    assert!(Room::parse("U/AAAA AAAA AAAA AAAA").is_none());
    assert!(Room::parse("U/AAAA-AAAA+AAAA-AAAA").is_none());
}

#[test]
fn value_zero_gives_the_first_code() {
    let room = Room::from_value(0);
    assert_eq!(room.code, "U/0000-0000-0000-0000");
    assert_eq!(room.network_name, "scaffolding-mc-0000-0000");
    assert_eq!(room.network_secret, "0000-0000");
    assert!(Room::verify(&room.code));
}

#[test]
fn verify_matches_parse() {
    assert!(!Room::verify("not-a-code"));
    assert!(!Room::verify("U/AAAA-AAAA-AAAA-AAA"));
    let room = Room::create().expect("random source");
    assert!(Room::verify(&room.code));
}

#[test]
fn values_past_the_code_space_read_their_low_digits() {
    let space: u128 = 3189059870763703892770816; // 34^16
    let low = Room::from_value(7);
    let high = Room::from_value(space * 3 + 7);
    assert_eq!(high.code, low.code);
    assert_eq!(high.network_name, low.network_name);
    assert_eq!(high.network_secret, low.network_secret);
    assert_eq!(Room::from_value(u128::MAX).code, Room::from_value(u128::MAX % space).code);
}

#[test]
fn decorated_lower_case_code_parses_to_the_room() {
    let room = Room::create().expect("random source");
    let text = format!("[SCANNING] {}", room.code.to_ascii_lowercase());
    let parsed = Room::parse(&text).expect("parses");
    assert_eq!(parsed.code, room.code);
    assert_eq!(parsed.network_name, room.network_name);
    assert_eq!(parsed.network_secret, room.network_secret);
}
