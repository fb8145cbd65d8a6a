use conic_terracotta::easytier::argument::{
    guest_arguments, host_arguments, peer_command, port_forward_command, process_command_line,
    render_arguments, Argument, PortForward, Proto,
};
use conic_terracotta::easytier::publics::fetch_public_nodes;
use conic_terracotta::easytier::{
    calc_conn_difficulty, find_scaffolding_server, forward_round, parse_peers, peers_from_json, ForwardStep, NatType,
};
use conic_terracotta::json::Json;
use conic_terracotta::net::{Ipv4, Ipv6, SocketAddress};
use conic_terracotta::room::Room;
use conic_terracotta::session::ConnectionDifficulty;

#[test]
fn proto_names() {
    assert_eq!(Proto::Tcp.name(), "tcp");
    assert_eq!(Proto::Udp.name(), "udp");
}

#[test]
fn difficulty_is_that_of_the_easier_end() {
    assert_eq!(calc_conn_difficulty(&NatType::OpenInternet, &NatType::Symmetric), ConnectionDifficulty::Easiest);
    assert_eq!(calc_conn_difficulty(&NatType::Symmetric, &NatType::FullCone), ConnectionDifficulty::Simple);
    assert_eq!(calc_conn_difficulty(&NatType::PortRestricted, &NatType::Unknown), ConnectionDifficulty::Medium);
    assert_eq!(calc_conn_difficulty(&NatType::Unknown, &NatType::SymmetricUdpWall), ConnectionDifficulty::Tough);
    assert_eq!(
        calc_conn_difficulty(&NatType::NoPAT, &NatType::Restricted),
        calc_conn_difficulty(&NatType::Restricted, &NatType::NoPAT)
    );
}

#[test]
fn public_nodes_follow_the_requested() {
    let room = Room::from_value(1);
    let nodes = fetch_public_nodes(&room, vec!["tcp://a:1".to_string()]);
    assert_eq!(
        nodes,
        vec![
            "tcp://a:1",
            "tcp://public.easytier.top:11010",
            "tcp://public2.easytier.cn:54321",
            "https://etnode.zkitefly.eu.org/node1",
            "https://etnode.zkitefly.eu.org/node2",
        ]
    );
}

#[test]
fn guest_command_line() {
    let room = Room::from_value(0);
    let args = guest_arguments(&room, &vec!["tcp://n:1".to_string()]);
    let words = process_command_line(&args, 4000);
    assert_eq!(
        words,
        vec![
            "--network-name", "scaffolding-mc-0000-0000", "--network-secret", "0000-0000",
            "-p", "tcp://n:1", "--no-tun", "--compression=zstd", "--multi-thread",
            "--latency-first", "--enable-kcp-proxy", "-l", "udp://0.0.0.0:0", "-l",
            "tcp://0.0.0.0:0", "--p2p-only", "-d", "--tcp-whitelist=0", "--udp-whitelist=0",
            "-r", "4000",
        ]
    );
}

#[test]
fn host_arguments_announce_the_scaffolding_port() {
    let room = Room::from_value(0);
    let args = host_arguments(&room, &vec![], 13448, 25565);
    let words = render_arguments(&args);
    assert_eq!(
        words[words.len() - 8..].to_vec(),
        vec![
            "--p2p-only", "--hostname", "scaffolding-mc-server-13448", "--ipv4", "10.144.144.1",
            "--tcp-whitelist=13448", "--tcp-whitelist=25565", "--udp-whitelist=25565",
        ]
    );
}

#[test]
fn control_commands() {
    assert_eq!(peer_command(1234), vec!["-p", "127.0.0.1:1234", "-o", "json", "peer"]);
    let f = PortForward {
        local: SocketAddress::V6 { ip: Ipv6::unspecified(), port: 80 },
        remote: SocketAddress::V4 { ip: Ipv4::new(10, 144, 144, 1), port: 25565 },
        proto: Proto::Udp,
    };
    assert_eq!(
        port_forward_command(1, f),
        vec!["-p", "127.0.0.1:1", "port-forward", "add", "udp", "[::]:80", "10.144.144.1:25565"]
    );
    assert_eq!(
        render_arguments(&vec![Argument::PortForward(f)]),
        vec!["--port-forward=udp://[::]:80/10.144.144.1:25565"]
    );
}

#[test]
fn peers_and_the_scaffolding_server() {
    let out = br#"[
        {"hostname":"me","ipv4":"10.144.144.2","cost":"Local","nat_type":"FullCone"},
        {"hostname":"scaffolding-mc-server-+13448","ipv4":"10.144.144.1","cost":"p2p","nat_type":"OpenInternet"}
    ]"#;
    let peers = parse_peers(out).expect("peers");
    assert_eq!(peers.len(), 2);
    assert!(peers[0].is_local);
    assert_eq!(peers[1].address, Some(Ipv4::new(10, 144, 144, 1)));
    let server = find_scaffolding_server(&peers).expect("server");
    assert_eq!(server.port, 13448);
    assert_eq!(server.local_nat, NatType::FullCone);
    assert_eq!(server.server_nat, NatType::OpenInternet);
}

#[test]
fn peers_refused() {
    assert!(parse_peers(b"{}").is_none());
    assert!(parse_peers(&[0xff]).is_none());
    let unknown_nat = br#"[{"hostname":"a","ipv4":"x","cost":"Local","nat_type":"Weird"}]"#;
    assert!(parse_peers(unknown_nat).is_none());
    let no_address = br#"[{"hostname":"a","ipv4":"x","cost":"Local","nat_type":"Unknown"}]"#;
    let peers = parse_peers(no_address).unwrap();
    assert_eq!(peers[0].address, None);
    assert!(find_scaffolding_server(&peers).is_none());
}

fn text_member(key: &str, value: &str) -> (String, Json) {
    (key.to_string(), Json::Str(value.to_string()))
}

#[test]
fn peers_from_a_decoded_value() {
    let peer = Json::Object(vec![
        text_member("hostname", "scaffolding-mc-server-13448"),
        text_member("ipv4", "10.144.144.1"),
        text_member("cost", "Local"),
        text_member("nat_type", "Symmetric"),
    ]);
    let peers = peers_from_json(&Json::Array(vec![peer])).expect("peers");
    assert_eq!(peers.len(), 1);
    assert_eq!(peers[0].hostname, "scaffolding-mc-server-13448");
    assert!(peers[0].is_local);
    assert_eq!(peers[0].nat, NatType::Symmetric);
    assert_eq!(peers[0].address, Some(Ipv4::new(10, 144, 144, 1)));
    assert!(peers_from_json(&Json::Array(vec![])).expect("empty").is_empty());
    assert!(peers_from_json(&Json::Object(vec![])).is_none());
    assert!(peers_from_json(&Json::Array(vec![Json::Null])).is_none());
}

fn forward(port: u16) -> PortForward {
    PortForward {
        local: SocketAddress::V4 { ip: Ipv4::new(127, 0, 0, 1), port },
        remote: SocketAddress::V4 { ip: Ipv4::new(10, 144, 144, 1), port: 25565 },
        proto: Proto::Tcp,
    }
}

#[test]
fn forward_rounds_retry_what_failed() {
    let all = vec![forward(1), forward(2), forward(3), forward(4)];
    assert!(matches!(forward_round(&all, &vec![true; 4], 0), ForwardStep::Done));
    // The failed ones stay, in the order the removals from the back leave.
    match forward_round(&all, &vec![true, false, true, false], 0) {
        ForwardStep::Retry { pending, delay_ms } => {
            assert_eq!(pending, vec![forward(4), forward(2)]);
            assert_eq!(delay_ms, 500);
        }
        _ => panic!("expected a retry"),
    }
    match forward_round(&vec![forward(2)], &vec![false], 1) {
        ForwardStep::Retry { delay_ms, .. } => assert_eq!(delay_ms, 1500),
        _ => panic!("expected a retry"),
    }
    match forward_round(&vec![forward(2)], &vec![false], 2) {
        ForwardStep::GiveUp { pending, delay_ms } => {
            assert_eq!(pending, vec![forward(2)]);
            assert_eq!(delay_ms, 2500);
        }
        _ => panic!("expected to give up"),
    }
    assert!(matches!(forward_round(&vec![forward(2)], &vec![true], 2), ForwardStep::Done));
}
