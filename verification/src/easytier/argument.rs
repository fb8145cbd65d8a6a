//! The arguments the overlay process is started with, and their command-line
//! words.
use vstd::prelude::*;
use crate::net::{ipv4_text, socket_text, Ipv4, SocketAddress};
use crate::context::strings_view;
use crate::room::Room;
use crate::text::{decimal, owned, push_decimal, push_text, string_of};

verus! {

#[derive(Debug, Clone, Copy, PartialEq, Eq, Structural)]
pub enum Proto {
    Tcp,
    Udp,
}

pub open spec fn proto_name(p: Proto) -> Seq<char> {
    match p {
        Proto::Tcp => "tcp"@,
        Proto::Udp => "udp"@,
    }
}

impl Proto {
    /// The protocol's name on the command line.
    pub fn name(&self) -> (r: &'static str)
        ensures
            r@ == proto_name(*self),
    {
        match self {
            Proto::Tcp => "tcp",
            Proto::Udp => "udp",
        }
    }
}

/// A forwarding of a local socket to a remote one.
#[derive(Debug, Clone, Copy, PartialEq, Eq, Structural)]
pub struct PortForward {
    pub local: SocketAddress,
    pub remote: SocketAddress,
    pub proto: Proto,
}

#[derive(Debug, Clone)]
pub enum Argument {
    NoTun,
    Compression(String),
    MultiThread,
    LatencyFirst,
    EnableKcpProxy,
    NetworkName(String),
    NetworkSecret(String),
    PublicServer(String),
    Listener { address: SocketAddress, proto: Proto },
    PortForward(PortForward),
    Dhcp,
    HostName(String),
    IPv4(Ipv4),
    TcpWhitelist(u16),
    UdpWhitelist(u16),
    P2POnly,
}

/// What an argument holds, as plain values.
pub enum ArgumentV {
    NoTun,
    Compression(Seq<char>),
    MultiThread,
    LatencyFirst,
    EnableKcpProxy,
    NetworkName(Seq<char>),
    NetworkSecret(Seq<char>),
    PublicServer(Seq<char>),
    Listener { address: SocketAddress, proto: Proto },
    PortForward(PortForward),
    Dhcp,
    HostName(Seq<char>),
    IPv4(Ipv4),
    TcpWhitelist(u16),
    UdpWhitelist(u16),
    P2POnly,
}

impl View for Argument {
    type V = ArgumentV;

    open spec fn view(&self) -> ArgumentV {
        match *self {
            Argument::NoTun => ArgumentV::NoTun,
            Argument::Compression(m) => ArgumentV::Compression(m@),
            Argument::MultiThread => ArgumentV::MultiThread,
            Argument::LatencyFirst => ArgumentV::LatencyFirst,
            Argument::EnableKcpProxy => ArgumentV::EnableKcpProxy,
            Argument::NetworkName(n) => ArgumentV::NetworkName(n@),
            Argument::NetworkSecret(s) => ArgumentV::NetworkSecret(s@),
            Argument::PublicServer(s) => ArgumentV::PublicServer(s@),
            Argument::Listener { address, proto } => ArgumentV::Listener { address, proto },
            Argument::PortForward(f) => ArgumentV::PortForward(f),
            Argument::Dhcp => ArgumentV::Dhcp,
            Argument::HostName(n) => ArgumentV::HostName(n@),
            Argument::IPv4(a) => ArgumentV::IPv4(a),
            Argument::TcpWhitelist(p) => ArgumentV::TcpWhitelist(p),
            Argument::UdpWhitelist(p) => ArgumentV::UdpWhitelist(p),
            Argument::P2POnly => ArgumentV::P2POnly,
        }
    }
}

pub open spec fn arguments_view(args: Seq<Argument>) -> Seq<ArgumentV> {
    args.map_values(|a: Argument| a@)
}

/// The text of a forwarding: `proto://local/remote`.
pub open spec fn forward_text(f: PortForward) -> Seq<char> {
    proto_name(f.proto) + "://"@ + socket_text(f.local) + "/"@ + socket_text(f.remote)
}

/// The command-line words of an argument.
pub open spec fn argument_words(a: ArgumentV) -> Seq<Seq<char>> {
    match a {
        ArgumentV::NoTun => seq!["--no-tun"@],
        ArgumentV::Compression(m) => seq!["--compression="@ + m],
        ArgumentV::MultiThread => seq!["--multi-thread"@],
        ArgumentV::LatencyFirst => seq!["--latency-first"@],
        ArgumentV::EnableKcpProxy => seq!["--enable-kcp-proxy"@],
        ArgumentV::PublicServer(s) => seq!["-p"@, s],
        ArgumentV::NetworkName(n) => seq!["--network-name"@, n],
        ArgumentV::NetworkSecret(s) => seq!["--network-secret"@, s],
        ArgumentV::Listener { address, proto } => seq![
            "-l"@,
            proto_name(proto) + "://"@ + socket_text(address),
        ],
        ArgumentV::PortForward(f) => seq!["--port-forward="@ + forward_text(f)],
        ArgumentV::Dhcp => seq!["-d"@],
        ArgumentV::HostName(n) => seq!["--hostname"@, n],
        ArgumentV::IPv4(a) => seq!["--ipv4"@, ipv4_text(a)],
        ArgumentV::TcpWhitelist(p) => seq!["--tcp-whitelist="@ + decimal(p as nat)],
        ArgumentV::UdpWhitelist(p) => seq!["--udp-whitelist="@ + decimal(p as nat)],
        ArgumentV::P2POnly => seq!["--p2p-only"@],
    }
}

/// The command-line words of a list of arguments, in order.
pub open spec fn arguments_words(args: Seq<ArgumentV>) -> Seq<Seq<char>>
    decreases args.len(),
{
    if args.len() == 0 {
        Seq::empty()
    } else {
        arguments_words(args.drop_last()) + argument_words(args.last())
    }
}

/// Appends the text of a forwarding.
fn push_forward(out: &mut Vec<char>, f: PortForward)
    ensures
        final(out)@ == old(out)@ + forward_text(f),
{
    push_text(out, f.proto.name());
    push_text(out, "://");
    crate::net::push_socket(out, f.local);
    push_text(out, "/");
    crate::net::push_socket(out, f.remote);
    assert(out@ =~= old(out)@ + forward_text(f));
}

/// `prefix` followed by the decimal form of `n`.
fn prefixed_decimal(prefix: &str, n: u16) -> (r: String)
    ensures
        r@ == prefix@ + decimal(n as nat),
{
    let mut cs: Vec<char> = Vec::new();
    push_text(&mut cs, prefix);
    push_decimal(&mut cs, n as u64);
    string_of(&cs)
}

/// The command-line words of an argument.
pub fn argument_to_words(a: &Argument) -> (r: Vec<String>)
    ensures
        strings_view(r@) == argument_words(a@),
{
    let r: Vec<String> = match a {
        Argument::NoTun => vec![owned("--no-tun")],
        Argument::Compression(m) => {
            let mut cs: Vec<char> = Vec::new();
            push_text(&mut cs, "--compression=");
            push_text(&mut cs, m.as_str());
            vec![string_of(&cs)]
        },
        Argument::MultiThread => vec![owned("--multi-thread")],
        Argument::LatencyFirst => vec![owned("--latency-first")],
        Argument::EnableKcpProxy => vec![owned("--enable-kcp-proxy")],
        Argument::PublicServer(s) => vec![owned("-p"), s.clone()],
        Argument::NetworkName(n) => vec![owned("--network-name"), n.clone()],
        Argument::NetworkSecret(s) => vec![owned("--network-secret"), s.clone()],
        Argument::Listener { address, proto } => {
            let mut cs: Vec<char> = Vec::new();
            push_text(&mut cs, proto.name());
            push_text(&mut cs, "://");
            crate::net::push_socket(&mut cs, *address);
            vec![owned("-l"), string_of(&cs)]
        },
        Argument::PortForward(f) => {
            let mut cs: Vec<char> = Vec::new();
            push_text(&mut cs, "--port-forward=");
            push_forward(&mut cs, *f);
            vec![string_of(&cs)]
        },
        Argument::Dhcp => vec![owned("-d")],
        Argument::HostName(n) => vec![owned("--hostname"), n.clone()],
        Argument::IPv4(ip) => vec![owned("--ipv4"), crate::net::ipv4_to_text(*ip)],
        Argument::TcpWhitelist(p) => vec![prefixed_decimal("--tcp-whitelist=", *p)],
        Argument::UdpWhitelist(p) => vec![prefixed_decimal("--udp-whitelist=", *p)],
        Argument::P2POnly => vec![owned("--p2p-only")],
    };
    assert(strings_view(r@) =~= argument_words(a@));
    r
}

/// The command-line words of a list of arguments, in order.
pub fn render_arguments(args: &Vec<Argument>) -> (r: Vec<String>)
    ensures
        strings_view(r@) == arguments_words(arguments_view(args@)),
{
    let mut out: Vec<String> = Vec::new();
    let mut i: usize = 0;
    while i < args.len()
        invariant
            0 <= i <= args.len(),
            strings_view(out@) == arguments_words(arguments_view(args@.take(i as int))),
        decreases args.len() - i,
    {
        let words = argument_to_words(&args[i]);
        let ghost before = out@;
        let mut k: usize = 0;
        while k < words.len()
            invariant
                0 <= k <= words.len(),
                out@ == before + words@.take(k as int),
            decreases words.len() - k,
        {
            out.push(words[k].clone());
            k += 1;
            assert(out@ =~= before + words@.take(k as int));
        }
        proof {
            assert(words@.take(k as int) =~= words@);
            crate::context::lemma_strings_view_add(before, words@);
            let taken = arguments_view(args@.take(i + 1));
            assert(taken.drop_last() =~= arguments_view(args@.take(i as int)));
            assert(taken.last() == args@[i as int]@);
        }
        i += 1;
    }
    assert(args@.take(args.len() as int) =~= args@);
    out
}

/// The arguments every overlay process starts with, after the room's
/// network and the public servers.
pub open spec fn default_arguments() -> Seq<ArgumentV> {
    let any = SocketAddress::V4 { ip: Ipv4 { a: 0, b: 0, c: 0, d: 0 }, port: 0 };
    seq![
        ArgumentV::NoTun,
        ArgumentV::Compression("zstd"@),
        ArgumentV::MultiThread,
        ArgumentV::LatencyFirst,
        ArgumentV::EnableKcpProxy,
        ArgumentV::Listener { address: any, proto: Proto::Udp },
        ArgumentV::Listener { address: any, proto: Proto::Tcp },
        ArgumentV::P2POnly,
    ]
}

/// The public servers as arguments.
pub open spec fn public_server_arguments(servers: Seq<Seq<char>>) -> Seq<ArgumentV> {
    servers.map_values(|s: Seq<char>| ArgumentV::PublicServer(s))
}

/// The arguments of a room's overlay process: its network, the public
/// servers, then the defaults.
pub open spec fn room_arguments(room: Room, servers: Seq<Seq<char>>) -> Seq<ArgumentV> {
    seq![ArgumentV::NetworkName(room.network_name@), ArgumentV::NetworkSecret(room.network_secret@)]
        + public_server_arguments(servers) + default_arguments()
}

/// The arguments of a room's overlay process.
pub fn compute_arguments(room: &Room, public_servers: &Vec<String>) -> (r: Vec<Argument>)
    ensures
        arguments_view(r@) == room_arguments(*room, strings_view(public_servers@)),
{
    let mut args: Vec<Argument> = Vec::new();
    args.push(Argument::NetworkName(room.network_name.clone()));
    args.push(Argument::NetworkSecret(room.network_secret.clone()));
    let mut i: usize = 0;
    while i < public_servers.len()
        invariant
            0 <= i <= public_servers.len(),
            args@.len() == 2 + i,
            args@[0]@ == ArgumentV::NetworkName(room.network_name@),
            args@[1]@ == ArgumentV::NetworkSecret(room.network_secret@),
            forall|k: int|
                0 <= k < i ==> args@[k + 2]@ == ArgumentV::PublicServer(#[trigger] public_servers@[k]@),
        decreases public_servers.len() - i,
    {
        args.push(Argument::PublicServer(public_servers[i].clone()));
        i += 1;
    }
    let any = SocketAddress::V4 { ip: Ipv4 { a: 0, b: 0, c: 0, d: 0 }, port: 0 };
    let ghost n = public_servers@.len() as int;
    args.push(Argument::NoTun);
    args.push(Argument::Compression(owned("zstd")));
    args.push(Argument::MultiThread);
    args.push(Argument::LatencyFirst);
    args.push(Argument::EnableKcpProxy);
    args.push(Argument::Listener { address: any, proto: Proto::Udp });
    args.push(Argument::Listener { address: any, proto: Proto::Tcp });
    args.push(Argument::P2POnly);
    proof {
        let expected = room_arguments(*room, strings_view(public_servers@));
        let got = arguments_view(args@);
        assert(got.len() == expected.len());
        assert forall|j: int| 0 <= j < got.len() implies got[j] == expected[j] by {
            if 2 <= j < 2 + n {
                assert(args@[(j - 2) + 2]@ == ArgumentV::PublicServer(public_servers@[j - 2]@));
            }
        }
        assert(got =~= expected);
    }
    args
}

/// The host name a host's overlay node announces: the scaffolding port
/// after `scaffolding-mc-server-`.
pub open spec fn server_host_name(scaffolding_port: u16) -> Seq<char> {
    "scaffolding-mc-server-"@ + decimal(scaffolding_port as nat)
}

/// What a host adds: its host name, its fixed address, and the ports
/// others may reach.
pub open spec fn host_extra_arguments(scaffolding_port: u16, port: u16) -> Seq<ArgumentV> {
    seq![
        ArgumentV::HostName(server_host_name(scaffolding_port)),
        ArgumentV::IPv4(Ipv4 { a: 10, b: 144, c: 144, d: 1 }),
        ArgumentV::TcpWhitelist(scaffolding_port),
        ArgumentV::TcpWhitelist(port),
        ArgumentV::UdpWhitelist(port),
    ]
}

/// What a guest adds: an address by DHCP, and no port open to others.
pub open spec fn guest_extra_arguments() -> Seq<ArgumentV> {
    seq![ArgumentV::Dhcp, ArgumentV::TcpWhitelist(0), ArgumentV::UdpWhitelist(0)]
}

/// The arguments of a host's overlay process.
pub fn host_arguments(room: &Room, public_servers: &Vec<String>, scaffolding_port: u16, port: u16) -> (r:
    Vec<Argument>)
    ensures
        arguments_view(r@) == room_arguments(*room, strings_view(public_servers@))
            + host_extra_arguments(scaffolding_port, port),
{
    let mut args = compute_arguments(room, public_servers);
    let ghost base = arguments_view(args@);
    args.push(Argument::HostName(prefixed_decimal("scaffolding-mc-server-", scaffolding_port)));
    args.push(Argument::IPv4(Ipv4 { a: 10, b: 144, c: 144, d: 1 }));
    args.push(Argument::TcpWhitelist(scaffolding_port));
    args.push(Argument::TcpWhitelist(port));
    args.push(Argument::UdpWhitelist(port));
    assert(arguments_view(args@) =~= base + host_extra_arguments(scaffolding_port, port));
    args
}

/// The arguments of a guest's overlay process.
pub fn guest_arguments(room: &Room, public_servers: &Vec<String>) -> (r: Vec<Argument>)
    ensures
        arguments_view(r@) == room_arguments(*room, strings_view(public_servers@))
            + guest_extra_arguments(),
{
    let mut args = compute_arguments(room, public_servers);
    let ghost base = arguments_view(args@);
    args.push(Argument::Dhcp);
    args.push(Argument::TcpWhitelist(0));
    args.push(Argument::UdpWhitelist(0));
    assert(arguments_view(args@) =~= base + guest_extra_arguments());
    args
}

/// The address of the overlay's control interface.
pub open spec fn rpc_address(rpc: u16) -> Seq<char> {
    "127.0.0.1:"@ + decimal(rpc as nat)
}

/// The words that start the overlay process: its arguments, then its
/// control port.
pub fn process_command_line(args: &Vec<Argument>, rpc: u16) -> (r: Vec<String>)
    ensures
        strings_view(r@) == arguments_words(arguments_view(args@)) + seq![
            "-r"@,
            decimal(rpc as nat),
        ],
{
    let mut out = render_arguments(args);
    let ghost base = strings_view(out@);
    out.push(owned("-r"));
    out.push(crate::text::decimal_text(rpc as u64));
    assert(strings_view(out@) =~= base + seq!["-r"@, decimal(rpc as nat)]);
    out
}

/// The words that ask the control interface for the peers as JSON.
pub fn peer_command(rpc: u16) -> (r: Vec<String>)
    ensures
        strings_view(r@) == seq!["-p"@, rpc_address(rpc), "-o"@, "json"@, "peer"@],
{
    let r = vec![
        owned("-p"),
        prefixed_decimal("127.0.0.1:", rpc),
        owned("-o"),
        owned("json"),
        owned("peer"),
    ];
    assert(strings_view(r@) =~= seq!["-p"@, rpc_address(rpc), "-o"@, "json"@, "peer"@]);
    r
}

/// The words that ask the control interface to add a forwarding.
pub fn port_forward_command(rpc: u16, f: PortForward) -> (r: Vec<String>)
    ensures
        strings_view(r@) == seq![
            "-p"@,
            rpc_address(rpc),
            "port-forward"@,
            "add"@,
            proto_name(f.proto),
            socket_text(f.local),
            socket_text(f.remote),
        ],
{
    let r = vec![
        owned("-p"),
        prefixed_decimal("127.0.0.1:", rpc),
        owned("port-forward"),
        owned("add"),
        owned(f.proto.name()),
        crate::net::socket_to_text(f.local),
        crate::net::socket_to_text(f.remote),
    ];
    assert(strings_view(r@) =~= seq![
        "-p"@,
        rpc_address(rpc),
        "port-forward"@,
        "add"@,
        proto_name(f.proto),
        socket_text(f.local),
        socket_text(f.remote),
    ]);
    r
}

} // verus!
