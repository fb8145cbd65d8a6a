//! The overlay network: NAT types, the difficulty of a connection, and the
//! peers its control interface lists.
use vstd::prelude::*;
use vstd::utf8::{decode_utf8, valid_utf8};
use crate::json::{decode_json_text, json_from_text, json_seq_view, json_view, lemma_json_seq_view, str_field, utf8_text, Json, JsonV};
use crate::easytier::argument::PortForward;
use crate::net::{ipv4_from_text, parse_ipv4, Ipv4};
use crate::session::ConnectionDifficulty;
use crate::text::{owned, parse_u16, same_text, u16_from_text};

pub mod argument;
pub mod publics;

verus! {

#[derive(Debug, Clone, Copy, PartialEq, Eq, Structural)]
pub enum NatType {
    Unknown,
    OpenInternet,
    NoPAT,
    FullCone,
    Restricted,
    PortRestricted,
    Symmetric,
    SymmetricUdpWall,
    SymmetricEasyIncrease,
    SymmetricEasyDecrease,
}

/// How hard a NAT type is to cross: 1 open, 2 without port translation or
/// full cone, 3 restricted, 4 anything else.
pub open spec fn nat_rank(n: NatType) -> nat {
    match n {
        NatType::OpenInternet => 1,
        NatType::NoPAT | NatType::FullCone => 2,
        NatType::Restricted | NatType::PortRestricted => 3,
        _ => 4,
    }
}

pub open spec fn difficulty_of_rank(rank: nat) -> ConnectionDifficulty {
    if rank == 1 {
        ConnectionDifficulty::Easiest
    } else if rank == 2 {
        ConnectionDifficulty::Simple
    } else if rank == 3 {
        ConnectionDifficulty::Medium
    } else {
        ConnectionDifficulty::Tough
    }
}

/// A connection is as easy as the easier of its two ends.
pub open spec fn conn_difficulty(left: NatType, right: NatType) -> ConnectionDifficulty {
    difficulty_of_rank(
        if nat_rank(left) <= nat_rank(right) {
            nat_rank(left)
        } else {
            nat_rank(right)
        },
    )
}

/// The difficulty of connecting two peers behind these NAT types.
pub fn calc_conn_difficulty(left: &NatType, right: &NatType) -> (r: ConnectionDifficulty)
    ensures
        r == conn_difficulty(*left, *right),
{
    let is_open = |n: NatType| -> (b: bool)
        ensures
            b == (n == NatType::OpenInternet),
        { n == NatType::OpenInternet };
    let is_simple = |n: NatType| -> (b: bool)
        ensures
            b == (n == NatType::NoPAT || n == NatType::FullCone),
        { n == NatType::NoPAT || n == NatType::FullCone };
    let is_medium = |n: NatType| -> (b: bool)
        ensures
            b == (n == NatType::Restricted || n == NatType::PortRestricted),
        { n == NatType::Restricted || n == NatType::PortRestricted };
    if is_open(*left) || is_open(*right) {
        ConnectionDifficulty::Easiest
    } else if is_simple(*left) || is_simple(*right) {
        ConnectionDifficulty::Simple
    } else if is_medium(*left) || is_medium(*right) {
        ConnectionDifficulty::Medium
    } else {
        ConnectionDifficulty::Tough
    }
}

/// The difficulty does not depend on which end is which.
pub proof fn lemma_conn_difficulty_symmetric(left: NatType, right: NatType)
    ensures
        conn_difficulty(left, right) == conn_difficulty(right, left),
{
}

/// How two NAT types rate, end by end: an open end makes the connection
/// easiest; else an end with no port translation or a full cone makes it
/// simple; else a restricted or port-restricted end makes it medium;
/// anything else (symmetric or unknown at both ends) is tough.
pub proof fn lemma_conn_difficulty_table(left: NatType, right: NatType)
    ensures
        (left == NatType::OpenInternet || right == NatType::OpenInternet) ==> conn_difficulty(
            left,
            right,
        ) == ConnectionDifficulty::Easiest,
        left != NatType::OpenInternet && right != NatType::OpenInternet && (left == NatType::NoPAT
            || left == NatType::FullCone || right == NatType::NoPAT || right == NatType::FullCone)
            ==> conn_difficulty(left, right) == ConnectionDifficulty::Simple,
        left != NatType::OpenInternet && right != NatType::OpenInternet && left != NatType::NoPAT
            && left != NatType::FullCone && right != NatType::NoPAT && right != NatType::FullCone && (
        left == NatType::Restricted || left == NatType::PortRestricted || right == NatType::Restricted
            || right == NatType::PortRestricted) ==> conn_difficulty(left, right)
            == ConnectionDifficulty::Medium,
        left != NatType::OpenInternet && right != NatType::OpenInternet && left != NatType::NoPAT
            && left != NatType::FullCone && right != NatType::NoPAT && right != NatType::FullCone
            && left != NatType::Restricted && left != NatType::PortRestricted && right
            != NatType::Restricted && right != NatType::PortRestricted ==> conn_difficulty(left, right)
            == ConnectionDifficulty::Tough,
{
}

/// The NAT type the control interface names.
pub open spec fn nat_from_name(s: Seq<char>) -> Option<NatType> {
    if s == "Unknown"@ {
        Some(NatType::Unknown)
    } else if s == "OpenInternet"@ {
        Some(NatType::OpenInternet)
    } else if s == "NoPat"@ {
        Some(NatType::NoPAT)
    } else if s == "FullCone"@ {
        Some(NatType::FullCone)
    } else if s == "Restricted"@ {
        Some(NatType::Restricted)
    } else if s == "PortRestricted"@ {
        Some(NatType::PortRestricted)
    } else if s == "Symmetric"@ {
        Some(NatType::Symmetric)
    } else if s == "SymUdpFirewall"@ {
        Some(NatType::SymmetricUdpWall)
    } else if s == "SymmetricEasyInc"@ {
        Some(NatType::SymmetricEasyIncrease)
    } else if s == "SymmetricEasyDec"@ {
        Some(NatType::SymmetricEasyDecrease)
    } else {
        None
    }
}

/// Reads a NAT type's name.
pub fn nat_from_text(s: &str) -> (r: Option<NatType>)
    ensures
        r == nat_from_name(s@),
{
    if same_text(s, "Unknown") {
        Some(NatType::Unknown)
    } else if same_text(s, "OpenInternet") {
        Some(NatType::OpenInternet)
    } else if same_text(s, "NoPat") {
        Some(NatType::NoPAT)
    } else if same_text(s, "FullCone") {
        Some(NatType::FullCone)
    } else if same_text(s, "Restricted") {
        Some(NatType::Restricted)
    } else if same_text(s, "PortRestricted") {
        Some(NatType::PortRestricted)
    } else if same_text(s, "Symmetric") {
        Some(NatType::Symmetric)
    } else if same_text(s, "SymUdpFirewall") {
        Some(NatType::SymmetricUdpWall)
    } else if same_text(s, "SymmetricEasyInc") {
        Some(NatType::SymmetricEasyIncrease)
    } else if same_text(s, "SymmetricEasyDec") {
        Some(NatType::SymmetricEasyDecrease)
    } else {
        None
    }
}

/// A peer of the overlay network.
#[derive(Debug)]
pub struct EasyTierMember {
    pub hostname: String,
    pub address: Option<Ipv4>,
    pub is_local: bool,
    pub nat: NatType,
}

/// What a peer holds, as plain values.
pub struct MemberV {
    pub hostname: Seq<char>,
    pub address: Option<Ipv4>,
    pub is_local: bool,
    pub nat: NatType,
}

impl View for EasyTierMember {
    type V = MemberV;

    open spec fn view(&self) -> MemberV {
        MemberV {
            hostname: self.hostname@,
            address: self.address,
            is_local: self.is_local,
            nat: self.nat,
        }
    }
}

pub open spec fn members_view(v: Seq<EasyTierMember>) -> Seq<MemberV> {
    v.map_values(|m: EasyTierMember| m@)
}

/// The peer a JSON item of the peer list describes: it needs the strings
/// `hostname`, `ipv4` (an address, or anything else for none), `cost`
/// (`Local` for the local node) and `nat_type` (a known name).
pub open spec fn member_of(item: JsonV) -> Option<MemberV> {
    match (
        str_field(item, "hostname"@),
        str_field(item, "ipv4"@),
        str_field(item, "cost"@),
        str_field(item, "nat_type"@),
    ) {
        (Some(h), Some(ip), Some(cost), Some(nt)) => match nat_from_name(nt) {
            Some(n) => Some(
                MemberV { hostname: h, address: ipv4_from_text(ip), is_local: cost == "Local"@, nat: n },
            ),
            None => None,
        },
        _ => None,
    }
}

/// The peers of a list of items, if every item describes one.
pub open spec fn members_of(items: Seq<JsonV>) -> Option<Seq<MemberV>>
    decreases items.len(),
{
    if items.len() == 0 {
        Some(Seq::empty())
    } else {
        match (members_of(items.drop_last()), member_of(items.last())) {
            (Some(ms), Some(m)) => Some(ms.push(m)),
            _ => None,
        }
    }
}

/// The peers a decoded `peer -o json` output `j` lists: `j` is an array of
/// peers.
pub open spec fn peers_in_value(j: JsonV) -> Option<Seq<MemberV>> {
    match j {
        JsonV::Array(items) => members_of(items),
        _ => None,
    }
}

/// The peers the control interface's `peer -o json` output lists: UTF-8
/// text holding a JSON array of peers.
pub open spec fn peers_of(output: Seq<u8>) -> Option<Seq<MemberV>> {
    if valid_utf8(output) {
        match json_from_text(decode_utf8(output)) {
            Ok(j) => peers_in_value(j),
            Err(_) => None,
        }
    } else {
        None
    }
}

/// Reads one peer.
fn member_from_json(item: &Json) -> (r: Option<EasyTierMember>)
    ensures
        match r {
            Some(m) => member_of(item@) == Some(m@),
            None => member_of(item@) is None,
        },
{
    let hostname = match item.get_str("hostname") {
        Some(h) => owned(h),
        None => {
            return None;
        },
    };
    let address = match item.get_str("ipv4") {
        Some(ip) => parse_ipv4(ip),
        None => {
            return None;
        },
    };
    let is_local = match item.get_str("cost") {
        Some(cost) => same_text(cost, "Local"),
        None => {
            return None;
        },
    };
    let nat_type = match item.get_str("nat_type") {
        Some(nt) => match nat_from_text(nt) {
            Some(n) => n,
            None => {
                return None;
            },
        },
        None => {
            return None;
        },
    };
    Some(EasyTierMember { hostname, address, is_local, nat: nat_type })
}

/// Reads the peers of a list of JSON items.
fn members_from_items(items: &Vec<Json>) -> (r: Option<Vec<EasyTierMember>>)
    ensures
        match r {
            Some(v) => members_of(json_seq_view(items@)) == Some(members_view(v@)),
            None => members_of(json_seq_view(items@)) is None,
        },
{
    let ghost iv = json_seq_view(items@);
    proof {
        lemma_json_seq_view(items@);
        assert(iv.take(0) =~= Seq::<JsonV>::empty());
        assert(members_view(Seq::<EasyTierMember>::empty()) =~= Seq::<MemberV>::empty());
    }
    let mut out: Vec<EasyTierMember> = Vec::new();
    let mut i: usize = 0;
    while i < items.len()
        invariant
            0 <= i <= items.len(),
            iv == json_seq_view(items@),
            iv.len() == items@.len(),
            forall|k: int| 0 <= k < items@.len() ==> #[trigger] iv[k] == json_view(items@[k]),
            members_of(iv.take(i as int)) == Some(members_view(out@)),
        decreases items.len() - i,
    {
        let found = member_from_json(&items[i]);
        proof {
            assert(iv.take(i + 1).last() == iv[i as int]);
            assert(iv.take(i + 1).drop_last() =~= iv.take(i as int));
        }
        let m = match found {
            Some(m) => m,
            None => {
                proof {
                    lemma_members_of_prefix(iv, i as int + 1);
                }
                return None;
            },
        };
        let ghost before = out@;
        out.push(m);
        proof {
            assert(members_view(out@) =~= members_view(before).push(m@));
        }
        i += 1;
    }
    assert(iv.take(i as int) =~= iv);
    Some(out)
}

/// Reads the peers from the control interface's `peer -o json` output.
pub fn parse_peers(output: &[u8]) -> (r: Option<Vec<EasyTierMember>>)
    ensures
        match r {
            Some(v) => peers_of(output@) == Some(members_view(v@)),
            None => peers_of(output@) is None,
        },
{
    let text = match utf8_text(output) {
        Some(t) => t,
        None => {
            return None;
        },
    };
    let value = match decode_json_text(text.as_str()) {
        Ok(v) => v,
        Err(_) => {
            return None;
        },
    };
    peers_from_json(&value)
}

/// Reads the peers from a `peer -o json` output already decoded to `value`.
#[verifier::spinoff_prover]
pub fn peers_from_json(value: &Json) -> (r: Option<Vec<EasyTierMember>>)
    ensures
        match r {
            Some(v) => peers_in_value(value@) == Some(members_view(v@)),
            None => peers_in_value(value@) is None,
        },
{
    match value {
        Json::Array(items) => {
            assert(value@ == JsonV::Array(json_seq_view(items@)));
            members_from_items(items)
        },
        _ => {
            assert(!(value@ is Array));
            None
        },
    }
}

/// A list whose prefix lists no peer lists none.
proof fn lemma_members_of_prefix(items: Seq<JsonV>, k: int)
    requires
        0 <= k <= items.len(),
        members_of(items.take(k)) is None,
    ensures
        members_of(items) is None,
    decreases items.len() - k,
{
    if k < items.len() {
        assert(items.take(k + 1).drop_last() =~= items.take(k));
        lemma_members_of_prefix(items, k + 1);
    } else {
        assert(items.take(k) =~= items);
    }
}

/// The host name prefix of a host's overlay node.
pub open spec fn server_prefix() -> Seq<char> {
    "scaffolding-mc-server-"@
}

/// The NAT type of the first local peer.
pub open spec fn local_nat_of(ms: Seq<MemberV>) -> Option<NatType>
    decreases ms.len(),
{
    if ms.len() == 0 {
        None
    } else if ms[0].is_local {
        Some(ms[0].nat)
    } else {
        local_nat_of(ms.drop_first())
    }
}

/// The scaffolding server a peer announces: a remote peer with an address
/// whose host name is the prefix and a port.
pub open spec fn announced_server(m: MemberV) -> Option<(Ipv4, u16, NatType)> {
    if m.address is Some && !m.is_local && m.hostname.len() >= server_prefix().len()
        && m.hostname.take(server_prefix().len() as int) == server_prefix() {
        match u16_from_text(m.hostname.skip(server_prefix().len() as int)) {
            Some(port) => Some((m.address->0, port, m.nat)),
            None => None,
        }
    } else {
        None
    }
}

/// The first scaffolding server the peers announce.
pub open spec fn server_of(ms: Seq<MemberV>) -> Option<(Ipv4, u16, NatType)>
    decreases ms.len(),
{
    if ms.len() == 0 {
        None
    } else if announced_server(ms[0]) is Some {
        announced_server(ms[0])
    } else {
        server_of(ms.drop_first())
    }
}

/// Where a guest finds the host's scaffolding server, and the NAT types of
/// both ends.
#[derive(Debug, Clone, Copy, PartialEq, Eq, Structural)]
pub struct ScaffoldingPeer {
    pub address: Ipv4,
    pub port: u16,
    pub local_nat: NatType,
    pub server_nat: NatType,
}

/// The scaffolding server a peer announces.
fn server_of_member(m: &EasyTierMember) -> (r: Option<(Ipv4, u16, NatType)>)
    ensures
        r == announced_server(m@),
{
    let address = match m.address {
        Some(a) => a,
        None => {
            return None;
        },
    };
    if m.is_local {
        return None;
    }
    let cs = crate::text::chars_of(m.hostname.as_str());
    let prefix = crate::text::chars_of("scaffolding-mc-server-");
    if cs.len() < prefix.len() {
        return None;
    }
    let mut k: usize = 0;
    while k < prefix.len()
        invariant
            cs@ == m.hostname@,
            prefix@ == server_prefix(),
            prefix.len() <= cs.len(),
            0 <= k <= prefix.len(),
            forall|j: int| 0 <= j < k ==> cs@[j] == prefix@[j],
        decreases prefix.len() - k,
    {
        if cs[k] != prefix[k] {
            assert(cs@.take(prefix.len() as int)[k as int] != prefix@[k as int]);
            return None;
        }
        k += 1;
    }
    assert(cs@.take(prefix.len() as int) =~= prefix@);
    let mut rest: Vec<char> = Vec::new();
    let mut j: usize = prefix.len();
    while j < cs.len()
        invariant
            prefix.len() <= j <= cs.len(),
            rest@ == cs@.subrange(prefix.len() as int, j as int),
        decreases cs.len() - j,
    {
        rest.push(cs[j]);
        j += 1;
        assert(rest@ =~= cs@.subrange(prefix.len() as int, j as int));
    }
    assert(rest@ =~= cs@.skip(prefix.len() as int));
    let text = crate::text::string_of(&rest);
    match parse_u16(text.as_str()) {
        Some(port) => Some((address, port, m.nat)),
        None => None,
    }
}

/// The NAT type of the first local peer.
fn local_nat(players: &Vec<EasyTierMember>) -> (r: Option<NatType>)
    ensures
        r == local_nat_of(members_view(players@)),
{
    let ghost ms = members_view(players@);
    assert(ms.skip(0) =~= ms);
    let mut i: usize = 0;
    while i < players.len()
        invariant
            ms == members_view(players@),
            0 <= i <= players.len(),
            local_nat_of(ms) == local_nat_of(ms.skip(i as int)),
        decreases players.len() - i,
    {
        assert(ms.skip(i as int)[0] == players@[i as int]@);
        assert(ms.skip(i as int).drop_first() =~= ms.skip(i + 1));
        if players[i].is_local {
            return Some(players[i].nat);
        }
        i += 1;
    }
    assert(ms.skip(i as int).len() == 0);
    None
}

/// The first scaffolding server the peers announce.
fn first_server(players: &Vec<EasyTierMember>) -> (r: Option<(Ipv4, u16, NatType)>)
    ensures
        r == server_of(members_view(players@)),
{
    let ghost ms = members_view(players@);
    assert(ms.skip(0) =~= ms);
    let mut k: usize = 0;
    while k < players.len()
        invariant
            ms == members_view(players@),
            0 <= k <= players.len(),
            server_of(ms) == server_of(ms.skip(k as int)),
        decreases players.len() - k,
    {
        assert(ms.skip(k as int)[0] == players@[k as int]@);
        assert(ms.skip(k as int).drop_first() =~= ms.skip(k + 1));
        let found = server_of_member(&players[k]);
        if found.is_some() {
            return found;
        }
        k += 1;
    }
    assert(ms.skip(k as int).len() == 0);
    None
}

/// Finds the local NAT type and the first announced scaffolding server;
/// `None` where either is missing.
pub fn find_scaffolding_server(players: &Vec<EasyTierMember>) -> (r: Option<ScaffoldingPeer>)
    ensures
        match (local_nat_of(members_view(players@)), server_of(members_view(players@))) {
            (Some(l), Some((a, p, n))) => r == Some(
                ScaffoldingPeer { address: a, port: p, local_nat: l, server_nat: n },
            ),
            _ => r is None,
        },
{
    match (local_nat(players), first_server(players)) {
        (Some(l), Some((a, p, n))) => Some(
            ScaffoldingPeer { address: a, port: p, local_nat: l, server_nat: n },
        ),
        _ => None,
    }
}

/// How many rounds of `port-forward add` commands are tried.
pub const FORWARD_ROUNDS: u32 = 3;

/// What follows a round of `port-forward add` commands.
pub enum ForwardStep {
    /// Every forwarding was added.
    Done,
    /// Wait `delay_ms`, then run the commands of `pending` again.
    Retry { pending: Vec<PortForward>, delay_ms: u64 },
    /// Wait `delay_ms`, then give up: `pending` were not added.
    GiveUp { pending: Vec<PortForward>, delay_ms: u64 },
}

/// `s` without its element at `i`, the last one moved into its place.
pub open spec fn swap_removed<T>(s: Seq<T>, i: int) -> Seq<T> {
    s.update(i, s.last()).drop_last()
}

/// The forwardings still pending after the first `n` results were looked
/// at from the back: each one whose command succeeded is swap-removed.
pub open spec fn sweep_forwards(s: Seq<PortForward>, ok: Seq<bool>, n: int) -> Seq<PortForward>
    decreases n,
{
    if n <= 0 {
        s
    } else {
        sweep_forwards(
            if ok[n - 1] {
                swap_removed(s, n - 1)
            } else {
                s
            },
            ok,
            n - 1,
        )
    }
}

/// The wait after round `round` (from 0) before the next one.
pub open spec fn forward_delay(round: u32) -> u64 {
    (round * 1000 + 500) as u64
}

/// Decides what follows round `round` (from 0) of adding the forwardings
/// `pending`, where `ok[i]` says whether the command for `pending[i]`
/// succeeded: done when every one did; else the ones that failed are tried
/// again after a wait that grows by a second each round, and after the last
/// round they are given up.
pub fn forward_round(pending: &Vec<PortForward>, ok: &Vec<bool>, round: u32) -> (r: ForwardStep)
    requires
        pending@.len() == ok@.len(),
        round < FORWARD_ROUNDS,
    ensures
        ({
            let left = sweep_forwards(pending@, ok@, pending@.len() as int);
            if left.len() == 0 {
                r is Done
            } else if round + 1 < FORWARD_ROUNDS {
                r matches ForwardStep::Retry { pending: p, delay_ms } && p@ == left && delay_ms
                    == forward_delay(round)
            } else {
                r matches ForwardStep::GiveUp { pending: p, delay_ms } && p@ == left && delay_ms
                    == forward_delay(round)
            }
        }),
{
    let mut left: Vec<PortForward> = pending.clone();
    let mut i: usize = pending.len();
    proof {
        assert(left@ =~= pending@);
    }
    while i > 0
        invariant
            pending@.len() == ok@.len(),
            0 <= i <= pending@.len(),
            i <= left@.len(),
            sweep_forwards(left@, ok@, i as int) == sweep_forwards(pending@, ok@, pending@.len() as int),
        decreases i,
    {
        if ok[i - 1] {
            left.swap_remove(i - 1);
        }
        i -= 1;
    }
    let delay_ms: u64 = round as u64 * 1000 + 500;
    if left.len() == 0 {
        ForwardStep::Done
    } else if round + 1 < FORWARD_ROUNDS {
        ForwardStep::Retry { pending: left, delay_ms }
    } else {
        ForwardStep::GiveUp { pending: left, delay_ms }
    }
}

} // verus!
