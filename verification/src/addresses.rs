//! The local addresses a LAN scan listens on.
use vstd::prelude::*;
use crate::net::{IpAddress, Ipv4, Ipv6};

verus! {

broadcast use {vstd::seq_lib::to_multiset_insert, vstd::seq_lib::to_multiset_build};

/// The place of an address in std's order of `IpAddr`: every IPv4 address
/// before every IPv6 one, each by its bytes.
pub open spec fn ip_key(a: IpAddress) -> int {
    match a {
        IpAddress::V4(ip) => ip.a * 0x1000000 + ip.b * 0x10000 + ip.c * 0x100 + ip.d,
        IpAddress::V6(ip) => 0x1_0000_0000 + ip.s0 * 0x1_0000_0000_0000_0000_0000_0000_0000 + ip.s1
            * 0x1_0000_0000_0000_0000_0000_0000 + ip.s2 * 0x1_0000_0000_0000_0000_0000 + ip.s3
            * 0x1_0000_0000_0000_0000 + ip.s4 * 0x1_0000_0000_0000 + ip.s5 * 0x1_0000_0000 + ip.s6
            * 0x1_0000 + ip.s7,
    }
}

/// The order the addresses are listed by is std's: every IPv6 address
/// comes after every IPv4 one, and addresses of one family compare byte by
/// byte (segment by segment), the first difference deciding.
pub proof fn lemma_ip_order(x: Ipv4, y: Ipv4, v: Ipv6, w: Ipv6)
    ensures
        ip_key(IpAddress::V6(v)) > ip_key(IpAddress::V4(x)),
        ip_key(IpAddress::V4(x)) > ip_key(IpAddress::V4(y)) <==> (x.a > y.a || (x.a == y.a && (x.b
            > y.b || (x.b == y.b && (x.c > y.c || (x.c == y.c && x.d > y.d)))))),
        ip_key(IpAddress::V6(v)) > ip_key(IpAddress::V6(w)) <==> (v.s0 > w.s0 || (v.s0 == w.s0 && (
        v.s1 > w.s1 || (v.s1 == w.s1 && (v.s2 > w.s2 || (v.s2 == w.s2 && (v.s3 > w.s3 || (v.s3
            == w.s3 && (v.s4 > w.s4 || (v.s4 == w.s4 && (v.s5 > w.s5 || (v.s5 == w.s5 && (v.s6
            > w.s6 || (v.s6 == w.s6 && v.s7 > w.s7)))))))))))))),
{
}

/// An interface address the scan listens on: not loopback, not
/// unspecified, and not in the overlay network `10.144.144.0/24`.
pub open spec fn listened(a: IpAddress) -> bool {
    match a {
        IpAddress::V4(ip) => !(ip.a == 10 && ip.b == 144 && ip.c == 144) && ip != Ipv4 {
            a: 127,
            b: 0,
            c: 0,
            d: 1,
        } && ip != Ipv4 { a: 0, b: 0, c: 0, d: 0 },
        IpAddress::V6(ip) => ip != crate::net::ipv6_localhost() && ip != crate::net::ipv6_unspecified(),
    }
}

/// The addresses to listen on, before sorting: the listened interface
/// addresses in order, then the unspecified IPv4 and IPv6 addresses.
pub open spec fn candidate_addresses(interfaces: Seq<IpAddress>) -> Seq<IpAddress> {
    interfaces.filter(|a: IpAddress| listened(a)) + seq![
        IpAddress::V4(Ipv4 { a: 0, b: 0, c: 0, d: 0 }),
        IpAddress::V6(crate::net::ipv6_unspecified()),
    ]
}

/// The addresses come from the greatest down.
pub open spec fn sorted_descending(s: Seq<IpAddress>) -> bool {
    forall|i: int, j: int| 0 <= i < j < s.len() ==> ip_key(#[trigger] s[i]) >= ip_key(#[trigger] s[j])
}

fn v4_key(ip: Ipv4) -> (r: u32)
    ensures
        r == ip_key(IpAddress::V4(ip)),
{
    (ip.a as u32) * 0x1000000 + (ip.b as u32) * 0x10000 + (ip.c as u32) * 0x100 + (ip.d as u32)
}

fn v6_key(ip: Ipv6) -> (r: u128)
    ensures
        r + 0x1_0000_0000 == ip_key(IpAddress::V6(ip)),
{
    (ip.s0 as u128) * 0x1_0000_0000_0000_0000_0000_0000_0000 + (ip.s1 as u128)
        * 0x1_0000_0000_0000_0000_0000_0000 + (ip.s2 as u128) * 0x1_0000_0000_0000_0000_0000 + (
    ip.s3 as u128) * 0x1_0000_0000_0000_0000 + (ip.s4 as u128) * 0x1_0000_0000_0000 + (ip.s5 as u128)
        * 0x1_0000_0000 + (ip.s6 as u128) * 0x1_0000 + (ip.s7 as u128)
}

/// Whether `a` comes after `b` in std's order.
pub fn ip_after(a: IpAddress, b: IpAddress) -> (r: bool)
    ensures
        r == (ip_key(a) > ip_key(b)),
{
    match (a, b) {
        (IpAddress::V4(x), IpAddress::V4(y)) => v4_key(x) > v4_key(y),
        (IpAddress::V6(x), IpAddress::V6(y)) => v6_key(x) > v6_key(y),
        (IpAddress::V6(x), IpAddress::V4(y)) => {
            let _ = v4_key(y);
            let _ = v6_key(x);
            true
        },
        (IpAddress::V4(x), IpAddress::V6(y)) => {
            let _ = v4_key(x);
            let _ = v6_key(y);
            false
        },
    }
}

/// Whether the scan listens on an interface address.
pub fn is_listened(a: IpAddress) -> (r: bool)
    ensures
        r == listened(a),
{
    match a {
        IpAddress::V4(ip) => !(ip.a == 10 && ip.b == 144 && ip.c == 144) && ip != Ipv4 {
            a: 127,
            b: 0,
            c: 0,
            d: 1,
        } && ip != Ipv4 { a: 0, b: 0, c: 0, d: 0 },
        IpAddress::V6(ip) => ip != Ipv6::localhost() && ip != Ipv6::unspecified(),
    }
}

/// The addresses a LAN scan listens on: the listened interface addresses
/// and the unspecified ones, from the greatest down.
pub fn select_addresses(interfaces: &Vec<IpAddress>) -> (r: Vec<IpAddress>)
    ensures
        sorted_descending(r@),
        r@.to_multiset() == candidate_addresses(interfaces@).to_multiset(),
        forall|ip: Ipv6|
            interfaces@.contains(IpAddress::V6(ip)) && ip != (Ipv6 {
                s0: 0,
                s1: 0,
                s2: 0,
                s3: 0,
                s4: 0,
                s5: 0,
                s6: 0,
                s7: 1,
            }) ==> #[trigger] r@.contains(IpAddress::V6(ip)),
        forall|ip: Ipv4|
            interfaces@.contains(IpAddress::V4(ip)) && !(ip.a == 10 && ip.b == 144 && ip.c == 144)
                && ip != (Ipv4 { a: 127, b: 0, c: 0, d: 1 }) ==> #[trigger] r@.contains(
                IpAddress::V4(ip),
            ),
        !r@.contains(
            IpAddress::V6(
                (Ipv6 { s0: 0, s1: 0, s2: 0, s3: 0, s4: 0, s5: 0, s6: 0, s7: 1 }),
            ),
        ),
        !r@.contains(IpAddress::V4((Ipv4 { a: 127, b: 0, c: 0, d: 1 }))),
        forall|ip: Ipv4|
            ip.a == 10 && ip.b == 144 && ip.c == 144 ==> !#[trigger] r@.contains(IpAddress::V4(ip)),
        r@.contains(IpAddress::V4((Ipv4 { a: 0, b: 0, c: 0, d: 0 }))),
        r@.contains(
            IpAddress::V6((Ipv6 { s0: 0, s1: 0, s2: 0, s3: 0, s4: 0, s5: 0, s6: 0, s7: 0 })),
        ),
        forall|a: IpAddress|
            #[trigger] r@.contains(a) ==> interfaces@.contains(a) || a == IpAddress::V4(
                (Ipv4 { a: 0, b: 0, c: 0, d: 0 }),
            ) || a == IpAddress::V6(
                (Ipv6 { s0: 0, s1: 0, s2: 0, s3: 0, s4: 0, s5: 0, s6: 0, s7: 0 }),
            ),
{
    let mut candidates: Vec<IpAddress> = Vec::new();
    proof {
        reveal(Seq::filter);
        assert(interfaces@.take(0).filter(|a: IpAddress| listened(a)) =~= Seq::<IpAddress>::empty());
    }
    let mut i: usize = 0;
    while i < interfaces.len()
        invariant
            0 <= i <= interfaces.len(),
            candidates@ == interfaces@.take(i as int).filter(|a: IpAddress| listened(a)),
        decreases interfaces.len() - i,
    {
        proof {
            let t = interfaces@.take(i + 1);
            assert(t.drop_last() =~= interfaces@.take(i as int));
            assert(t.last() == interfaces@[i as int]);
            reveal(Seq::filter);
            assert(t =~= interfaces@.take(i as int).push(interfaces@[i as int]));
        }
        if is_listened(interfaces[i]) {
            candidates.push(interfaces[i]);
        }
        i += 1;
    }
    assert(interfaces@.take(i as int) =~= interfaces@);
    candidates.push(IpAddress::V4(Ipv4::unspecified()));
    candidates.push(IpAddress::V6(Ipv6::unspecified()));
    assert(candidates@ =~= candidate_addresses(interfaces@));
    let mut out: Vec<IpAddress> = Vec::new();
    proof {
        assert(candidates@.take(0) =~= Seq::<IpAddress>::empty());
        assert(out@ =~= Seq::<IpAddress>::empty());
    }
    let mut k: usize = 0;
    while k < candidates.len()
        invariant
            0 <= k <= candidates.len(),
            sorted_descending(out@),
            out@.to_multiset() == candidates@.take(k as int).to_multiset(),
        decreases candidates.len() - k,
    {
        let x = candidates[k];
        let ghost os = out@;
        let mut pos: usize = 0;
        while pos < out.len() && !ip_after(x, out[pos])
            invariant
                os == out@,
                0 <= pos <= out.len(),
                forall|j: int| 0 <= j < pos ==> ip_key(#[trigger] os[j]) >= ip_key(x),
            decreases out.len() - pos,
        {
            pos += 1;
        }
        out.insert(pos, x);
        proof {
            let ns = out@;
            assert(ns =~= os.insert(pos as int, x));
            assert forall|a: int, b: int| 0 <= a < b < ns.len() implies ip_key(#[trigger] ns[a])
                >= ip_key(#[trigger] ns[b]) by {
                if a < pos && b < pos {
                    assert(ns[a] == os[a] && ns[b] == os[b]);
                } else if a < pos && b == pos {
                    assert(ns[a] == os[a]);
                } else if a < pos {
                    assert(ns[a] == os[a] && ns[b] == os[b - 1]);
                } else if a == pos {
                    assert(ns[b] == os[b - 1]);
                    assert(ip_key(x) > ip_key(os[pos as int]));
                    assert(ip_key(os[pos as int]) >= ip_key(os[b - 1]));
                } else {
                    assert(ns[a] == os[a - 1] && ns[b] == os[b - 1]);
                }
            }
            assert(candidates@.take(k + 1) =~= candidates@.take(k as int).push(x));
        }
        k += 1;
    }
    assert(candidates@.take(k as int) =~= candidates@);
    proof {
        assert forall|a: IpAddress| #[trigger] out@.contains(a) <==> (interfaces@.contains(a)
            && listened(a)) || a == IpAddress::V4(Ipv4 { a: 0, b: 0, c: 0, d: 0 }) || a
            == IpAddress::V6(crate::net::ipv6_unspecified()) by {
            lemma_candidates_contain(interfaces@, a);
            out@.to_multiset_ensures();
            candidate_addresses(interfaces@).to_multiset_ensures();
            assert(out@.to_multiset() == candidate_addresses(interfaces@).to_multiset());
            assert(out@.contains(a) <==> out@.to_multiset().count(a) > 0);
            assert(candidate_addresses(interfaces@).contains(a) <==> candidate_addresses(
                interfaces@,
            ).to_multiset().count(a) > 0);
        }
    }
    out
}

/// What the candidates hold: the listened interface addresses and the two
/// unspecified ones.
proof fn lemma_candidates_contain(interfaces: Seq<IpAddress>, a: IpAddress)
    ensures
        candidate_addresses(interfaces).contains(a) <==> (interfaces.contains(a) && listened(a))
            || a == IpAddress::V4(Ipv4 { a: 0, b: 0, c: 0, d: 0 }) || a == IpAddress::V6(
            crate::net::ipv6_unspecified(),
        ),
{
    let f = interfaces.filter(|x: IpAddress| listened(x));
    let tail = seq![
        IpAddress::V4(Ipv4 { a: 0, b: 0, c: 0, d: 0 }),
        IpAddress::V6(crate::net::ipv6_unspecified()),
    ];
    let c = candidate_addresses(interfaces);
    assert(c == f + tail);
    if c.contains(a) {
        let i = choose|i: int| 0 <= i < c.len() && c[i] == a;
        if i < f.len() {
            assert(f[i] == a);
            interfaces.lemma_filter_pred(|x: IpAddress| listened(x), i);
            interfaces.lemma_filter_contains_rev(|x: IpAddress| listened(x), a);
        } else {
            assert(tail[i - f.len()] == a);
        }
    }
    if interfaces.contains(a) && listened(a) {
        let i = choose|i: int| 0 <= i < interfaces.len() && interfaces[i] == a;
        interfaces.lemma_filter_contains(|x: IpAddress| listened(x), i);
        let j = choose|j: int| 0 <= j < f.len() && f[j] == a;
        assert(c[j] == a);
    }
    if a == IpAddress::V4(Ipv4 { a: 0, b: 0, c: 0, d: 0 }) {
        assert(c[f.len() as int] == a);
    }
    if a == IpAddress::V6(crate::net::ipv6_unspecified()) {
        assert(c[f.len() as int + 1] == a);
    }
}

} // verus!
