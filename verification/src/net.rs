//! Plain models of IP and socket addresses, with their text forms.
use vstd::prelude::*;
use crate::text::{decimal, push_decimal, string_of};

verus! {

/// An IPv4 address by its four octets.
#[derive(Debug, Clone, Copy, PartialEq, Eq, Structural)]
pub struct Ipv4 {
    pub a: u8,
    pub b: u8,
    pub c: u8,
    pub d: u8,
}

/// An IPv6 address by its eight 16-bit segments.
#[derive(Debug, Clone, Copy, PartialEq, Eq, Structural)]
pub struct Ipv6 {
    pub s0: u16,
    pub s1: u16,
    pub s2: u16,
    pub s3: u16,
    pub s4: u16,
    pub s5: u16,
    pub s6: u16,
    pub s7: u16,
}

#[derive(Debug, Clone, Copy, PartialEq, Eq, Structural)]
pub enum IpAddress {
    V4(Ipv4),
    V6(Ipv6),
}

/// A socket address; an IPv6 one has flow info and scope id zero.
#[derive(Debug, Clone, Copy, PartialEq, Eq, Structural)]
#[allow(inconsistent_fields)]
pub enum SocketAddress {
    V4 { ip: Ipv4, port: u16 },
    V6 { ip: Ipv6, port: u16 },
}

impl Ipv4 {
    pub fn new(a: u8, b: u8, c: u8, d: u8) -> (r: Ipv4)
        ensures
            r == (Ipv4 { a, b, c, d }),
    {
        Ipv4 { a, b, c, d }
    }

    pub fn unspecified() -> (r: Ipv4)
        ensures
            r == (Ipv4 { a: 0, b: 0, c: 0, d: 0 }),
    {
        Ipv4 { a: 0, b: 0, c: 0, d: 0 }
    }

    pub fn localhost() -> (r: Ipv4)
        ensures
            r == (Ipv4 { a: 127, b: 0, c: 0, d: 1 }),
    {
        Ipv4 { a: 127, b: 0, c: 0, d: 1 }
    }
}

impl Ipv6 {
    pub fn unspecified() -> (r: Ipv6)
        ensures
            r == ipv6_unspecified(),
    {
        Ipv6 { s0: 0, s1: 0, s2: 0, s3: 0, s4: 0, s5: 0, s6: 0, s7: 0 }
    }

    pub fn localhost() -> (r: Ipv6)
        ensures
            r == ipv6_localhost(),
    {
        Ipv6 { s0: 0, s1: 0, s2: 0, s3: 0, s4: 0, s5: 0, s6: 0, s7: 1 }
    }
}

pub open spec fn ipv6_unspecified() -> Ipv6 {
    Ipv6 { s0: 0, s1: 0, s2: 0, s3: 0, s4: 0, s5: 0, s6: 0, s7: 0 }
}

pub open spec fn ipv6_localhost() -> Ipv6 {
    Ipv6 { s0: 0, s1: 0, s2: 0, s3: 0, s4: 0, s5: 0, s6: 0, s7: 1 }
}

/// Dotted decimal text of an IPv4 address.
pub open spec fn ipv4_text(ip: Ipv4) -> Seq<char> {
    decimal(ip.a as nat) + seq!['.'] + decimal(ip.b as nat) + seq!['.'] + decimal(ip.c as nat)
        + seq!['.'] + decimal(ip.d as nat)
}

/// The text form of a socket address: `a.b.c.d:port` or `[v6]:port`.
pub open spec fn socket_text(a: SocketAddress) -> Seq<char> {
    match a {
        SocketAddress::V4 { ip, port } => ipv4_text(ip) + seq![':'] + decimal(port as nat),
        SocketAddress::V6 { ip, port } => seq!['['] + ipv6_text(ip) + seq![']', ':'] + decimal(
            port as nat,
        ),
    }
}

/// Appends the dotted decimal text of `ip`.
pub fn push_ipv4(out: &mut Vec<char>, ip: Ipv4)
    ensures
        final(out)@ == old(out)@ + ipv4_text(ip),
{
    push_decimal(out, ip.a as u64);
    out.push('.');
    push_decimal(out, ip.b as u64);
    out.push('.');
    push_decimal(out, ip.c as u64);
    out.push('.');
    push_decimal(out, ip.d as u64);
    assert(out@ =~= old(out)@ + ipv4_text(ip));
}

/// The dotted decimal text of `ip` (std's `Display` for `Ipv4Addr`).
pub fn ipv4_to_text(ip: Ipv4) -> (r: String)
    ensures
        r@ == ipv4_text(ip),
{
    let mut cs: Vec<char> = Vec::new();
    push_ipv4(&mut cs, ip);
    assert(cs@ =~= ipv4_text(ip));
    string_of(&cs)
}

/// Appends the text form of a socket address.
pub fn push_socket(out: &mut Vec<char>, a: SocketAddress)
    ensures
        final(out)@ == old(out)@ + socket_text(a),
{
    match a {
        SocketAddress::V4 { ip, port } => {
            push_ipv4(out, ip);
            out.push(':');
            push_decimal(out, port as u64);
        },
        SocketAddress::V6 { ip, port } => {
            out.push('[');
            push_ipv6(out, ip);
            out.push(']');
            out.push(':');
            push_decimal(out, port as u64);
        },
    }
    assert(out@ =~= old(out)@ + socket_text(a));
}

/// The text form of a socket address (std's `Display` for `SocketAddr`).
pub fn socket_to_text(a: SocketAddress) -> (r: String)
    ensures
        r@ == socket_text(a),
{
    let mut cs: Vec<char> = Vec::new();
    push_socket(&mut cs, a);
    assert(cs@ =~= socket_text(a));
    string_of(&cs)
}


/// The segments of an IPv6 address, in order.
pub open spec fn segments(ip: Ipv6) -> Seq<u16> {
    seq![ip.s0, ip.s1, ip.s2, ip.s3, ip.s4, ip.s5, ip.s6, ip.s7]
}

/// The lower-case hexadecimal digit for `d < 16`.
pub open spec fn hex_digit(d: nat) -> char {
    if d < 10 {
        ((48 + d) as u8) as char
    } else {
        ((87 + d) as u8) as char
    }
}

/// Lower-case hexadecimal text of `n` without leading zeros.
pub open spec fn hex(n: nat) -> Seq<char>
    decreases n,
{
    if n < 16 {
        seq![hex_digit(n)]
    } else {
        hex(n / 16).push(hex_digit(n % 16))
    }
}

/// Segments in hexadecimal, separated by `:`.
pub open spec fn join_hex(s: Seq<u16>) -> Seq<char>
    decreases s.len(),
{
    if s.len() == 0 {
        Seq::empty()
    } else if s.len() == 1 {
        hex(s[0] as nat)
    } else {
        join_hex(s.drop_last()) + seq![':'] + hex(s.last() as nat)
    }
}

/// The first longest run of zero segments, scanning from `i` with the
/// current run and the best run found so far: (start, length).
pub open spec fn zero_run(s: Seq<u16>, i: nat, cs: nat, cl: nat, bs: nat, bl: nat) -> (nat, nat)
    decreases s.len() - i,
{
    if i >= s.len() {
        (bs, bl)
    } else if s[i as int] == 0 {
        let ns = if cl == 0 {
            i
        } else {
            cs
        };
        let nl = cl + 1;
        if nl > bl {
            zero_run(s, i + 1, ns, nl, ns, nl)
        } else {
            zero_run(s, i + 1, ns, nl, bs, bl)
        }
    } else {
        zero_run(s, i + 1, 0, 0, bs, bl)
    }
}

/// An IPv4-mapped address `::ffff:a.b.c.d`.
pub open spec fn is_ipv4_mapped(ip: Ipv6) -> bool {
    ip.s0 == 0 && ip.s1 == 0 && ip.s2 == 0 && ip.s3 == 0 && ip.s4 == 0 && ip.s5 == 0xffff
}

pub open spec fn mapped_ipv4(ip: Ipv6) -> Ipv4 {
    Ipv4 {
        a: (ip.s6 / 256) as u8,
        b: (ip.s6 % 256) as u8,
        c: (ip.s7 / 256) as u8,
        d: (ip.s7 % 256) as u8,
    }
}

/// RFC 5952 text of an IPv6 address: lower-case hexadecimal segments, the
/// first longest run of two or more zero segments written as `::`, and an
/// IPv4-mapped address as `::ffff:a.b.c.d`.
pub open spec fn ipv6_text(ip: Ipv6) -> Seq<char> {
    if is_ipv4_mapped(ip) {
        seq![':', ':', 'f', 'f', 'f', 'f', ':'] + ipv4_text(mapped_ipv4(ip))
    } else {
        let s = segments(ip);
        let run = zero_run(s, 0, 0, 0, 0, 0);
        if run.1 > 1 {
            join_hex(s.subrange(0, run.0 as int)) + seq![':', ':'] + join_hex(
                s.subrange((run.0 + run.1) as int, 8),
            )
        } else {
            join_hex(s)
        }
    }
}

proof fn lemma_zero_run_bounds(s: Seq<u16>, i: nat, cs: nat, cl: nat, bs: nat, bl: nat)
    requires
        i <= s.len(),
        cl > 0 ==> cs + cl == i,
        bs + bl <= i,
    ensures
        zero_run(s, i, cs, cl, bs, bl).0 + zero_run(s, i, cs, cl, bs, bl).1 <= s.len(),
    decreases s.len() - i,
{
    if i < s.len() {
        if s[i as int] == 0 {
            let ns = if cl == 0 {
                i
            } else {
                cs
            };
            let nl = cl + 1;
            if nl > bl {
                lemma_zero_run_bounds(s, i + 1, ns, nl, ns, nl);
            } else {
                lemma_zero_run_bounds(s, i + 1, ns, nl, bs, bl);
            }
        } else {
            lemma_zero_run_bounds(s, i + 1, 0, 0, bs, bl);
        }
    }
}

/// Appends the hexadecimal text of `n`.
pub fn push_hex(out: &mut Vec<char>, n: u16)
    ensures
        final(out)@ == old(out)@ + hex(n as nat),
    decreases n,
{
    let d: u16 = n % 16;
    let c: char = if d < 10 {
        ((48 + d) as u8) as char
    } else {
        ((87 + d) as u8) as char
    };
    if n < 16 {
        out.push(c);
    } else {
        push_hex(out, n / 16);
        out.push(c);
        assert(out@ =~= old(out)@ + hex(n as nat));
    }
}

/// Appends segments `from..to` in hexadecimal, separated by `:`.
fn push_join_hex(out: &mut Vec<char>, s: &Vec<u16>, from: usize, to: usize)
    requires
        from <= to <= s.len(),
    ensures
        final(out)@ == old(out)@ + join_hex(s@.subrange(from as int, to as int)),
{
    let mut i: usize = from;
    while i < to
        invariant
            from <= i <= to <= s.len(),
            out@ == old(out)@ + join_hex(s@.subrange(from as int, i as int)),
        decreases to - i,
    {
        let ghost before = out@;
        if i > from {
            out.push(':');
        }
        push_hex(out, s[i]);
        proof {
            let t = s@.subrange(from as int, i + 1);
            assert(t.drop_last() =~= s@.subrange(from as int, i as int));
            if i == from {
                assert(join_hex(s@.subrange(from as int, i as int)) =~= Seq::<char>::empty());
                assert(out@ =~= old(out)@ + join_hex(t));
            } else {
                assert(out@ =~= old(out)@ + join_hex(t));
            }
        }
        i += 1;
    }
}

/// Appends the RFC 5952 text of an IPv6 address.
pub fn push_ipv6(out: &mut Vec<char>, ip: Ipv6)
    ensures
        final(out)@ == old(out)@ + ipv6_text(ip),
{
    if ip.s0 == 0 && ip.s1 == 0 && ip.s2 == 0 && ip.s3 == 0 && ip.s4 == 0 && ip.s5 == 0xffff {
        out.push(':');
        out.push(':');
        out.push('f');
        out.push('f');
        out.push('f');
        out.push('f');
        out.push(':');
        let v4 = Ipv4 {
            a: (ip.s6 / 256) as u8,
            b: (ip.s6 % 256) as u8,
            c: (ip.s7 / 256) as u8,
            d: (ip.s7 % 256) as u8,
        };
        push_ipv4(out, v4);
        assert(out@ =~= old(out)@ + ipv6_text(ip));
        return ;
    }
    let s: Vec<u16> = vec![ip.s0, ip.s1, ip.s2, ip.s3, ip.s4, ip.s5, ip.s6, ip.s7];
    assert(s@ =~= segments(ip));
    let mut i: usize = 0;
    let mut cs: usize = 0;
    let mut cl: usize = 0;
    let mut bs: usize = 0;
    let mut bl: usize = 0;
    while i < 8
        invariant
            s@ == segments(ip),
            i <= 8,
            cl > 0 ==> cs + cl == i,
            cl <= i,
            bs + bl <= i,
            zero_run(s@, 0, 0, 0, 0, 0) == zero_run(s@, i as nat, cs as nat, cl as nat, bs as nat, bl as nat),
        decreases 8 - i,
    {
        if s[i] == 0 {
            if cl == 0 {
                cs = i;
            }
            cl = cl + 1;
            if cl > bl {
                bs = cs;
                bl = cl;
            }
        } else {
            cs = 0;
            cl = 0;
        }
        i += 1;
    }
    if bl > 1 {
        push_join_hex(out, &s, 0, bs);
        out.push(':');
        out.push(':');
        push_join_hex(out, &s, bs + bl, 8);
    } else {
        push_join_hex(out, &s, 0, 8);
        assert(s@.subrange(0, 8) =~= s@);
    }
    assert(out@ =~= old(out)@ + ipv6_text(ip));
}

/// A canonical decimal octet: `0`, or one to three digits without a
/// leading zero, at most 255.
pub open spec fn octet_value(t: Seq<char>) -> Option<u8> {
    if 1 <= t.len() <= 3 && (forall|i: int| 0 <= i < t.len() ==> '0' <= #[trigger] t[i] <= '9')
        && (t.len() == 1 || t[0] != '0') && digits_number(t) <= 255 {
        Some(digits_number(t) as u8)
    } else {
        None
    }
}

/// The number that a run of decimal digits writes.
pub open spec fn digits_number(t: Seq<char>) -> nat
    decreases t.len(),
{
    if t.len() == 0 {
        0
    } else {
        digits_number(t.drop_last()) * 10 + ((t.last() as u32) - 48) as nat
    }
}

/// Position of the first `.` at or after `i`, or the length.
pub open spec fn next_dot(t: Seq<char>, i: nat) -> nat
    decreases t.len() - i,
{
    if i >= t.len() {
        t.len()
    } else if t[i as int] == '.' {
        i
    } else {
        next_dot(t, i + 1)
    }
}

/// An IPv4 address in dotted decimal: exactly four canonical octets
/// separated by `.`, nothing else.
pub open spec fn ipv4_from_text(t: Seq<char>) -> Option<Ipv4> {
    let e0 = next_dot(t, 0);
    let e1 = next_dot(t, e0 + 1);
    let e2 = next_dot(t, e1 + 1);
    if e2 < t.len() && next_dot(t, e2 + 1) == t.len() {
        match (
            octet_value(t.subrange(0, e0 as int)),
            octet_value(t.subrange(e0 + 1 as int, e1 as int)),
            octet_value(t.subrange(e1 + 1 as int, e2 as int)),
            octet_value(t.subrange(e2 + 1 as int, t.len() as int)),
        ) {
            (Some(a), Some(b), Some(c), Some(d)) => Some(Ipv4 { a, b, c, d }),
            _ => None,
        }
    } else {
        None
    }
}

proof fn lemma_next_dot_bounds(t: Seq<char>, i: nat)
    ensures
        next_dot(t, i) <= t.len() || i > t.len(),
        i <= t.len() ==> i <= next_dot(t, i),
        next_dot(t, i) < t.len() ==> t[next_dot(t, i) as int] == '.',
        forall|k: int| i <= k < next_dot(t, i) && k < t.len() ==> t[k] != '.',
    decreases t.len() - i,
{
    if i < t.len() && t[i as int] != '.' {
        lemma_next_dot_bounds(t, i + 1);
    }
}

fn find_dot(t: &Vec<char>, i: usize) -> (r: usize)
    requires
        i <= t.len(),
    ensures
        r == next_dot(t@, i as nat),
        i <= r <= t.len(),
{
    let mut k = i;
    proof {
        lemma_next_dot_bounds(t@, i as nat);
    }
    while k < t.len() && t[k] != '.'
        invariant
            i <= k <= t.len(),
            next_dot(t@, i as nat) == next_dot(t@, k as nat),
        decreases t.len() - k,
    {
        k += 1;
    }
    k
}

fn read_octet(t: &Vec<char>, from: usize, to: usize) -> (r: Option<u8>)
    requires
        from <= to <= t.len(),
    ensures
        r == octet_value(t@.subrange(from as int, to as int)),
{
    let ghost seg = t@.subrange(from as int, to as int);
    let n = to - from;
    if n < 1 || n > 3 {
        return None;
    }
    if n > 1 && t[from] == '0' {
        return None;
    }
    let mut v: u32 = 0;
    let mut k = from;
    while k < to
        invariant
            from <= k <= to <= t.len(),
            to - from <= 3,
            seg == t@.subrange(from as int, to as int),
            forall|i: int| from <= i < k ==> '0' <= #[trigger] t@[i] <= '9',
            v as nat == digits_number(t@.subrange(from as int, k as int)),
            v < 1000,
        decreases to - k,
    {
        let c = t[k];
        if !('0' <= c && c <= '9') {
            assert(!('0' <= seg[k - from] <= '9'));
            return None;
        }
        proof {
            assert(t@.subrange(from as int, k + 1).drop_last() =~= t@.subrange(from as int, k as int));
            assert(digits_number(t@.subrange(from as int, k as int)) < 100) by {
                lemma_digits_small(t@.subrange(from as int, k as int));
            }
        }
        v = v * 10 + ((c as u32) - 48);
        k += 1;
    }
    assert(t@.subrange(from as int, to as int) =~= seg);
    assert forall|i: int| 0 <= i < seg.len() implies '0' <= #[trigger] seg[i] <= '9' by {
        assert(seg[i] == t@[from + i]);
    }
    if v <= 255 {
        Some(v as u8)
    } else {
        None
    }
}

proof fn lemma_digits_small(t: Seq<char>)
    requires
        t.len() <= 2,
        forall|i: int| 0 <= i < t.len() ==> '0' <= #[trigger] t[i] <= '9',
    ensures
        digits_number(t) < 100,
    decreases t.len(),
{
    if t.len() > 0 {
        lemma_digits_small(t.drop_last());
        assert(t.drop_last().len() <= 1);
        if t.drop_last().len() == 1 {
            assert(digits_number(t.drop_last().drop_last()) == 0);
        }
    }
}

/// Reads an IPv4 address in dotted decimal.
pub fn parse_ipv4(text: &str) -> (r: Option<Ipv4>)
    ensures
        r == ipv4_from_text(text@),
{
    let t = crate::text::chars_of(text);
    let e0 = find_dot(&t, 0);
    if e0 >= t.len() {
        return None;
    }
    let e1 = find_dot(&t, e0 + 1);
    if e1 >= t.len() {
        return None;
    }
    let e2 = find_dot(&t, e1 + 1);
    if e2 >= t.len() {
        return None;
    }
    let e3 = find_dot(&t, e2 + 1);
    if e3 != t.len() {
        return None;
    }
    let a = read_octet(&t, 0, e0);
    let b = read_octet(&t, e0 + 1, e1);
    let c = read_octet(&t, e1 + 1, e2);
    let d = read_octet(&t, e2 + 1, t.len());
    match (a, b, c, d) {
        (Some(a), Some(b), Some(c), Some(d)) => Some(Ipv4 { a, b, c, d }),
        _ => None,
    }
}

} // verus!
