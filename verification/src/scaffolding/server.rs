//! Frames of the scaffolding protocol.
//!
//! A request is one byte holding the length of its kind, the kind
//! (`namespace:path` in UTF-8), the body's length as four big-endian bytes,
//! and the body. A response is the status byte, the payload's length as
//! four big-endian bytes, and the payload.
use vstd::prelude::*;
use vstd::string::StrSliceExecFns;
use vstd::utf8::{decode_utf8, encode_utf8, valid_utf8};
use crate::json::utf8_text;
use crate::scaffolding::{handler_error_text, HandlerError, PacketResponse, ERROR_STATUS};
use crate::room::be_value;
use crate::text::{chars_of, string_of};

verus! {

broadcast use {vstd::utf8::encode_utf8_decode_utf8, vstd::utf8::encode_utf8_valid_utf8};

/// The four big-endian bytes of `n`.
pub open spec fn be32(n: u32) -> Seq<u8> {
    seq![
        (n / 0x1000000) as u8,
        ((n / 0x10000) % 256) as u8,
        ((n / 256) % 256) as u8,
        (n % 256) as u8,
    ]
}

/// The number four big-endian bytes hold.
pub open spec fn be32_value(b: Seq<u8>) -> nat {
    (b[0] * 0x1000000 + b[1] * 0x10000 + b[2] * 256 + b[3]) as nat
}

pub proof fn lemma_be32_value(n: u32)
    ensures
        be32_value(be32(n)) == n,
{
}

/// The length field is big-endian: read most significant byte first, the
/// four bytes of `n` give `n` back.
pub proof fn lemma_be32_is_big_endian(n: u32)
    ensures
        be32(n).len() == 4,
        be_value(be32(n)) == n,
{
    let b = be32(n);
    let x0: u32 = n / 0x1000000;
    let x1: u32 = (n / 0x10000) % 256;
    let x2: u32 = (n / 256) % 256;
    let x3: u32 = n % 256;
    assert(x0 < 256 && ((x0 * 256 + x1) * 256 + x2) * 256 + x3 == n) by (bit_vector)
        requires
            x0 == n / 0x1000000,
            x1 == (n / 0x10000) % 256,
            x2 == (n / 256) % 256,
            x3 == n % 256,
    ;
    assert(b[0] == x0 && b[1] == x1 && b[2] == x2 && b[3] == x3);
    assert(b.drop_last() =~= seq![b[0], b[1], b[2]]);
    assert(b.drop_last().drop_last() =~= seq![b[0], b[1]]);
    assert(b.drop_last().drop_last().drop_last() =~= seq![b[0]]);
    assert(b.drop_last().drop_last().drop_last().drop_last() =~= Seq::<u8>::empty());
    reveal_with_fuel(be_value, 5);
}

/// Four bytes are read as a big-endian number, most significant first.
pub proof fn lemma_be32_value_is_big_endian(b: Seq<u8>)
    requires
        b.len() == 4,
    ensures
        be32_value(b) == be_value(b),
{
    assert(b.drop_last() =~= seq![b[0], b[1], b[2]]);
    assert(b.drop_last().drop_last() =~= seq![b[0], b[1]]);
    assert(b.drop_last().drop_last().drop_last() =~= seq![b[0]]);
    assert(b.drop_last().drop_last().drop_last().drop_last() =~= Seq::<u8>::empty());
    reveal_with_fuel(be_value, 5);
    assert(be_value(b) == ((b[0] as nat * 256 + b[1] as nat) * 256 + b[2] as nat) * 256 + b[3] as nat);
}

/// `out` followed by the bytes of `b`.
pub fn push_bytes(out: &mut Vec<u8>, b: &[u8])
    ensures
        final(out)@ == old(out)@ + b@,
{
    let mut i: usize = 0;
    while i < b.len()
        invariant
            0 <= i <= b.len(),
            out@ == old(out)@ + b@.take(i as int),
        decreases b.len() - i,
    {
        out.push(b[i]);
        i += 1;
        assert(b@.take(i as int) =~= b@.take(i - 1).push(b@[i - 1]));
    }
    assert(b@.take(b.len() as int) =~= b@);
}

/// Appends the big-endian bytes of `n`.
pub fn push_be32(out: &mut Vec<u8>, n: u32)
    ensures
        final(out)@ == old(out)@ + be32(n),
{
    out.push((n / 0x1000000) as u8);
    out.push(((n / 0x10000) % 256) as u8);
    out.push(((n / 256) % 256) as u8);
    out.push((n % 256) as u8);
    assert(out@ =~= old(out)@ + be32(n));
}

/// The number four big-endian bytes hold.
pub fn read_be32(b: &[u8]) -> (r: u32)
    requires
        b@.len() == 4,
    ensures
        r == be32_value(b@),
{
    (b[0] as u32) * 0x1000000 + (b[1] as u32) * 0x10000 + (b[2] as u32) * 256 + (b[3] as u32)
}

/// `i` is the place of the only `:` in `s`.
pub open spec fn single_colon_at(s: Seq<char>, i: int) -> bool {
    &&& 0 <= i < s.len()
    &&& s[i] == ':'
    &&& forall|j: int| 0 <= j < s.len() && j != i ==> s[j] != ':'
}

/// The two sides of a kind with exactly one `:`.
pub open spec fn split_kind(s: Seq<char>) -> Option<(Seq<char>, Seq<char>)> {
    if exists|i: int| single_colon_at(s, i) {
        let i = choose|i: int| single_colon_at(s, i);
        Some((s.take(i), s.skip(i + 1)))
    } else {
        None
    }
}

/// The namespace and path a request's kind bytes name, if they are UTF-8
/// with exactly one `:`.
pub open spec fn kind_of(bytes: Seq<u8>) -> Option<(Seq<char>, Seq<char>)> {
    if valid_utf8(bytes) {
        split_kind(decode_utf8(bytes))
    } else {
        None
    }
}

/// The text of a kind.
pub open spec fn kind_text(namespace: Seq<char>, path: Seq<char>) -> Seq<char> {
    namespace + seq![':'] + path
}

proof fn lemma_single_colon_unique(s: Seq<char>, i: int, j: int)
    requires
        single_colon_at(s, i),
        single_colon_at(s, j),
    ensures
        i == j,
{
}

/// A kind built from two sides without `:` splits back into them.
pub proof fn lemma_split_kind_text(namespace: Seq<char>, path: Seq<char>)
    requires
        !namespace.contains(':'),
        !path.contains(':'),
    ensures
        split_kind(kind_text(namespace, path)) == Some((namespace, path)),
{
    let s = kind_text(namespace, path);
    let n = namespace.len() as int;
    assert forall|j: int| 0 <= j < s.len() && j != n implies s[j] != ':' by {
        if j < n {
            assert(s[j] == namespace[j]);
        } else {
            assert(s[j] == path[j - n - 1]);
        }
    }
    assert(single_colon_at(s, n));
    let i = choose|i: int| single_colon_at(s, i);
    lemma_single_colon_unique(s, i, n);
    assert(s.take(n) =~= namespace);
    assert(s.skip(n + 1) =~= path);
}

/// The characters `s[from..to]` as a `String`.
fn string_of_range(s: &Vec<char>, from: usize, to: usize) -> (r: String)
    requires
        from <= to <= s@.len(),
    ensures
        r@ == s@.subrange(from as int, to as int),
{
    let mut out: Vec<char> = Vec::new();
    let mut i: usize = from;
    while i < to
        invariant
            from <= i <= to <= s@.len(),
            out@ == s@.subrange(from as int, i as int),
        decreases to - i,
    {
        out.push(s[i]);
        i += 1;
        assert(out@ =~= s@.subrange(from as int, i as int));
    }
    string_of(&out)
}

/// Splits a request's kind into namespace and path: the bytes must be
/// UTF-8 holding exactly one `:`.
pub fn parse_kind(kind: &[u8]) -> (r: Option<(String, String)>)
    ensures
        match r {
            Some((a, b)) => kind_of(kind@) == Some((a@, b@)),
            None => kind_of(kind@) is None,
        },
{
    let text = match utf8_text(kind) {
        Some(t) => t,
        None => {
            return None;
        },
    };
    let cs = chars_of(text.as_str());
    let ghost s = cs@;
    let mut colons: usize = 0;
    let mut at: usize = 0;
    let mut i: usize = 0;
    while i < cs.len()
        invariant
            s == cs@,
            0 <= i <= cs.len(),
            colons <= i,
            colons == 0 ==> forall|j: int| 0 <= j < i ==> s[j] != ':',
            colons == 1 ==> at < i && s[at as int] == ':' && forall|j: int|
                0 <= j < i && j != at ==> s[j] != ':',
            colons >= 2 ==> exists|j: int, k: int|
                0 <= j < k < i && s[j] == ':' && s[k] == ':',
        decreases cs.len() - i,
    {
        if cs[i] == ':' {
            if colons == 0 {
                at = i;
                colons = 1;
            } else {
                if colons == 1 {
                    assert(at < i && s[at as int] == ':' && s[i as int] == ':');
                }
                colons = 2;
            }
        }
        i += 1;
    }
    if colons != 1 {
        proof {
            if exists|w: int| single_colon_at(s, w) {
                let w = choose|w: int| single_colon_at(s, w);
                if colons == 0 {
                    assert(s[w] != ':');
                } else {
                    let (j, k) = choose|j: int, k: int| 0 <= j < k < i && s[j] == ':' && s[k]
                        == ':';
                    assert(j == w || s[j] != ':');
                    assert(k == w || s[k] != ':');
                }
            }
        }
        return None;
    }
    let a = string_of_range(&cs, 0, at);
    let b = string_of_range(&cs, at + 1, cs.len());
    proof {
        assert(single_colon_at(s, at as int));
        let w = choose|w: int| single_colon_at(s, w);
        lemma_single_colon_unique(s, w, at as int);
        assert(s.take(at as int) =~= s.subrange(0, at as int));
        assert(s.skip(at + 1) =~= s.subrange(at + 1, s.len() as int));
    }
    Some((a, b))
}

/// A request as sent: the length of the kind, the kind, the body's length,
/// the body.
pub open spec fn request_frame(namespace: Seq<char>, path: Seq<char>, body: Seq<u8>) -> Seq<u8> {
    let k = encode_utf8(kind_text(namespace, path));
    seq![k.len() as u8] + k + be32(body.len() as u32) + body
}

/// The request a frame holds, if it holds exactly one.
pub open spec fn request_of(frame: Seq<u8>) -> Option<(Seq<char>, Seq<char>, Seq<u8>)> {
    if frame.len() < 1 {
        None
    } else {
        let n = frame[0] as int;
        if frame.len() < 5 + n {
            None
        } else {
            match kind_of(frame.subrange(1, 1 + n)) {
                Some((a, b)) => if frame.len() == 5 + n + be32_value(frame.subrange(1 + n, 5 + n)) {
                    Some((a, b, frame.skip(5 + n)))
                } else {
                    None
                },
                None => None,
            }
        }
    }
}

/// Frames a request; `None` where the kind is longer than 255 bytes or the
/// body longer than `u32::MAX` bytes.
pub fn encode_request(namespace: &str, path: &str, body: &[u8]) -> (r: Option<Vec<u8>>)
    ensures
        r is Some <==> encode_utf8(kind_text(namespace@, path@)).len() <= 255 && body@.len()
            <= u32::MAX,
        r matches Some(f) ==> f@ == request_frame(namespace@, path@, body@),
{
    let mut kind: Vec<char> = Vec::new();
    crate::text::push_text(&mut kind, namespace);
    kind.push(':');
    crate::text::push_text(&mut kind, path);
    assert(kind@ =~= kind_text(namespace@, path@));
    let kind_string = string_of(&kind);
    let kind_bytes = kind_string.as_str().as_bytes_vec();
    if kind_bytes.len() > 255 || body.len() > 0xffff_ffff {
        return None;
    }
    let mut out: Vec<u8> = Vec::new();
    out.push(kind_bytes.len() as u8);
    push_bytes(&mut out, kind_bytes.as_slice());
    push_be32(&mut out, body.len() as u32);
    push_bytes(&mut out, body);
    Some(out)
}

/// Reads a whole request frame.
pub fn decode_request(frame: &[u8]) -> (r: Option<(String, String, Vec<u8>)>)
    ensures
        match r {
            Some((a, b, body)) => request_of(frame@) == Some((a@, b@, body@)),
            None => request_of(frame@) is None,
        },
{
    if frame.len() < 1 {
        return None;
    }
    let n = frame[0] as usize;
    if frame.len() < 5 + n {
        return None;
    }
    let kind = vstd::slice::slice_subrange(frame, 1, 1 + n);
    let (a, b) = match parse_kind(kind) {
        Some(p) => p,
        None => {
            return None;
        },
    };
    let m = read_be32(vstd::slice::slice_subrange(frame, 1 + n, 5 + n));
    if frame.len() - (5 + n) != m as usize {
        return None;
    }
    let body = vstd::slice::slice_to_vec(vstd::slice::slice_subrange(frame, 5 + n, frame.len()));
    assert(body@ =~= frame@.skip(5 + n));
    Some((a, b, body))
}

/// A request frame reads back as what was framed, where neither side of
/// the kind holds a `:`.
pub proof fn lemma_request_round_trip(namespace: Seq<char>, path: Seq<char>, body: Seq<u8>)
    requires
        !namespace.contains(':'),
        !path.contains(':'),
        encode_utf8(kind_text(namespace, path)).len() <= 255,
        body.len() <= u32::MAX,
    ensures
        request_of(request_frame(namespace, path, body)) == Some((namespace, path, body)),
{
    let k = encode_utf8(kind_text(namespace, path));
    let f = request_frame(namespace, path, body);
    let n = k.len() as int;
    assert(f[0] == k.len() as u8);
    assert(f.subrange(1, 1 + n) =~= k);
    lemma_split_kind_text(namespace, path);
    assert(f.subrange(1 + n, 5 + n) =~= be32(body.len() as u32));
    lemma_be32_value(body.len() as u32);
    assert(f.skip(5 + n) =~= body);
}

/// A response frame with the payload's length, taken modulo 2^32 as the
/// length field holds it.
pub open spec fn response_frame(status: u8, payload: Seq<u8>) -> Seq<u8> {
    seq![status] + be32((payload.len() % 0x1_0000_0000) as u32) + payload
}

/// The status and payload a handler's result is answered with.
pub open spec fn answer_of(r: Result<PacketResponse, HandlerError>) -> (u8, Seq<u8>) {
    match r {
        Ok(PacketResponse::Success { data }) => (0, data@),
        Ok(PacketResponse::Fail { status, data }) => (status, data@),
        Err(e) => (ERROR_STATUS, encode_utf8(handler_error_text(e))),
    }
}

/// Frames a response.
pub fn encode_response(status: u8, payload: &[u8]) -> (r: Vec<u8>)
    ensures
        r@ == response_frame(status, payload@),
{
    let mut out: Vec<u8> = Vec::new();
    out.push(status);
    let len: u32 = (payload.len() as u64 % 0x1_0000_0000) as u32;
    push_be32(&mut out, len);
    push_bytes(&mut out, payload);
    out
}

/// The frame that answers a handler's result: status 0 and the data, the
/// handler's status and data, or status 255 and the error's text.
pub fn respond(result: Result<PacketResponse, HandlerError>) -> (r: Vec<u8>)
    ensures
        r@ == response_frame(answer_of(result).0, answer_of(result).1),
{
    match result {
        Ok(PacketResponse::Success { data }) => encode_response(0, data.as_slice()),
        Ok(PacketResponse::Fail { status, data }) => encode_response(status, data.as_slice()),
        Err(e) => {
            let text = e.text();
            let bytes = text.as_str().as_bytes_vec();
            encode_response(ERROR_STATUS, bytes.as_slice())
        },
    }
}

/// The response a frame holds, if it holds exactly one: status 0 is a
/// success, any other a failure.
pub open spec fn response_of(frame: Seq<u8>) -> Option<(u8, Seq<u8>)> {
    if frame.len() >= 5 && frame.len() == 5 + be32_value(frame.subrange(1, 5)) {
        Some((frame[0], frame.skip(5)))
    } else {
        None
    }
}

/// Reads a whole response frame.
pub fn decode_response(frame: &[u8]) -> (r: Option<PacketResponse>)
    ensures
        match r {
            Some(PacketResponse::Success { data }) => response_of(frame@) == Some((0u8, data@)),
            Some(PacketResponse::Fail { status, data }) => status != 0 && response_of(frame@)
                == Some((status, data@)),
            None => response_of(frame@) is None,
        },
{
    if frame.len() < 5 {
        return None;
    }
    let m = read_be32(vstd::slice::slice_subrange(frame, 1, 5));
    if frame.len() - 5 != m as usize {
        return None;
    }
    let data = vstd::slice::slice_to_vec(vstd::slice::slice_subrange(frame, 5, frame.len()));
    assert(data@ =~= frame@.skip(5));
    if frame[0] == 0 {
        Some(PacketResponse::Success { data })
    } else {
        Some(PacketResponse::Fail { status: frame[0], data })
    }
}

/// A response frame reads back as the status and payload it was made of.
pub proof fn lemma_response_round_trip(status: u8, payload: Seq<u8>)
    requires
        payload.len() <= u32::MAX,
    ensures
        response_of(response_frame(status, payload)) == Some((status, payload)),
{
    let f = response_frame(status, payload);
    assert(f.subrange(1, 5) =~= be32(payload.len() as u32));
    lemma_be32_value(payload.len() as u32);
    assert(f.skip(5) =~= payload);
}

} // verus!
