//! Small helpers for building and comparing text.
use vstd::prelude::*;

verus! {

/// The characters of `s`, in order.
pub fn chars_of(s: &str) -> (r: Vec<char>)
    ensures
        r@ == s@,
{
    let mut out: Vec<char> = Vec::new();
    for c in it: s.chars()
        invariant
            out@ == it.seq().take(it.index() as int),
            it.seq() == s@,
    {
        out.push(c);
    }
    out
}

/// Collects characters into a `String` (std's `FromIterator<char>` for `String`).
#[verifier::external_body]
pub fn string_of(chars: &Vec<char>) -> (r: String)
    ensures
        r@ == chars@,
{
    chars.iter().collect()
}

/// An owned copy of `s` (std's `str::to_string`).
pub fn owned(s: &str) -> (r: String)
    ensures
        r@ == s@,
{
    s.to_owned()
}

/// Whether two strings hold the same characters.
pub fn same_text(a: &str, b: &str) -> (r: bool)
    ensures
        r == (a@ == b@),
{
    let x = chars_of(a);
    let y = chars_of(b);
    if x.len() != y.len() {
        return false;
    }
    let mut i: usize = 0;
    while i < x.len()
        invariant
            x@ == a@,
            y@ == b@,
            x.len() == y.len(),
            0 <= i <= x.len(),
            forall|j: int| 0 <= j < i ==> x@[j] == y@[j],
        decreases x.len() - i,
    {
        if x[i] != y[i] {
            return false;
        }
        i += 1;
    }
    assert(x@ =~= y@);
    true
}

/// Appends the characters of `s` to `out`.
pub fn push_text(out: &mut Vec<char>, s: &str)
    ensures
        final(out)@ == old(out)@ + s@,
{
    let cs = chars_of(s);
    let mut i: usize = 0;
    while i < cs.len()
        invariant
            cs@ == s@,
            0 <= i <= cs.len(),
            out@ == old(out)@ + cs@.take(i as int),
        decreases cs.len() - i,
    {
        out.push(cs[i]);
        i += 1;
        assert(cs@.take(i as int) =~= cs@.take(i - 1) + seq![cs@[i - 1]]);
    }
    assert(cs@.take(cs.len() as int) =~= cs@);
}

/// The decimal digit character for `d < 10`.
pub open spec fn digit_spec(d: nat) -> char {
    ((48 + d) as u8) as char
}

/// The decimal form of `n`, without leading zeros ("0" for zero).
pub open spec fn decimal(n: nat) -> Seq<char>
    decreases n,
{
    if n < 10 {
        seq![digit_spec(n)]
    } else {
        decimal(n / 10).push(digit_spec(n % 10))
    }
}

/// Appends the decimal form of `n` to `out`.
pub fn push_decimal(out: &mut Vec<char>, n: u64)
    ensures
        final(out)@ == old(out)@ + decimal(n as nat),
    decreases n,
{
    if n < 10 {
        let c: char = ((48 + n) as u8) as char;
        out.push(c);
    } else {
        push_decimal(out, n / 10);
        let c: char = ((48 + n % 10) as u8) as char;
        out.push(c);
        assert(out@ =~= old(out)@ + decimal(n as nat));
    }
}

/// The decimal form of `n` as a `String`.
pub fn decimal_text(n: u64) -> (r: String)
    ensures
        r@ == decimal(n as nat),
{
    let mut cs: Vec<char> = Vec::new();
    push_decimal(&mut cs, n);
    assert(cs@ =~= decimal(n as nat));
    string_of(&cs)
}


/// The digits of a number's text: without its leading `+`, if any.
pub open spec fn unsigned_digits(t: Seq<char>) -> Seq<char> {
    if t.len() > 0 && t[0] == '+' {
        t.drop_first()
    } else {
        t
    }
}

/// One or more decimal digits writing at most 65535.
pub open spec fn u16_from_digits(d: Seq<char>) -> Option<u16> {
    if d.len() > 0 && (forall|i: int| 0 <= i < d.len() ==> '0' <= #[trigger] d[i] <= '9')
        && crate::net::digits_number(d) <= 65535 {
        Some(crate::net::digits_number(d) as u16)
    } else {
        None
    }
}

/// What `str::parse::<u16>` reads: an optional `+`, then one or more
/// decimal digits whose value is at most 65535.
pub open spec fn u16_from_text(t: Seq<char>) -> Option<u16> {
    u16_from_digits(unsigned_digits(t))
}

/// A run of digits writes at least as much as any of its prefixes.
proof fn lemma_digits_prefix_le(t: Seq<char>, k: int)
    requires
        0 <= k <= t.len(),
        forall|i: int| 0 <= i < t.len() ==> '0' <= #[trigger] t[i] <= '9',
    ensures
        crate::net::digits_number(t.take(k)) <= crate::net::digits_number(t),
    decreases t.len(),
{
    if k < t.len() {
        let u = t.drop_last();
        assert forall|i: int| 0 <= i < u.len() implies '0' <= #[trigger] u[i] <= '9' by {
            assert(u[i] == t[i]);
        }
        lemma_digits_prefix_le(u, k);
        assert(u.take(k) =~= t.take(k));
    } else {
        assert(t.take(k) =~= t);
    }
}

/// Reads a port number as `str::parse::<u16>` does.
pub fn parse_u16(text: &str) -> (r: Option<u16>)
    ensures
        r == u16_from_text(text@),
{
    let t = chars_of(text);
    let start: usize = if t.len() > 0 && t[0] == '+' {
        1
    } else {
        0
    };
    let ghost d = unsigned_digits(t@);
    assert(d =~= t@.subrange(start as int, t@.len() as int));
    if start >= t.len() {
        return None;
    }
    let mut v: u32 = 0;
    let mut k: usize = start;
    while k < t.len()
        invariant
            start <= k <= t.len(),
            start <= 1,
            t@ == text@,
            d == unsigned_digits(text@),
            d == t@.subrange(start as int, t@.len() as int),
            forall|i: int| start <= i < k ==> '0' <= #[trigger] t@[i] <= '9',
            v as nat == crate::net::digits_number(t@.subrange(start as int, k as int)),
            v <= 65535,
        decreases t.len() - k,
    {
        let c = t[k];
        if !('0' <= c && c <= '9') {
            assert(!('0' <= d[k - start] <= '9'));
            assert(!(forall|i: int| 0 <= i < d.len() ==> '0' <= #[trigger] d[i] <= '9'));
            assert(u16_from_text(text@) is None);
            return None;
        }
        assert(t@.subrange(start as int, k + 1).drop_last() =~= t@.subrange(start as int, k as int));
        let nv: u32 = v * 10 + ((c as u32) - 48);
        if nv > 65535 {
            proof {
                if forall|i: int| 0 <= i < d.len() ==> '0' <= #[trigger] d[i] <= '9' {
                    lemma_digits_prefix_le(d, k + 1 - start);
                    assert(d.take(k + 1 - start) =~= t@.subrange(start as int, k + 1));
                    assert(crate::net::digits_number(d) > 65535);
                }
                assert(u16_from_text(text@) is None);
            }
            return None;
        }
        v = nv;
        k += 1;
    }
    assert(t@.subrange(start as int, k as int) =~= d);
    assert forall|i: int| 0 <= i < d.len() implies '0' <= #[trigger] d[i] <= '9' by {
        assert(d[i] == t@[start + i]);
    }
    Some(v as u16)
}

proof fn lemma_digit_value(k: nat)
    requires
        k < 10,
    ensures
        digit_spec(k) as u32 == 48 + k,
        '0' <= digit_spec(k) <= '9',
{
    let b: u8 = (48 + k) as u8;
    assert(b == 48 + k);
    vstd::utf8::char_u32_cast(b as char, b as u32);
}

/// The decimal form of a number is a run of digits that writes it, and
/// reads back as it.
pub proof fn lemma_decimal_digits(n: nat)
    ensures
        decimal(n).len() > 0,
        forall|i: int| 0 <= i < decimal(n).len() ==> '0' <= #[trigger] decimal(n)[i] <= '9',
        crate::net::digits_number(decimal(n)) == n,
    decreases n,
{
    if n < 10 {
        lemma_digit_value(n);
        assert(decimal(n).drop_last() =~= Seq::<char>::empty());
        assert(crate::net::digits_number(Seq::<char>::empty()) == 0);
        assert(decimal(n).last() == digit_spec(n));
    } else {
        lemma_decimal_digits(n / 10);
        lemma_digit_value(n % 10);
        let d = decimal(n);
        assert(d.drop_last() =~= decimal(n / 10));
        assert(d.last() == digit_spec(n % 10));
        assert((n / 10) * 10 + n % 10 == n);
        assert forall|i: int| 0 <= i < d.len() implies '0' <= #[trigger] d[i] <= '9' by {
            if i < d.len() - 1 {
                assert(d[i] == decimal(n / 10)[i]);
            }
        }
    }
}

/// A port's decimal form reads back as the port.
pub proof fn lemma_u16_decimal(p: u16)
    ensures
        u16_from_text(decimal(p as nat)) == Some(p),
{
    lemma_decimal_digits(p as nat);
    let d = decimal(p as nat);
    assert(d[0] != '+');
    assert(unsigned_digits(d) == d);
}
} // verus!
