//! Room codes: `U/XXXX-XXXX-XXXX-XXXX`, sixteen base-34 digits (least
//! significant first) over `0-9A-Z` without `I` and `O`, whose value is a
//! multiple of 7. A code also names the overlay network and its secret.
use vstd::prelude::*;
use crate::text::{chars_of, string_of};
use rand_core::TryRngCore;

verus! {

/// 34 to the power `n`.
pub open spec fn pow34(n: nat) -> nat
    decreases n,
{
    if n == 0 {
        1
    } else {
        34 * pow34((n - 1) as nat)
    }
}

/// 256 to the power `n`.
pub open spec fn pow256(n: nat) -> nat
    decreases n,
{
    if n == 0 {
        1
    } else {
        256 * pow256((n - 1) as nat)
    }
}

/// Number of distinct sixteen-digit codes.
pub open spec fn code_space() -> nat {
    pow34(16)
}

/// A value that a room code stands for.
pub open spec fn valid_room_value(v: nat) -> bool {
    v < code_space() && v % 7 == 0
}

/// The character code of digit `d` (`d < 34`).
pub open spec fn digit_code(d: nat) -> nat {
    if d < 10 {
        48 + d
    } else if d < 18 {
        (65 + (d - 10)) as nat
    } else if d < 23 {
        (74 + (d - 18)) as nat
    } else {
        (80 + (d - 23)) as nat
    }
}

/// The character of digit `d`.
pub open spec fn digit_char(d: nat) -> char {
    (digit_code(d) as u8) as char
}

/// The digit a character stands for; `I` reads as `1` and `O` as `0`.
pub open spec fn char_value(c: char) -> Option<nat> {
    let n = c as u32;
    if c == 'I' {
        Some(1)
    } else if c == 'O' {
        Some(0)
    } else if 48 <= n <= 57 {
        Some((n - 48) as nat)
    } else if 65 <= n <= 72 {
        Some((n - 65 + 10) as nat)
    } else if 74 <= n <= 78 {
        Some((n - 74 + 18) as nat)
    } else if 80 <= n <= 90 {
        Some((n - 80 + 23) as nat)
    } else {
        None
    }
}

/// ASCII upper case of one character.
pub open spec fn ascii_upper(c: char) -> char {
    if 'a' <= c && c <= 'z' {
        ((c as u32) - 32) as char
    } else {
        c
    }
}

/// ASCII lower case of one character.
pub open spec fn ascii_lower(c: char) -> char {
    if 'A' <= c && c <= 'Z' {
        ((c as u32) + 32) as char
    } else {
        c
    }
}

pub open spec fn upper_seq(s: Seq<char>) -> Seq<char> {
    s.map_values(|c: char| ascii_upper(c))
}

pub open spec fn lower_seq(s: Seq<char>) -> Seq<char> {
    s.map_values(|c: char| ascii_lower(c))
}

/// The first `n` base-34 digits of `v`, least significant first.
pub open spec fn base34_digits(v: nat, n: nat) -> Seq<nat>
    decreases n,
{
    if n == 0 {
        Seq::empty()
    } else {
        seq![v % 34].add(base34_digits(v / 34, (n - 1) as nat))
    }
}

/// The value of a digit sequence, least significant first.
pub open spec fn digits_value(ds: Seq<nat>) -> nat
    decreases ds.len(),
{
    if ds.len() == 0 {
        0
    } else {
        ds[0] + 34 * digits_value(ds.drop_first())
    }
}

/// The sixteen code characters of `v`.
pub open spec fn code_chars(v: nat) -> Seq<char> {
    base34_digits(v, 16).map_values(|d: nat| digit_char(d))
}

pub open spec fn group(cs: Seq<char>, k: int) -> Seq<char> {
    cs.subrange(4 * k, 4 * k + 4)
}

/// The room code text of `v`.
pub open spec fn code_text(v: nat) -> Seq<char> {
    let cs = code_chars(v);
    seq!['U', '/'] + group(cs, 0) + seq!['-'] + group(cs, 1) + seq!['-'] + group(cs, 2)
        + seq!['-'] + group(cs, 3)
}

pub open spec fn network_prefix() -> Seq<char> {
    seq!['s', 'c', 'a', 'f', 'f', 'o', 'l', 'd', 'i', 'n', 'g', '-', 'm', 'c', '-']
}

/// The overlay network name of `v`.
pub open spec fn network_name_text(v: nat) -> Seq<char> {
    let cs = code_chars(v);
    network_prefix() + group(cs, 0) + seq!['-'] + group(cs, 1)
}

/// The overlay network secret of `v`.
pub open spec fn network_secret_text(v: nat) -> Seq<char> {
    let cs = code_chars(v);
    group(cs, 2) + seq!['-'] + group(cs, 3)
}

/// Horner evaluation of the digits `j..16` of the window that starts at `k`.
pub open spec fn window_digits_value(u: Seq<char>, k: int, j: nat) -> Option<nat>
    decreases 16 - j,
{
    if j >= 16 {
        Some(0)
    } else {
        match (char_value(u[k + 2 + j + j / 4]), window_digits_value(u, k, j + 1)) {
            (Some(d), Some(rest)) => Some(d + 34 * rest),
            _ => None,
        }
    }
}

/// The value of the window of 21 characters at `k`, if it is a well-formed code.
pub open spec fn window_value(u: Seq<char>, k: int) -> Option<nat> {
    if u[k] == 'U' && u[k + 1] == '/' && u[k + 6] == '-' && u[k + 11] == '-' && u[k + 16]
        == '-' {
        match window_digits_value(u, k, 0) {
            Some(v) => if v % 7 == 0 {
                Some(v)
            } else {
                None
            },
            None => None,
        }
    } else {
        None
    }
}

/// The value of the first well-formed window at or after `k`.
pub open spec fn first_window(u: Seq<char>, k: nat) -> Option<nat>
    decreases u.len() - k,
{
    if k + 21 > u.len() {
        None
    } else {
        match window_value(u, k as int) {
            Some(v) => Some(v),
            None => first_window(u, k + 1),
        }
    }
}

/// The value that `parse` reads from `s`.
pub open spec fn parse_value(s: Seq<char>) -> Option<nat> {
    first_window(upper_seq(s), 0)
}

#[derive(Debug, Clone, PartialEq, Eq)]
pub struct Room {
    pub code: String,
    pub network_name: String,
    pub network_secret: String,
}

impl Room {
    /// A copy of the room.
    pub fn duplicate(&self) -> (r: Room)
        ensures
            r == *self,
    {
        Room {
            code: self.code.clone(),
            network_name: self.network_name.clone(),
            network_secret: self.network_secret.clone(),
        }
    }

    /// The room is the one that value `v` stands for.
    pub open spec fn is_room_of(self, v: nat) -> bool {
        &&& self.code@ == code_text(v)
        &&& self.network_name@ == network_name_text(v)
        &&& self.network_secret@ == network_secret_text(v)
    }
}

/// Fills `len` bytes from the operating system's random source
/// (`rand_core::OsRng::try_fill_bytes`); `None` where the source failed.
/// Nothing is claimed of the bytes beyond their number.
#[verifier::external_body]
pub(crate) fn os_random_bytes(len: usize) -> (r: Option<Vec<u8>>)
    ensures
        r matches Some(b) ==> b@.len() == len,
{
    let mut bytes = vec![0u8; len];
    rand_core::OsRng.try_fill_bytes(&mut bytes).ok().map(|_| bytes)
}

fn ascii_upper_char(c: char) -> (r: char)
    ensures
        r == ascii_upper(c),
{
    if 'a' <= c && c <= 'z' {
        let v: u32 = (c as u32) - 32;
        let b: u8 = v as u8;
        b as char
    } else {
        c
    }
}

/// The digit that `c` stands for.
fn lookup_char(c: char) -> (r: Option<u8>)
    ensures
        r matches Some(d) ==> char_value(c) == Some(d as nat),
        r is None ==> char_value(c) is None,
{
    let c = if c == 'I' {
        '1'
    } else if c == 'O' {
        '0'
    } else {
        c
    };
    let n: u32 = c as u32;
    if 48 <= n && n <= 57 {
        Some((n - 48) as u8)
    } else if 65 <= n && n <= 72 {
        Some((n - 65 + 10) as u8)
    } else if 74 <= n && n <= 78 {
        Some((n - 74 + 18) as u8)
    } else if 80 <= n && n <= 90 {
        Some((n - 80 + 23) as u8)
    } else {
        None
    }
}

fn digit_char_exec(d: u8) -> (c: char)
    requires
        d < 34,
    ensures
        c == digit_char(d as nat),
{
    let code: u8 = if d < 10 {
        48 + d
    } else if d < 18 {
        65 + (d - 10)
    } else if d < 23 {
        74 + (d - 18)
    } else {
        80 + (d - 23)
    };
    code as char
}

proof fn lemma_pow34_step(n: nat)
    ensures
        pow34(n + 1) == 34 * pow34(n),
        pow34(n) >= 1,
    decreases n,
{
    if n > 0 {
        lemma_pow34_step((n - 1) as nat);
    }
}

/// Only the low `n` base-34 digits of `v` are read.
proof fn lemma_digits_mod(v: nat, n: nat)
    ensures
        base34_digits(v, n) == base34_digits(v % pow34(n), n),
    decreases n,
{
    if n > 0 {
        let p = pow34((n - 1) as nat);
        lemma_pow34_step((n - 1) as nat);
        let q: int = ((v / 34) % p) as int;
        let r: int = (v % 34) as int;
        let w: int = (v % (34 * p)) as int;
        vstd::arithmetic::div_mod::lemma_mod_breakdown(v as int, 34, p as int);
        vstd::arithmetic::mul::lemma_mul_is_commutative(34, q);
        assert(w == q * 34 + r);
        vstd::arithmetic::div_mod::lemma_fundamental_div_mod_converse_mod(w, 34, q, r);
        vstd::arithmetic::div_mod::lemma_fundamental_div_mod_converse_div(w, 34, q, r);
        lemma_digits_mod(v / 34, (n - 1) as nat);
        assert(base34_digits(v % pow34(n), n) =~= base34_digits(v, n));
    }
}

/// A value and its remainder below `code_space()` stand for the same room.
pub proof fn lemma_room_of_low_digits(v: nat)
    ensures
        code_text(v) == code_text(v % code_space()),
        network_name_text(v) == network_name_text(v % code_space()),
        network_secret_text(v) == network_secret_text(v % code_space()),
{
    lemma_digits_mod(v, 16);
}

proof fn lemma_pow34_16()
    ensures
        pow34(16) == 3189059870763703892770816,
{
    reveal_with_fuel(pow34, 17);
}

proof fn lemma_pow256_16()
    ensures
        pow256(16) == 340282366920938463463374607431768211456,
{
    reveal_with_fuel(pow256, 17);
}

proof fn lemma_horner_bound(acc: nat, d: nat, m: nat)
    requires
        acc < pow34(m),
        d < 34,
    ensures
        d + 34 * acc < pow34(m + 1),
{
    lemma_pow34_step(m);
    assert(d + 34 * acc < 34 * pow34(m)) by (nonlinear_arith)
        requires
            acc < pow34(m),
            d < 34,
    ;
}

/// The digits of a value below `34^n` give the value back.
proof fn lemma_digits_value_base34(v: nat, n: nat)
    requires
        v < pow34(n),
    ensures
        digits_value(base34_digits(v, n)) == v,
        base34_digits(v, n).len() == n,
        forall|i: int| 0 <= i < n ==> #[trigger] base34_digits(v, n)[i] < 34,
    decreases n,
{
    if n == 0 {
    } else {
        let m = (n - 1) as nat;
        lemma_pow34_step(m);
        assert(v / 34 < pow34(m)) by (nonlinear_arith)
            requires
                v < 34 * pow34(m),
        ;
        lemma_digits_value_base34(v / 34, m);
        let ds = base34_digits(v, n);
        assert(ds.drop_first() =~= base34_digits(v / 34, m));
        assert(v == v % 34 + 34 * (v / 34)) by (nonlinear_arith);
    }
}

proof fn lemma_base34_len(v: nat, n: nat)
    ensures
        base34_digits(v, n).len() == n,
    decreases n,
{
    if n > 0 {
        lemma_base34_len(v / 34, (n - 1) as nat);
    }
}

/// Window digits of a window are the Horner value of its digit characters.
proof fn lemma_window_digits_of_code(v: nat, j: nat)
    requires
        v < code_space(),
        j <= 16,
    ensures
        window_digits_value(code_text(v), 0, j) == Some(
            digits_value(base34_digits(v, 16).subrange(j as int, 16)),
        ),
    decreases 16 - j,
{
    let ds = base34_digits(v, 16);
    lemma_digits_value_base34(v, 16);
    if j >= 16 {
        assert(ds.subrange(j as int, 16).len() == 0);
    } else {
        lemma_window_digits_of_code(v, j + 1);
        let u = code_text(v);
        let cs = code_chars(v);
        assert(u[(2 + j + j / 4) as int] == cs[j as int]) by {
            if j < 4 {
            } else if j < 8 {
            } else if j < 12 {
            } else {
            }
        }
        let d = ds[j as int];
        assert(d < 34);
        assert(cs[j as int] == digit_char(d));
        assert(char_value(digit_char(d)) == Some(d));
        assert(ds.subrange(j as int, 16).drop_first() =~= ds.subrange(j + 1 as int, 16));
    }
}

/// The text of a room value is exactly one window, whose digits hold that
/// value.
proof fn lemma_code_text_window(v: nat)
    requires
        v < code_space(),
    ensures
        code_text(v).len() == 21,
        window_digits_value(code_text(v), 0, 0) == Some(v),
        v % 7 == 0 ==> window_value(code_text(v), 0) == Some(v),
        upper_seq(code_text(v)) == code_text(v),
{
    let u = code_text(v);
    lemma_digits_value_base34(v, 16);
    lemma_window_digits_of_code(v, 0);
    assert(base34_digits(v, 16).subrange(0, 16) =~= base34_digits(v, 16));
    assert forall|i: int| 0 <= i < u.len() implies ascii_upper(#[trigger] u[i]) == u[i] by {
        let cs = code_chars(v);
        if i >= 2 && i != 6 && i != 11 && i != 16 {
            let j = if i < 6 {
                i - 2
            } else if i < 11 {
                i - 3
            } else if i < 16 {
                i - 4
            } else {
                i - 5
            };
            assert(u[i] == cs[j]);
            assert(base34_digits(v, 16)[j] < 34);
        }
    }
    assert(upper_seq(u) =~= u);
}

/// A room's code parses back to the value it was made from.
pub proof fn lemma_parse_code_text(v: nat)
    requires
        valid_room_value(v),
    ensures
        parse_value(code_text(v)) == Some(v),
{
    lemma_code_text_window(v);
}

/// A window's digits hold a value below `34^16`.
proof fn lemma_window_digits_bound(u: Seq<char>, k: int, j: nat)
    requires
        j <= 16,
    ensures
        window_digits_value(u, k, j) matches Some(x) ==> x < pow34((16 - j) as nat),
    decreases 16 - j,
{
    if j < 16 {
        lemma_window_digits_bound(u, k, j + 1);
        if let (Some(d), Some(rest)) = (char_value(u[k + 2 + j + j / 4]), window_digits_value(u, k, j + 1)) {
            assert(d < 34);
            lemma_horner_bound(rest, d, (16 - (j + 1)) as nat);
        }
    }
}

proof fn lemma_first_window_valid(u: Seq<char>, k: nat)
    ensures
        first_window(u, k) matches Some(v) ==> valid_room_value(v),
    decreases u.len() - k,
{
    if k + 21 <= u.len() {
        lemma_window_digits_bound(u, k as int, 0);
        if window_value(u, k as int) is None {
            lemma_first_window_valid(u, k + 1);
        }
    }
}

/// Every code that parses stands for a valid room value: below `34^16` and
/// a multiple of 7, the code's self-check.
pub proof fn lemma_parsed_values_are_valid(s: Seq<char>)
    ensures
        parse_value(s) matches Some(v) ==> v < code_space() && v % 7 == 0,
{
    lemma_first_window_valid(upper_seq(s), 0);
}

/// A well-formed code whose digits hold a value that is not a multiple of 7
/// fails its self-check: it does not parse.
pub proof fn lemma_unchecked_code_refused(v: nat)
    requires
        v < code_space(),
        v % 7 != 0,
    ensures
        parse_value(code_text(v)) is None,
{
    lemma_code_text_window(v);
    let u = code_text(v);
    assert(window_value(u, 0) is None);
    assert(first_window(u, 1) is None);
}

/// The code alphabet: digit `d < 34` is written as a character of `0-9A-Z`
/// other than `I` and `O`, larger digits as later characters (so the 34
/// digits are `0123456789ABCDEFGHJKLMNPQRSTUVWXYZ` in order), and each reads
/// back as its digit; `I` and `O` read as `1` and `0`, and no other
/// character is a digit.
pub proof fn lemma_code_alphabet(d: nat, e: nat, c: char)
    ensures
        d < 34 ==> ('0' <= digit_char(d) && digit_char(d) <= '9') || ('A' <= digit_char(d)
            && digit_char(d) <= 'Z'),
        d < 34 ==> digit_char(d) != 'I' && digit_char(d) != 'O',
        d < e < 34 ==> (digit_char(d) as u32) < (digit_char(e) as u32),
        d < 34 ==> char_value(digit_char(d)) == Some(d),
        char_value('I') == Some(1nat) && char_value('O') == Some(0nat),
        char_value(c) matches Some(v) ==> v < 34 && (c == digit_char(v) || (c == 'I' && v == 1)
            || (c == 'O' && v == 0)),
{
}

/// Reading the network name and secret out of a code: the name is the prefix
/// `scaffolding-mc-` and characters 2..11 of the code; the secret is
/// characters 12..16, `-` and characters 17..21.
pub proof fn lemma_network_fields_from_code(v: nat)
    ensures
        network_name_text(v) == network_prefix() + code_text(v).subrange(2, 11),
        network_secret_text(v) == code_text(v).subrange(12, 16) + seq!['-'] + code_text(
            v,
        ).subrange(17, 21),
{
    lemma_base34_len(v, 16);
    assert(network_name_text(v) =~= network_prefix() + code_text(v).subrange(2, 11));
    assert(network_secret_text(v) =~= code_text(v).subrange(12, 16) + seq!['-'] + code_text(
        v,
    ).subrange(17, 21));
}

/// Parsing ignores case: lower-casing the input changes nothing.
pub proof fn lemma_parse_ignores_case(s: Seq<char>)
    ensures
        parse_value(lower_seq(s)) == parse_value(s),
{
    assert forall|i: int| 0 <= i < s.len() implies ascii_upper(ascii_lower(#[trigger] s[i]))
        == ascii_upper(s[i]) by {}
    assert(upper_seq(lower_seq(s)) =~= upper_seq(s));
}

proof fn lemma_first_window_shift(p: Seq<char>, s: Seq<char>, k: nat)
    requires
        k <= p.len(),
        forall|i: int| 0 <= i < p.len() ==> #[trigger] p[i] != 'U',
    ensures
        first_window(p + s, k) == first_window(s, 0),
    decreases p.len() + s.len() - k,
{
    let u = p + s;
    if k == p.len() {
        lemma_first_window_offset(p, s, 0);
    } else {
        if k + 21 <= u.len() {
            assert(u[k as int] == p[k as int]);
            assert(window_value(u, k as int) is None);
        } else {
            lemma_first_window_short(s, 0);
        }
        lemma_first_window_shift(p, s, k + 1);
    }
}

proof fn lemma_first_window_short(s: Seq<char>, k: nat)
    requires
        k + 21 > s.len(),
    ensures
        first_window(s, k) is None,
{
}

proof fn lemma_window_value_offset(p: Seq<char>, s: Seq<char>, k: int)
    requires
        0 <= k,
        k + 21 <= s.len(),
    ensures
        window_value(p + s, p.len() + k) == window_value(s, k),
{
    let u = p + s;
    assert forall|j: nat| j <= 16 implies window_digits_value(u, p.len() + k, j)
        == window_digits_value(s, k, j) by {
        lemma_window_digits_offset(p, s, k, j);
    }
}

proof fn lemma_window_digits_offset(p: Seq<char>, s: Seq<char>, k: int, j: nat)
    requires
        0 <= k,
        k + 21 <= s.len(),
        j <= 16,
    ensures
        window_digits_value(p + s, p.len() + k, j) == window_digits_value(s, k, j),
    decreases 16 - j,
{
    if j < 16 {
        lemma_window_digits_offset(p, s, k, j + 1);
        assert((p + s)[p.len() + k + 2 + j + j / 4] == s[k + 2 + j + j / 4]);
    }
}

proof fn lemma_first_window_offset(p: Seq<char>, s: Seq<char>, k: nat)
    ensures
        first_window(p + s, p.len() + k) == first_window(s, k),
    decreases s.len() - k,
{
    if k + 21 <= s.len() {
        lemma_window_value_offset(p, s, k as int);
        lemma_first_window_offset(p, s, k + 1);
    }
}

/// Parsing skips any prefix that holds no `U` or `u`: only a window that
/// starts with `U/` can be a code.
pub proof fn lemma_parse_ignores_prefix(p: Seq<char>, s: Seq<char>)
    requires
        forall|i: int| 0 <= i < p.len() ==> #[trigger] p[i] != 'U' && p[i] != 'u',
    ensures
        parse_value(p + s) == parse_value(s),
{
    let up = upper_seq(p);
    assert forall|i: int| 0 <= i < up.len() implies #[trigger] up[i] != 'U' by {
        assert(p[i] != 'U' && p[i] != 'u');
    }
    assert(upper_seq(p + s) =~= up + upper_seq(s));
    lemma_first_window_shift(up, upper_seq(s), 0);
}

/// A room's code, lower-cased and put behind any text that holds no `U` or
/// `u` (such as `[SCANNING] `), still reads as that room's value; so
/// `Room::parse` gives back the room itself.
pub proof fn lemma_parse_decorated_code(p: Seq<char>, v: nat)
    requires
        valid_room_value(v),
        forall|i: int| 0 <= i < p.len() ==> #[trigger] p[i] != 'U' && p[i] != 'u',
    ensures
        parse_value(p + lower_seq(code_text(v))) == Some(v),
{
    lemma_parse_ignores_prefix(p, lower_seq(code_text(v)));
    lemma_parse_ignores_case(code_text(v));
    lemma_parse_code_text(v);
}

impl Room {
    /// Builds the room that value `value` stands for: only its low sixteen
    /// base-34 digits are read, so a value at or above `34^16` gives the
    /// room of its remainder.
    pub fn from_value(value: u128) -> (room: Room)
        ensures
            room.is_room_of(value as nat),
            room.is_room_of((value as nat) % code_space()),
    {
        proof {
            lemma_room_of_low_digits(value as nat);
        }
        let ghost orig = value as nat;
        let mut value = value;
        let mut cs: Vec<char> = Vec::new();
        let ghost mut ds: Seq<nat> = Seq::empty();
        let mut i: usize = 0;
        while i < 16
            invariant
                0 <= i <= 16,
                ds.len() == i,
                base34_digits(orig, 16) == ds + base34_digits(value as nat, (16 - i) as nat),
                cs@ == ds.map_values(|d: nat| digit_char(d)),
            decreases 16 - i,
        {
            let d: u8 = (value % 34) as u8;
            let c = digit_char_exec(d);
            proof {
                let rest = base34_digits(value as nat, (16 - i) as nat);
                assert(rest =~= seq![(value % 34) as nat].add(
                    base34_digits((value / 34) as nat, (16 - i - 1) as nat),
                ));
                ds = ds.push(d as nat);
            }
            cs.push(c);
            value = value / 34;
            i += 1;
        }
        proof {
            assert(base34_digits(orig, 16) =~= ds);
            assert(cs@ =~= code_chars(orig));
        }
        let mut code: Vec<char> = Vec::new();
        code.push('U');
        code.push('/');
        push_group(&mut code, &cs, 0);
        code.push('-');
        push_group(&mut code, &cs, 4);
        code.push('-');
        push_group(&mut code, &cs, 8);
        code.push('-');
        push_group(&mut code, &cs, 12);
        let mut name: Vec<char> = chars_of("scaffolding-mc-");
        proof {
            reveal_strlit("scaffolding-mc-");
        }
        push_group(&mut name, &cs, 0);
        name.push('-');
        push_group(&mut name, &cs, 4);
        let mut secret: Vec<char> = Vec::new();
        push_group(&mut secret, &cs, 8);
        secret.push('-');
        push_group(&mut secret, &cs, 12);
        proof {
            assert(code@ =~= code_text(orig));
            assert(name@ =~= network_name_text(orig));
            assert(secret@ =~= network_secret_text(orig));
        }
        Room { code: string_of(&code), network_name: string_of(&name), network_secret: string_of(&secret) }
    }

    /// Makes a fresh room from sixteen random bytes read as a big-endian
    /// number: the number is reduced below `34^16` and rounded down to a
    /// multiple of 7.
    pub fn from_random(bytes: &Vec<u8>) -> (room: Room)
        requires
            bytes@.len() == 16,
        ensures
            room.is_room_of(random_room_value(bytes@)),
            valid_room_value(random_room_value(bytes@)),
    {
        let mut value: u128 = 0;
        let mut i: usize = 0;
        while i < 16
            invariant
                bytes@.len() == 16,
                0 <= i <= 16,
                value as nat == be_value(bytes@.take(i as int)),
                (value as nat) < pow256(i as nat),
            decreases 16 - i,
        {
            proof {
                assert(bytes@.take(i + 1).drop_last() =~= bytes@.take(i as int));
                lemma_be_step(value as nat, bytes@[i as int] as nat, i as nat);
                lemma_pow256_16();
                lemma_pow256_mono(i as nat + 1, 16);
            }
            value = value * 256 + bytes[i] as u128;
            i += 1;
        }
        proof {
            assert(bytes@.take(16) =~= bytes@);
            lemma_pow34_16();
        }
        let value = value % 3189059870763703892770816u128;
        let value = value - value % 7;
        proof {
            assert((value as nat) % 7 == 0) by (nonlinear_arith)
                requires
                    value as nat == (be_value(bytes@) % 3189059870763703892770816) - (be_value(
                        bytes@,
                    ) % 3189059870763703892770816) % 7,
            ;
        }
        Room::from_value(value)
    }

    /// Makes a fresh room from the operating system's random source; `None`
    /// where that source failed. Whatever came back, a returned room is the
    /// room of a valid value.
    pub fn create() -> (r: Option<Room>)
        ensures
            r matches Some(room) ==> exists|v: nat| valid_room_value(v) && room.is_room_of(v),
    {
        match os_random_bytes(16) {
            Some(bytes) => {
                let room = Room::from_random(&bytes);
                Some(room)
            },
            None => None,
        }
    }

    /// Reads a room from the first well-formed code in `code`, ignoring case
    /// and any text around it.
    pub fn parse(code: &str) -> (r: Option<Room>)
        ensures
            parse_value(code@) matches Some(v) ==> r matches Some(room) && room.is_room_of(v),
            parse_value(code@) is None ==> r is None,
    {
        let raw = chars_of(code);
        let mut u: Vec<char> = Vec::new();
        let mut i: usize = 0;
        while i < raw.len()
            invariant
                raw@ == code@,
                0 <= i <= raw.len(),
                u@ == upper_seq(raw@.take(i as int)),
            decreases raw.len() - i,
        {
            let c = ascii_upper_char(raw[i]);
            u.push(c);
            i += 1;
            assert(u@ =~= upper_seq(raw@.take(i as int)));
        }
        assert(raw@.take(raw.len() as int) =~= raw@);
        if u.len() < 21 {
            return None;
        }
        let mut k: usize = 0;
        while k < u.len() && u.len() - k >= 21
            invariant
                k <= u.len(),
                u@ == upper_seq(code@),
                first_window(u@, 0) == first_window(u@, k as nat),
            decreases u.len() - k,
        {
            match window_value_exec(&u, k) {
                Some(v) => {
                    return Some(Room::from_value(v));
                },
                None => {},
            }
            k += 1;
        }
        None
    }

    /// Whether `code` holds a well-formed room code.
    pub fn verify(code: &str) -> (r: bool)
        ensures
            r == parse_value(code@) is Some,
    {
        Room::parse(code).is_some()
    }
}

/// The big-endian value of a byte sequence.
pub open spec fn be_value(bytes: Seq<u8>) -> nat
    decreases bytes.len(),
{
    if bytes.len() == 0 {
        0
    } else {
        (be_value(bytes.drop_last()) * 256 + bytes.last()) as nat
    }
}

/// The room value that sixteen random bytes give.
pub open spec fn random_room_value(bytes: Seq<u8>) -> nat {
    let x = be_value(bytes) % code_space();
    (x - x % 7) as nat
}

proof fn lemma_be_step(acc: nat, b: nat, i: nat)
    requires
        acc < pow256(i),
        b < 256,
    ensures
        acc * 256 + b < pow256(i + 1),
{
    assert(pow256(i + 1) == 256 * pow256(i));
    assert(acc * 256 + b < 256 * pow256(i)) by (nonlinear_arith)
        requires
            acc < pow256(i),
            b < 256,
    ;
}

proof fn lemma_pow256_mono(i: nat, j: nat)
    requires
        i <= j,
    ensures
        pow256(i) <= pow256(j),
    decreases j - i,
{
    if i < j {
        lemma_pow256_mono(i, (j - 1) as nat);
        assert(pow256(j) == 256 * pow256((j - 1) as nat));
    }
}

fn push_group(out: &mut Vec<char>, cs: &Vec<char>, start: usize)
    requires
        start + 4 <= cs.len(),
    ensures
        final(out)@ == old(out)@ + cs@.subrange(start as int, start + 4),
{
    out.push(cs[start]);
    out.push(cs[start + 1]);
    out.push(cs[start + 2]);
    out.push(cs[start + 3]);
    assert(out@ =~= old(out)@ + cs@.subrange(start as int, start + 4));
}

/// The value of the window of 21 characters at `k`, as `window_value` says.
fn window_value_exec(u: &Vec<char>, k: usize) -> (r: Option<u128>)
    requires
        k + 21 <= u.len(),
    ensures
        r matches Some(v) ==> window_value(u@, k as int) == Some(v as nat) && (v as nat)
            < code_space(),
        r is None ==> window_value(u@, k as int) is None,
{
    if !(u[k] == 'U' && u[k + 1] == '/' && u[k + 6] == '-' && u[k + 11] == '-' && u[k + 16]
        == '-') {
        return None;
    }
    let mut value: u128 = 0;
    let mut j: usize = 16;
    proof {
        lemma_pow34_16();
    }
    while j > 0
        invariant
            k + 21 <= u.len(),
            0 <= j <= 16,
            window_digits_value(u@, k as int, j as nat) == Some(value as nat),
            (value as nat) < pow34((16 - j) as nat),
            pow34(16) == 3189059870763703892770816,
        decreases j,
    {
        let idx = k + 2 + (j - 1) + (j - 1) / 4;
        match lookup_char(u[idx]) {
            Some(d) => {
                proof {
                    lemma_horner_bound(value as nat, d as nat, (16 - j) as nat);
                    lemma_pow34_mono((16 - j + 1) as nat, 16);
                }
                value = value * 34 + d as u128;
            },
            None => {
                proof {
                    assert(window_digits_value(u@, k as int, (j - 1) as nat) is None);
                    assert(window_value(u@, k as int) is None) by {
                        lemma_window_digits_none(u@, k as int, (j - 1) as nat);
                    }
                }
                return None;
            },
        }
        j -= 1;
    }
    if value % 7 == 0 {
        Some(value)
    } else {
        None
    }
}

proof fn lemma_pow34_mono(i: nat, j: nat)
    requires
        i <= j,
    ensures
        pow34(i) <= pow34(j),
    decreases j - i,
{
    if i < j {
        lemma_pow34_mono(i, (j - 1) as nat);
        lemma_pow34_step((j - 1) as nat);
    }
}

proof fn lemma_window_digits_none(u: Seq<char>, k: int, j: nat)
    requires
        j <= 16,
        window_digits_value(u, k, j) is None,
    ensures
        window_digits_value(u, k, 0) is None,
    decreases j,
{
    if j > 0 {
        lemma_window_digits_none(u, k, (j - 1) as nat);
    }
}

} // verus!
