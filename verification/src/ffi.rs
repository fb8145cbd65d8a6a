//! The checks of the C interface: its result codes, and what it makes of
//! the strings a caller hands in. The pointers themselves are read outside.
use vstd::prelude::*;
use vstd::string::StrSliceExecFns;
use vstd::utf8::{decode_utf8, encode_utf8, valid_utf8};
use crate::context::{strings_view, ContextConfig};
use crate::json::utf8_text;
use crate::room::{parse_value, Room};
use crate::session::SessionStateId;

verus! {

pub const TERRA_OK: i32 = 0;
pub const TERRA_ERR_INVALID_HANDLE: i32 = -1;
pub const TERRA_ERR_INVALID_ARGUMENT: i32 = -2;
pub const TERRA_ERR_BAD_STATE: i32 = -3;
pub const TERRA_ERR_INVALID_ROOM_CODE: i32 = -4;
pub const TERRA_ERR_ALREADY_ACTIVE: i32 = -5;
pub const TERRA_ERR_INTERNAL: i32 = -6;
pub const TERRA_ERR_OUT_OF_MEMORY: i32 = -7;
pub const TERRA_ERR_NO_EVENT: i32 = -8;
pub const TERRA_ERR_SHUTTING_DOWN: i32 = -9;

/// What `terracotta_verify_room_code` answers for a valid code.
pub const VERIFIED_ROOM_CODE: i32 = 3;

/// The version the interface reports.
pub const VERSION: &'static str = "0.1.0";

pub open spec fn raw_view(raw: Option<Vec<u8>>) -> Option<Seq<u8>> {
    match raw {
        Some(b) => Some(b@),
        None => None,
    }
}

/// The text of bytes that must be UTF-8.
pub open spec fn utf8_of(bytes: Seq<u8>) -> Result<Seq<char>, i32> {
    if valid_utf8(bytes) {
        Ok(decode_utf8(bytes))
    } else {
        Err(TERRA_ERR_INVALID_ARGUMENT)
    }
}

/// A counted string from the caller: none or an empty one is the empty
/// text; any other must be UTF-8.
pub open spec fn counted_string(raw: Option<Seq<u8>>) -> Result<Seq<char>, i32> {
    match raw {
        Some(b) => if b.len() == 0 {
            Ok(Seq::empty())
        } else {
            utf8_of(b)
        },
        None => Ok(Seq::empty()),
    }
}

/// A counted string from the caller.
pub fn read_string(raw: Option<&[u8]>) -> (r: Result<String, i32>)
    ensures
        match r {
            Ok(s) => counted_string(match raw {
                Some(b) => Some(b@),
                None => None,
            }) == Ok::<Seq<char>, i32>(s@),
            Err(e) => counted_string(match raw {
                Some(b) => Some(b@),
                None => None,
            }) == Err::<Seq<char>, i32>(e),
        },
{
    match raw {
        Some(b) => if b.len() == 0 {
            Ok(String::new())
        } else {
            match utf8_text(b) {
                Some(s) => Ok(s),
                None => Err(TERRA_ERR_INVALID_ARGUMENT),
            }
        },
        None => Ok(String::new()),
    }
}

/// The optional room code of `terracotta_create_room`: none or empty is
/// none; else it must be UTF-8 and a valid code.
pub open spec fn room_code_argument_of(raw: Option<Seq<u8>>) -> Result<Option<Seq<char>>, i32> {
    match raw {
        None => Ok(None),
        Some(b) => match utf8_of(b) {
            Err(e) => Err(e),
            Ok(t) => if t.len() == 0 {
                Ok(None)
            } else if parse_value(t) is Some {
                Ok(Some(t))
            } else {
                Err(TERRA_ERR_INVALID_ROOM_CODE)
            },
        },
    }
}

/// The optional player name: none or empty is none; else it must be
/// UTF-8.
pub open spec fn player_name_argument_of(raw: Option<Seq<u8>>) -> Result<Option<Seq<char>>, i32> {
    match raw {
        None => Ok(None),
        Some(b) => match utf8_of(b) {
            Err(e) => Err(e),
            Ok(t) => if t.len() == 0 {
                Ok(None)
            } else {
                Ok(Some(t))
            },
        },
    }
}

pub open spec fn option_string_view(v: Option<String>) -> Option<Seq<char>> {
    match v {
        Some(s) => Some(s@),
        None => None,
    }
}

/// Bytes that are not empty decode to text that is not empty.
proof fn lemma_decoded_nonempty(b: Seq<u8>)
    requires
        valid_utf8(b),
        b.len() > 0,
    ensures
        decode_utf8(b).len() > 0,
{
    vstd::utf8::decode_utf8_encode_utf8(b);
    if decode_utf8(b).len() == 0 {
        assert(decode_utf8(b) =~= Seq::<char>::empty());
        assert(encode_utf8(Seq::<char>::empty()) =~= Seq::<u8>::empty());
    }
}

/// Reads bytes that must be UTF-8.
fn utf8_argument(b: &[u8]) -> (r: Result<String, i32>)
    ensures
        match r {
            Ok(s) => utf8_of(b@) == Ok::<Seq<char>, i32>(s@),
            Err(e) => utf8_of(b@) == Err::<Seq<char>, i32>(e),
        },
{
    match utf8_text(b) {
        Some(s) => Ok(s),
        None => Err(TERRA_ERR_INVALID_ARGUMENT),
    }
}

/// The optional room code of `terracotta_create_room`.
pub fn room_code_argument(raw: Option<&[u8]>) -> (r: Result<Option<String>, i32>)
    ensures
        match r {
            Ok(v) => room_code_argument_of(match raw {
                Some(b) => Some(b@),
                None => None,
            }) == Ok::<Option<Seq<char>>, i32>(option_string_view(v)),
            Err(e) => room_code_argument_of(match raw {
                Some(b) => Some(b@),
                None => None,
            }) == Err::<Option<Seq<char>>, i32>(e),
        },
{
    match raw {
        None => Ok(None),
        Some(b) => {
            if b.len() == 0 {
                assert(decode_utf8(b@) =~= Seq::<char>::empty());
                return Ok(None);
            }
            let t = utf8_argument(b)?;
            proof {
                lemma_decoded_nonempty(b@);
            }
            match Room::parse(t.as_str()) {
                Some(_) => Ok(Some(t)),
                None => Err(TERRA_ERR_INVALID_ROOM_CODE),
            }
        },
    }
}

/// The optional player name.
pub fn player_name_argument(raw: Option<&[u8]>) -> (r: Result<Option<String>, i32>)
    ensures
        match r {
            Ok(v) => player_name_argument_of(match raw {
                Some(b) => Some(b@),
                None => None,
            }) == Ok::<Option<Seq<char>>, i32>(option_string_view(v)),
            Err(e) => player_name_argument_of(match raw {
                Some(b) => Some(b@),
                None => None,
            }) == Err::<Option<Seq<char>>, i32>(e),
        },
{
    match raw {
        None => Ok(None),
        Some(b) => {
            if b.len() == 0 {
                assert(decode_utf8(b@) =~= Seq::<char>::empty());
                return Ok(None);
            }
            let t = utf8_argument(b)?;
            proof {
                lemma_decoded_nonempty(b@);
            }
            Ok(Some(t))
        },
    }
}

/// A flow may start only from `Waiting`.
pub fn require_waiting(state: SessionStateId) -> (r: Result<(), i32>)
    ensures
        r is Ok <==> state == SessionStateId::Waiting,
        r matches Err(e) ==> e == TERRA_ERR_ALREADY_ACTIVE,
{
    if state == SessionStateId::Waiting {
        Ok(())
    } else {
        Err(TERRA_ERR_ALREADY_ACTIVE)
    }
}

/// What `terracotta_create_room` checks, in order: the room code, the
/// player name, the session's state. Gives the name and the code.
pub fn create_room_request(
    raw_name: Option<&[u8]>,
    raw_code: Option<&[u8]>,
    state: SessionStateId,
) -> (r: Result<(Option<String>, Option<String>), i32>)
    ensures
        match (
            room_code_argument_of(match raw_code {
                Some(b) => Some(b@),
                None => None,
            }),
            player_name_argument_of(match raw_name {
                Some(b) => Some(b@),
                None => None,
            }),
        ) {
            (Err(e), _) => r == Err::<(Option<String>, Option<String>), i32>(e),
            (Ok(_), Err(e)) => r == Err::<(Option<String>, Option<String>), i32>(e),
            (Ok(code), Ok(name)) => if state == SessionStateId::Waiting {
                r matches Ok((n, c)) && option_string_view(n) == name && option_string_view(c)
                    == code
            } else {
                r == Err::<(Option<String>, Option<String>), i32>(TERRA_ERR_ALREADY_ACTIVE)
            },
        },
{
    let code = room_code_argument(raw_code)?;
    let name = player_name_argument(raw_name)?;
    require_waiting(state)?;
    Ok((name, code))
}

/// The room code of `terracotta_join_room`: it must be given, UTF-8 and
/// valid.
pub open spec fn join_code_of(raw: Option<Seq<u8>>) -> Result<Seq<char>, i32> {
    match raw {
        None => Err(TERRA_ERR_INVALID_ARGUMENT),
        Some(b) => match utf8_of(b) {
            Err(e) => Err(e),
            Ok(t) => if parse_value(t) is Some {
                Ok(t)
            } else {
                Err(TERRA_ERR_INVALID_ROOM_CODE)
            },
        },
    }
}

/// What `terracotta_join_room` checks, in order: the room code, the player
/// name, the session's state. Gives the code and the name.
pub fn join_room_request(
    raw_code: Option<&[u8]>,
    raw_name: Option<&[u8]>,
    state: SessionStateId,
) -> (r: Result<(String, Option<String>), i32>)
    ensures
        match (
            join_code_of(match raw_code {
                Some(b) => Some(b@),
                None => None,
            }),
            player_name_argument_of(match raw_name {
                Some(b) => Some(b@),
                None => None,
            }),
        ) {
            (Err(e), _) => r == Err::<(String, Option<String>), i32>(e),
            (Ok(_), Err(e)) => r == Err::<(String, Option<String>), i32>(e),
            (Ok(code), Ok(name)) => if state == SessionStateId::Waiting {
                r matches Ok((c, n)) && c@ == code && option_string_view(n) == name
            } else {
                r == Err::<(String, Option<String>), i32>(TERRA_ERR_ALREADY_ACTIVE)
            },
        },
{
    let code = match raw_code {
        None => {
            return Err(TERRA_ERR_INVALID_ARGUMENT);
        },
        Some(b) => utf8_argument(b)?,
    };
    if Room::parse(code.as_str()).is_none() {
        return Err(TERRA_ERR_INVALID_ROOM_CODE);
    }
    let name = player_name_argument(raw_name)?;
    require_waiting(state)?;
    Ok((code, name))
}

/// What `terracotta_verify_room_code` answers: 3 for a valid code, -1 for
/// anything else (no code, not UTF-8, not a code).
pub fn verify_room_code_result(raw: Option<&[u8]>) -> (r: i32)
    ensures
        r == (match raw {
            Some(b) => if valid_utf8(b@) && parse_value(decode_utf8(b@)) is Some {
                VERIFIED_ROOM_CODE
            } else {
                -1i32
            },
            None => -1i32,
        }),
{
    match raw {
        None => -1,
        Some(b) => match utf8_text(b) {
            Some(t) => if Room::verify(t.as_str()) {
                VERIFIED_ROOM_CODE
            } else {
                -1
            },
            None => -1,
        },
    }
}

/// The strings of a configuration as the caller hands them in.
pub struct RawConfig {
    pub public_nodes: Vec<Option<Vec<u8>>>,
    pub data_dir: Option<Vec<u8>>,
    pub motd: Option<Vec<u8>>,
}

/// Every counted string of a list reads.
pub open spec fn all_read(raw: Seq<Option<Vec<u8>>>) -> bool {
    forall|k: int| 0 <= k < raw.len() ==> #[trigger] counted_string(raw_view(raw[k])) is Ok
}

/// The configuration `terracotta_configure` sets: none given is the
/// defaults; an empty data directory is `default_dir`, an empty message of
/// the day none.
pub open spec fn configured(raw: Option<RawConfig>, default_dir: Seq<char>) -> (
    Seq<Seq<char>>,
    Seq<char>,
    Option<Seq<char>>,
) {
    match raw {
        None => (Seq::empty(), default_dir, None),
        Some(c) => {
            let dir = counted_string(raw_view(c.data_dir))->Ok_0;
            let motd = counted_string(raw_view(c.motd))->Ok_0;
            (
                c.public_nodes@.map_values(|n: Option<Vec<u8>>| counted_string(raw_view(n))->Ok_0),
                if dir.len() == 0 {
                    default_dir
                } else {
                    dir
                },
                if motd.len() == 0 {
                    None
                } else {
                    Some(motd)
                },
            )
        },
    }
}

/// Every string of a configuration reads.
pub open spec fn config_reads(raw: Option<RawConfig>) -> bool {
    match raw {
        None => true,
        Some(c) => all_read(c.public_nodes@) && counted_string(raw_view(c.data_dir)) is Ok
            && counted_string(raw_view(c.motd)) is Ok,
    }
}

/// What `terracotta_configure` does with its argument: every string must
/// read (else -2), and the session must be waiting (else -3).
pub fn configure_request(raw: Option<RawConfig>, state: SessionStateId, default_dir: String) -> (r:
    Result<ContextConfig, i32>)
    ensures
        !config_reads(raw) ==> r == Err::<ContextConfig, i32>(TERRA_ERR_INVALID_ARGUMENT),
        config_reads(raw) && state != SessionStateId::Waiting ==> r == Err::<ContextConfig, i32>(
            TERRA_ERR_BAD_STATE,
        ),
        config_reads(raw) && state == SessionStateId::Waiting ==> (r matches Ok(c) && {
            let (nodes, dir, motd) = configured(raw, default_dir@);
            &&& strings_view(c.public_nodes@) == nodes
            &&& c.data_dir@ == dir
            &&& option_string_view(c.motd) == motd
        }),
{
    let ghost raw_copy = raw;
    let mut public_nodes: Vec<String> = Vec::new();
    let mut data_dir = default_dir;
    let mut motd: Option<String> = None;
    match raw {
        Some(c) => {
            let mut i: usize = 0;
            while i < c.public_nodes.len()
                invariant
                    raw_copy == Some(c),
                    raw == raw_copy,
                    0 <= i <= c.public_nodes.len(),
                    all_read(c.public_nodes@.take(i as int)),
                    strings_view(public_nodes@) == c.public_nodes@.take(i as int).map_values(
                        |n: Option<Vec<u8>>| counted_string(raw_view(n))->Ok_0,
                    ),
                decreases c.public_nodes.len() - i,
            {
                let node = match &c.public_nodes[i] {
                    Some(b) => read_string(Some(b.as_slice())),
                    None => read_string(None),
                };
                assert(raw_view(c.public_nodes@[i as int]) == match c.public_nodes@[i as int] {
                    Some(b) => Some(b@),
                    None => None::<Seq<u8>>,
                });
                let node = match node {
                    Ok(n) => n,
                    Err(e) => {
                        assert(counted_string(raw_view(c.public_nodes@[i as int])) is Err);
                        assert(!all_read(c.public_nodes@));
                        return Err(e);
                    },
                };
                let ghost before = public_nodes@;
                public_nodes.push(node);
                proof {
                    let t = c.public_nodes@.take(i + 1);
                    assert(t =~= c.public_nodes@.take(i as int).push(c.public_nodes@[i as int]));
                    assert(strings_view(public_nodes@) =~= strings_view(before).push(node@));
                    assert forall|k: int| 0 <= k < t.len() implies #[trigger] counted_string(
                        raw_view(t[k]),
                    ) is Ok by {
                        if k < i {
                            assert(t[k] == c.public_nodes@.take(i as int)[k]);
                        }
                    }
                    assert(t.map_values(|n: Option<Vec<u8>>| counted_string(raw_view(n))->Ok_0)
                        =~= c.public_nodes@.take(i as int).map_values(
                        |n: Option<Vec<u8>>| counted_string(raw_view(n))->Ok_0,
                    ).push(node@));
                }
                i += 1;
            }
            assert(c.public_nodes@.take(i as int) =~= c.public_nodes@);
            let dir = match &c.data_dir {
                Some(b) => read_string(Some(b.as_slice())),
                None => read_string(None),
            };
            let dir = match dir {
                Ok(d) => d,
                Err(e) => {
                    return Err(e);
                },
            };
            let m = match &c.motd {
                Some(b) => read_string(Some(b.as_slice())),
                None => read_string(None),
            };
            let m = match m {
                Ok(m) => m,
                Err(e) => {
                    return Err(e);
                },
            };
            if dir.as_str().unicode_len() > 0 {
                data_dir = dir;
            }
            if m.as_str().unicode_len() > 0 {
                motd = Some(m);
            }
        },
        None => {
            assert(strings_view(public_nodes@) =~= Seq::<Seq<char>>::empty());
        },
    }
    if state != SessionStateId::Waiting {
        return Err(TERRA_ERR_BAD_STATE);
    }
    Ok(ContextConfig { public_nodes, data_dir, motd })
}

} // verus!
