//! The machine id a player is known by: sixteen bytes kept in a file,
//! shown in lowercase hex.
use vstd::prelude::*;

verus! {

/// The lowercase hex digit of `d < 16`.
pub open spec fn hex_lower_digit(d: nat) -> char {
    if d < 10 {
        ((48 + d) as u8) as char
    } else {
        ((87 + d) as u8) as char
    }
}

/// Each byte as two lowercase hex digits, high first.
pub open spec fn lower_hex(bytes: Seq<u8>) -> Seq<char>
    decreases bytes.len(),
{
    if bytes.len() == 0 {
        Seq::empty()
    } else {
        lower_hex(bytes.drop_last()) + seq![
            hex_lower_digit((bytes.last() / 16) as nat),
            hex_lower_digit((bytes.last() % 16) as nat),
        ]
    }
}

/// The bytes in lowercase hex (`hex::encode`): each byte as two digits of
/// `0123456789abcdef`, the high one first.
#[verifier::external_body]
fn hex_encode(bytes: &[u8]) -> (r: String)
    ensures
        r@ == lower_hex(bytes@),
{
    hex::encode(bytes)
}

/// What a read of the machine id file gave.
pub enum StoredId {
    /// The bytes read (a read of up to seventeen).
    Read(Vec<u8>),
    /// The read failed.
    Unreadable,
}

/// What to do with a stored machine id.
pub enum MachineIdPlan {
    /// Use this id.
    Use(String),
    /// Make a new id and store it.
    Renew,
}

/// What a read gave: the bytes, or `None` where it failed.
pub open spec fn stored_view(stored: StoredId) -> Option<Seq<u8>> {
    match stored {
        StoredId::Read(b) => Some(b@),
        StoredId::Unreadable => None,
    }
}

/// The id a plan uses, or `None` where it renews.
pub open spec fn plan_view(plan: MachineIdPlan) -> Option<Seq<char>> {
    match plan {
        MachineIdPlan::Use(id) => Some(id@),
        MachineIdPlan::Renew => None,
    }
}

/// The id that a read gives (`None`: make a new one): sixteen bytes read are
/// the id, a failed read stands for sixteen zero bytes, any other length is
/// renewed.
pub open spec fn planned_id(read: Option<Seq<u8>>) -> Option<Seq<char>> {
    match read {
        Some(b) => if b.len() == 16 {
            Some(lower_hex(b))
        } else {
            None
        },
        None => Some(lower_hex(Seq::new(16, |i: int| 0u8))),
    }
}

/// A lowercase hex digit.
pub open spec fn is_lower_hex_char(c: char) -> bool {
    ('0' <= c && c <= '9') || ('a' <= c && c <= 'f')
}

/// Every character of `t` is a lowercase hex digit.
pub open spec fn lower_hex_text(t: Seq<char>) -> bool {
    forall|i: int| 0 <= i < t.len() ==> is_lower_hex_char(#[trigger] t[i])
}

/// The digits of `lower_hex`: two per byte, each a lowercase hex digit.
pub proof fn lemma_lower_hex_shape(bytes: Seq<u8>)
    ensures
        lower_hex(bytes).len() == 2 * bytes.len(),
        forall|i: int| 0 <= i < lower_hex(bytes).len() ==> is_lower_hex_char(#[trigger] lower_hex(bytes)[i]),
    decreases bytes.len(),
{
    if bytes.len() > 0 {
        let hi = (bytes.last() / 16) as nat;
        let lo = (bytes.last() % 16) as nat;
        lemma_lower_hex_shape(bytes.drop_last());
        lemma_hex_digit(hi);
        lemma_hex_digit(lo);
        let prev = lower_hex(bytes.drop_last());
        assert forall|i: int| 0 <= i < lower_hex(bytes).len() implies is_lower_hex_char(
            #[trigger] lower_hex(bytes)[i],
        ) by {
            if i < prev.len() {
                assert(lower_hex(bytes)[i] == prev[i]);
            }
        }
    }
}

proof fn lemma_hex_digit(d: nat)
    requires
        d < 16,
    ensures
        is_lower_hex_char(hex_lower_digit(d)),
{
    if d < 10 {
        assert(((48 + d) as u8) as char == (48 + d) as char);
    } else {
        assert(((87 + d) as u8) as char == (87 + d) as char);
    }
}

/// The machine id survives a second call. Where the first read gave an id,
/// the file is left alone and a second read of it gives that id again;
/// where the first read asked for a new id, the fresh bytes are stored and
/// handed out as their hex, and a read of them gives back that very id.
/// Either way the id is thirty-two lowercase hex digits.
pub proof fn lemma_machine_id_persists(first: Option<Seq<u8>>, fresh: Seq<u8>)
    requires
        fresh.len() == 16,
    ensures
        ({
            let handed = match planned_id(first) {
                Some(id) => id,
                None => lower_hex(fresh),
            };
            let second = match planned_id(first) {
                Some(_) => first,
                None => Some(fresh),
            };
            &&& planned_id(second) == Some(handed)
            &&& handed.len() == 32
            &&& lower_hex_text(handed)
        }),
{
    lemma_lower_hex_shape(fresh);
    lemma_lower_hex_shape(Seq::new(16, |i: int| 0u8));
    match first {
        Some(b) => {
            lemma_lower_hex_shape(b);
        },
        None => {},
    }
}

/// The plan for what was read: exactly sixteen bytes are the id; a failed
/// read gives the id of sixteen zero bytes; anything else is renewed.
pub fn stored_machine_id(stored: &StoredId) -> (r: MachineIdPlan)
    ensures
        plan_view(r) == planned_id(stored_view(*stored)),
        match stored {
            StoredId::Read(b) => if b@.len() == 16 {
                r matches MachineIdPlan::Use(id) && id@ == lower_hex(b@)
            } else {
                r is Renew
            },
            StoredId::Unreadable => r matches MachineIdPlan::Use(id) && id@ == lower_hex(
                Seq::new(16, |i: int| 0u8),
            ),
        },
{
    match stored {
        StoredId::Read(b) => if b.len() == 16 {
            MachineIdPlan::Use(hex_encode(b.as_slice()))
        } else {
            MachineIdPlan::Renew
        },
        StoredId::Unreadable => {
            let zeros = vec![0u8; 16];
            assert(zeros@ =~= Seq::new(16, |i: int| 0u8));
            MachineIdPlan::Use(hex_encode(zeros.as_slice()))
        },
    }
}

/// A new machine id from the system's random source: its bytes and its
/// text; `None` where the source failed.
pub fn fresh_machine_id() -> (r: Option<(Vec<u8>, String)>)
    ensures
        r matches Some((b, id)) ==> b@.len() == 16 && id@ == lower_hex(b@),
{
    match crate::room::os_random_bytes(16) {
        Some(b) => {
            let id = hex_encode(b.as_slice());
            Some((b, id))
        },
        None => None,
    }
}

} // verus!
