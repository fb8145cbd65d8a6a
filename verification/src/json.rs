//! JSON documents as plain values, and their text form through `serde_json`.
use vstd::prelude::*;
use serde_json::Value;

verus! {

/// A JSON document. Objects keep their members in the order given; a
/// number that is not an integer is kept as its text.
#[derive(Debug, PartialEq)]
pub enum Json {
    Null,
    Bool(bool),
    UInt(u64),
    Int(i64),
    Real(String),
    Str(String),
    Array(Vec<Json>),
    Object(Vec<(String, Json)>),
}

/// What a JSON document holds, as plain values.
pub enum JsonV {
    Null,
    Bool(bool),
    UInt(u64),
    Int(i64),
    Real(Seq<char>),
    Str(Seq<char>),
    Array(Seq<JsonV>),
    Object(Seq<(Seq<char>, JsonV)>),
}

pub open spec fn json_view(j: Json) -> JsonV
    decreases j,
{
    match j {
        Json::Null => JsonV::Null,
        Json::Bool(b) => JsonV::Bool(b),
        Json::UInt(n) => JsonV::UInt(n),
        Json::Int(n) => JsonV::Int(n),
        Json::Real(t) => JsonV::Real(t@),
        Json::Str(t) => JsonV::Str(t@),
        Json::Array(v) => JsonV::Array(json_seq_view(v@)),
        Json::Object(m) => JsonV::Object(json_members_view(m@)),
    }
}

pub open spec fn json_seq_view(s: Seq<Json>) -> Seq<JsonV>
    decreases s,
{
    if s.len() == 0 {
        Seq::empty()
    } else {
        seq![json_view(s[0])] + json_seq_view(s.drop_first())
    }
}

pub open spec fn json_members_view(s: Seq<(String, Json)>) -> Seq<(Seq<char>, JsonV)>
    decreases s,
{
    if s.len() == 0 {
        Seq::empty()
    } else {
        seq![(s[0].0@, json_view(s[0].1))] + json_members_view(s.drop_first())
    }
}

/// The element views, position by position.
pub proof fn lemma_json_seq_view(s: Seq<Json>)
    ensures
        json_seq_view(s).len() == s.len(),
        forall|k: int| 0 <= k < s.len() ==> #[trigger] json_seq_view(s)[k] == json_view(s[k]),
    decreases s.len(),
{
    if s.len() > 0 {
        lemma_json_seq_view(s.drop_first());
        assert forall|k: int| 0 <= k < s.len() implies #[trigger] json_seq_view(s)[k] == json_view(
            s[k],
        ) by {
            if k > 0 {
                assert(s.drop_first()[k - 1] == s[k]);
            }
        }
    }
}

/// The member views, position by position.
pub proof fn lemma_json_members_view(s: Seq<(String, Json)>)
    ensures
        json_members_view(s).len() == s.len(),
        forall|k: int|
            0 <= k < s.len() ==> #[trigger] json_members_view(s)[k] == (s[k].0@, json_view(s[k].1)),
    decreases s.len(),
{
    if s.len() > 0 {
        lemma_json_members_view(s.drop_first());
        assert forall|k: int| 0 <= k < s.len() implies #[trigger] json_members_view(s)[k] == (
            s[k].0@,
            json_view(s[k].1),
        ) by {
            if k > 0 {
                assert(s.drop_first()[k - 1] == s[k]);
            }
        }
    }
}

impl View for Json {
    type V = JsonV;

    open spec fn view(&self) -> JsonV {
        json_view(*self)
    }
}

/// An object of string members.
pub open spec fn string_object(members: Seq<(Seq<char>, Seq<char>)>) -> JsonV {
    JsonV::Object(members.map_values(|m: (Seq<char>, Seq<char>)| (m.0, JsonV::Str(m.1))))
}

/// The bytes that `serde_json::to_vec` writes for the document.
pub uninterp spec fn json_encoding(j: JsonV) -> Seq<u8>;

/// What `serde_json::from_str::<serde_json::Value>` reads from a text: the
/// document, or the `Debug` text of the `std::io::Error` that its error
/// converts into.
pub uninterp spec fn json_from_text(text: Seq<char>) -> Result<JsonV, Seq<char>>;

/// What `serde_json::from_slice::<serde_json::Value>` reads from bytes;
/// `None` where it fails.
pub uninterp spec fn json_from_bytes(bytes: Seq<u8>) -> Option<JsonV>;

/// What `String::from_utf8_lossy` makes of bytes.
pub uninterp spec fn utf8_lossy(bytes: Seq<u8>) -> Seq<char>;

pub open spec fn text_result_view(r: Result<Json, String>) -> Result<JsonV, Seq<char>> {
    match r {
        Ok(j) => Ok(j@),
        Err(e) => Err(e@),
    }
}

#[verifier::external_type_specification]
#[verifier::external_body]
pub struct ExJsonValue(serde_json::Value);

/// Converts a document into a `serde_json::Value`, variant for variant.
#[verifier::external_body]
fn to_serde(j: &Json) -> Value {
    match j {
        Json::Null => Value::Null,
        Json::Bool(b) => Value::Bool(*b),
        Json::UInt(n) => Value::from(*n),
        Json::Int(n) => Value::from(*n),
        Json::Real(t) => serde_json::from_str(t).unwrap_or(Value::Null),
        Json::Str(s) => Value::String(s.clone()),
        Json::Array(v) => Value::Array(v.iter().map(to_serde).collect()),
        Json::Object(m) => Value::Object(m.iter().map(|(k, v)| (k.clone(), to_serde(v))).collect()),
    }
}

/// Converts a `serde_json::Value` into a document, variant for variant; a
/// number is an unsigned, a signed or another number as `Number` tells.
#[verifier::external_body]
fn from_serde(v: &Value) -> Json {
    match v {
        Value::Null => Json::Null,
        Value::Bool(b) => Json::Bool(*b),
        Value::Number(n) => match (n.as_u64(), n.as_i64()) {
            (Some(u), _) => Json::UInt(u),
            (None, Some(i)) => Json::Int(i),
            (None, None) => Json::Real(n.to_string()),
        },
        Value::String(s) => Json::Str(s.clone()),
        Value::Array(a) => Json::Array(a.iter().map(from_serde).collect()),
        Value::Object(m) => Json::Object(m.iter().map(|(k, v)| (k.clone(), from_serde(v))).collect()),
    }
}

/// The JSON text of a document (`serde_json::to_vec`; a `Value` always
/// serializes, its map keys being strings).
#[verifier::external_body]
pub fn encode_json(j: &Json) -> (r: Vec<u8>)
    ensures
        r@ == json_encoding(j@),
{
    serde_json::to_vec(&to_serde(j)).unwrap_or_default()
}

/// Reads a document from text (`serde_json::from_str`); an error comes back
/// as the `Debug` text of the `std::io::Error` it converts into.
#[verifier::external_body]
pub fn decode_json_text(text: &str) -> (r: Result<Json, String>)
    ensures
        text_result_view(r) == json_from_text(text@),
{
    match serde_json::from_str::<serde_json::Value>(text) {
        Ok(v) => Ok(from_serde(&v)),
        Err(e) => Err(format!("{:?}", std::io::Error::from(e))),
    }
}

/// Reads a document from bytes (`serde_json::from_slice`).
#[verifier::external_body]
pub fn decode_json_bytes(bytes: &[u8]) -> (r: Option<Json>)
    ensures
        r matches Some(j) ==> json_from_bytes(bytes@) == Some(j@),
        r is None ==> json_from_bytes(bytes@) is None,
{
    match serde_json::from_slice::<serde_json::Value>(bytes) {
        Ok(v) => Some(from_serde(&v)),
        Err(_) => None,
    }
}

/// Decodes bytes as UTF-8, replacing invalid sequences
/// (`String::from_utf8_lossy`); valid UTF-8 decodes exactly.
#[verifier::external_body]
pub fn lossy_text(bytes: &[u8]) -> (r: String)
    ensures
        r@ == utf8_lossy(bytes@),
        vstd::utf8::valid_utf8(bytes@) ==> r@ == vstd::utf8::decode_utf8(bytes@),
{
    String::from_utf8_lossy(bytes).into_owned()
}

/// Decodes bytes as UTF-8 (`std::str::from_utf8`); `None` where they are
/// not valid UTF-8.
#[verifier::external_body]
pub fn utf8_text(bytes: &[u8]) -> (r: Option<String>)
    ensures
        r matches Some(s) ==> vstd::utf8::valid_utf8(bytes@) && s@ == vstd::utf8::decode_utf8(
            bytes@,
        ),
        r is None ==> !vstd::utf8::valid_utf8(bytes@),
{
    match std::str::from_utf8(bytes) {
        Ok(s) => Some(s.to_string()),
        Err(_) => None,
    }
}

/// A string member of an object.
pub fn str_member(key: &str, value: &str) -> (r: (String, Json))
    ensures
        r.0@ == key@,
        r.1@ == JsonV::Str(value@),
{
    (crate::text::owned(key), Json::Str(crate::text::owned(value)))
}

/// The value of the first member named `key`, if the document is an object
/// that has one.
pub open spec fn member(j: JsonV, key: Seq<char>) -> Option<JsonV> {
    match j {
        JsonV::Object(m) => if exists|i: int| 0 <= i < m.len() && m[i].0 == key {
            Some(m[first_key_index(m, key)].1)
        } else {
            None
        },
        _ => None,
    }
}

/// The index of the first member named `key`.
pub open spec fn first_key_index(m: Seq<(Seq<char>, JsonV)>, key: Seq<char>) -> int
    recommends
        exists|i: int| 0 <= i < m.len() && m[i].0 == key,
{
    choose|i: int| 0 <= i < m.len() && m[i].0 == key && forall|k: int| 0 <= k < i ==> m[k].0 != key
}

/// The text of the member named `key`, if the document is an object whose
/// member of that name is a string.
pub open spec fn str_field(j: JsonV, key: Seq<char>) -> Option<Seq<char>> {
    match member(j, key) {
        Some(JsonV::Str(s)) => Some(s),
        _ => None,
    }
}

impl Json {
    /// The text of the member named `key` (`as_object()?.get(key)?.as_str()`).
    #[verifier::spinoff_prover]
    pub fn get_str(&self, key: &str) -> (r: Option<&str>)
        ensures
            r matches Some(s) ==> str_field(self@, key@) == Some(s@),
            r is None ==> str_field(self@, key@) is None,
    {
        match self {
            Json::Object(m) => {
                let mut i: usize = 0;
                while i < m.len()
                    invariant
                        *self == Json::Object(*m),
                        0 <= i <= m.len(),
                        forall|k: int| 0 <= k < i ==> m@[k].0@ != key@,
                    decreases m.len() - i,
                {
                    if crate::text::same_text(m[i].0.as_str(), key) {
                        proof {
                            let mv = json_members_view(m@);
                            lemma_json_members_view(m@);
                            assert(mv[i as int].0 == key@);
                            assert forall|k: int| 0 <= k < i implies mv[k].0 != key@ by {
                                assert(mv[k].0 == m@[k].0@);
                            }
                            assert(first_key_index(mv, key@) == i as int) by {
                                let w = first_key_index(mv, key@);
                                if w < i {
                                    assert(mv[w].0 == m@[w].0@);
                                }
                                if w > i {
                                }
                            }
                            assert(mv[i as int].1 == json_view(m@[i as int].1));
                            assert(member(self@, key@) == Some(json_view(m@[i as int].1)));
                        }
                        return match &m[i].1 {
                            Json::Str(s) => Some(s.as_str()),
                            _ => None,
                        };
                    }
                    i += 1;
                }
                proof {
                    let mv = json_members_view(m@);
                    lemma_json_members_view(m@);
                    assert forall|k: int| 0 <= k < mv.len() implies mv[k].0 != key@ by {
                        assert(mv[k].0 == m@[k].0@);
                    }
                }
                None
            },
            _ => None,
        }
    }
}

} // verus!
