//! Events handed to the embedding program, and their JSON payloads.
use vstd::prelude::*;
use crate::json::{str_member, Json, JsonV};
use crate::profile::{Profile, ProfileKind, ProfileView};
use crate::session::{
    difficulty_number, state_number, ConnectionDifficulty, SessionStateId,
};
use crate::text::owned;

verus! {

#[derive(Debug, Clone, PartialEq)]
pub enum Event {
    StateChanged { state: SessionStateId, version: u64 },
    PlayerJoined { profile: Profile },
    PlayerLeft { machine_id: String },
    ConnectionDifficulty { difficulty: ConnectionDifficulty },
    HostReady { room_code: String, port: u16 },
    GuestReady { url: String },
    Error { code: u32, message: String },
}

/// What an event holds, as plain values.
pub enum EventV {
    StateChanged { state: SessionStateId, version: u64 },
    PlayerJoined { profile: ProfileView },
    PlayerLeft { machine_id: Seq<char> },
    ConnectionDifficulty { difficulty: ConnectionDifficulty },
    HostReady { room_code: Seq<char>, port: u16 },
    GuestReady { url: Seq<char> },
    Error { code: u32, message: Seq<char> },
}

impl View for Event {
    type V = EventV;

    open spec fn view(&self) -> EventV {
        match *self {
            Event::StateChanged { state, version } => EventV::StateChanged { state, version },
            Event::PlayerJoined { profile } => EventV::PlayerJoined { profile: profile@ },
            Event::PlayerLeft { machine_id } => EventV::PlayerLeft { machine_id: machine_id@ },
            Event::ConnectionDifficulty { difficulty } => EventV::ConnectionDifficulty { difficulty },
            Event::HostReady { room_code, port } => EventV::HostReady { room_code: room_code@, port },
            Event::GuestReady { url } => EventV::GuestReady { url: url@ },
            Event::Error { code, message } => EventV::Error { code, message: message@ },
        }
    }
}

pub open spec fn events_view(q: Seq<Event>) -> Seq<EventV> {
    q.map_values(|e: Event| e@)
}

/// The type number of an event in the public interface.
pub open spec fn event_type_number(e: Event) -> u8 {
    match e {
        Event::StateChanged { .. } => 1,
        Event::PlayerJoined { .. } => 2,
        Event::PlayerLeft { .. } => 3,
        Event::ConnectionDifficulty { .. } => 4,
        Event::HostReady { .. } => 5,
        Event::GuestReady { .. } => 6,
        Event::Error { .. } => 7,
    }
}

/// The name of a profile kind in JSON.
pub open spec fn kind_name(k: ProfileKind) -> Seq<char> {
    match k {
        ProfileKind::Host => "HOST"@,
        ProfileKind::Local => "LOCAL"@,
        ProfileKind::Guest => "GUEST"@,
    }
}

/// A profile as a JSON object.
pub open spec fn profile_json(p: ProfileView) -> JsonV {
    JsonV::Object(
        seq![
            ("machine_id"@, JsonV::Str(p.machine_id)),
            ("name"@, JsonV::Str(p.name)),
            ("vendor"@, JsonV::Str(p.vendor)),
            ("kind"@, JsonV::Str(kind_name(p.kind))),
        ],
    )
}

/// The JSON payload of an event.
pub open spec fn event_payload(e: Event) -> JsonV {
    match e {
        Event::StateChanged { state, version } => JsonV::Object(
            seq![("state"@, JsonV::UInt(state_number(state) as u64)), ("version"@, JsonV::UInt(version))],
        ),
        Event::PlayerJoined { profile } => JsonV::Object(seq![("profile"@, profile_json(profile@))]),
        Event::PlayerLeft { machine_id } => JsonV::Object(seq![("machine_id"@, JsonV::Str(machine_id@))]),
        Event::ConnectionDifficulty { difficulty } => JsonV::Object(
            seq![("difficulty"@, JsonV::UInt(difficulty_number(difficulty) as u64))],
        ),
        Event::HostReady { room_code, port } => JsonV::Object(
            seq![("room"@, JsonV::Str(room_code@)), ("port"@, JsonV::UInt(port as u64))],
        ),
        Event::GuestReady { url } => JsonV::Object(seq![("url"@, JsonV::Str(url@))]),
        Event::Error { code, message } => JsonV::Object(
            seq![("code"@, JsonV::UInt(code as u64)), ("message"@, JsonV::Str(message@))],
        ),
    }
}

/// The JSON name of a profile kind.
pub fn kind_text(k: ProfileKind) -> (r: &'static str)
    ensures
        r@ == kind_name(k),
{
    match k {
        ProfileKind::Host => "HOST",
        ProfileKind::Local => "LOCAL",
        ProfileKind::Guest => "GUEST",
    }
}

/// A profile as a JSON object (how `Profile` serializes).
pub fn profile_to_json(p: &Profile) -> (r: Json)
    ensures
        r@ == profile_json(p@),
{
    let members = vec![
        str_member("machine_id", p.get_machine_id()),
        str_member("name", p.get_name()),
        str_member("vendor", p.get_vendor()),
        str_member("kind", kind_text(p.get_kind())),
    ];
    proof {
        crate::json::lemma_json_members_view(members@);
        assert(crate::json::json_members_view(members@) =~= seq![
            ("machine_id"@, JsonV::Str(p@.machine_id)),
            ("name"@, JsonV::Str(p@.name)),
            ("vendor"@, JsonV::Str(p@.vendor)),
            ("kind"@, JsonV::Str(kind_name(p@.kind))),
        ]);
    }
    Json::Object(members)
}

/// A member holding an unsigned number.
pub fn uint_member(key: &str, value: u64) -> (r: (String, Json))
    ensures
        r.0@ == key@,
        r.1@ == JsonV::UInt(value),
{
    (owned(key), Json::UInt(value))
}

impl Event {
    pub fn type_id(&self) -> (r: u8)
        ensures
            r == event_type_number(*self),
    {
        match self {
            Event::StateChanged { .. } => 1,
            Event::PlayerJoined { .. } => 2,
            Event::PlayerLeft { .. } => 3,
            Event::ConnectionDifficulty { .. } => 4,
            Event::HostReady { .. } => 5,
            Event::GuestReady { .. } => 6,
            Event::Error { .. } => 7,
        }
    }

    pub fn payload_json(&self) -> (r: Json)
        ensures
            r@ == event_payload(*self),
    {
        let members: Vec<(String, Json)> = match self {
            Event::StateChanged { state, version } => vec![
                uint_member("state", state.id() as u64),
                uint_member("version", *version),
            ],
            Event::PlayerJoined { profile } => vec![(owned("profile"), profile_to_json(profile))],
            Event::PlayerLeft { machine_id } => vec![str_member("machine_id", machine_id.as_str())],
            Event::ConnectionDifficulty { difficulty } => vec![
                uint_member("difficulty", difficulty.id() as u64),
            ],
            Event::HostReady { room_code, port } => vec![
                str_member("room", room_code.as_str()),
                uint_member("port", *port as u64),
            ],
            Event::GuestReady { url } => vec![str_member("url", url.as_str())],
            Event::Error { code, message } => vec![
                uint_member("code", *code as u64),
                str_member("message", message.as_str()),
            ],
        };
        proof {
            crate::json::lemma_json_members_view(members@);
            match event_payload(*self) {
                JsonV::Object(m) => {
                    assert(crate::json::json_members_view(members@) =~= m);
                },
                _ => {},
            }
        }
        Json::Object(members)
    }
}

} // verus!
