//! The full state snapshot handed to the embedding program.
use vstd::prelude::*;
use crate::event::{profile_json, profile_to_json, uint_member};
use crate::json::{str_member, Json, JsonV};
use crate::profile::{Profile, ProfileView};
use crate::session::{error_number, profiles_view, Session, SessionError, SessionStateId};
use crate::text::{owned, push_decimal, push_text, string_of, decimal};

verus! {

pub struct Snapshot {
    pub state: SessionStateId,
    pub version: u64,
    pub room_code: String,
    pub detail: Json,
}

/// The address a guest's game connects to: the default game port is left
/// out.
pub open spec fn guest_url_text(port: Option<u16>) -> Seq<char> {
    match port {
        Some(p) => if p == 25565 {
            "127.0.0.1"@
        } else {
            "127.0.0.1:"@ + decimal(p as nat)
        },
        None => "127.0.0.1"@,
    }
}

/// The message of a session error.
pub open spec fn error_text(e: SessionError) -> Seq<char> {
    match e {
        SessionError::PingHostFail => "cannot reach the host"@,
        SessionError::PingHostRst => "host reset the connection"@,
        SessionError::GuestEasytierCrash => "guest EasyTier process exited"@,
        SessionError::HostEasytierCrash => "host EasyTier process exited"@,
        SessionError::PingServerRst => "Minecraft server connection lost"@,
        SessionError::ScaffoldingInvalidResponse => "invalid scaffolding response"@,
    }
}

/// The profiles as a JSON array.
pub open spec fn profiles_json(ps: Seq<(u64, ProfileView)>) -> Seq<JsonV> {
    ps.map_values(|p: (u64, ProfileView)| profile_json(p.1))
}

/// The detail of a snapshot for a session in `state`.
pub open spec fn detail_json(
    state: SessionStateId,
    port: Option<u16>,
    profiles: Seq<(u64, ProfileView)>,
    error: Option<SessionError>,
) -> JsonV {
    match state {
        SessionStateId::HostOk => JsonV::Object(
            seq![
                ("port"@, match port {
                    Some(p) => JsonV::UInt(p as u64),
                    None => JsonV::Null,
                }),
                ("profiles"@, JsonV::Array(profiles_json(profiles))),
            ],
        ),
        SessionStateId::GuestOk => JsonV::Object(
            seq![
                ("url"@, JsonV::Str(guest_url_text(port))),
                ("profiles"@, JsonV::Array(profiles_json(profiles))),
            ],
        ),
        SessionStateId::Exception => JsonV::Object(
            seq![
                ("error"@, JsonV::Object(
                    seq![
                        ("code"@, JsonV::UInt(
                            match error {
                                Some(e) => error_number(e) as u64,
                                None => 0,
                            },
                        )),
                        ("message"@, JsonV::Str(
                            match error {
                                Some(e) => error_text(e),
                                None => Seq::empty(),
                            },
                        )),
                    ],
                )),
            ],
        ),
        _ => JsonV::Object(Seq::empty()),
    }
}

/// The address a guest's game connects to.
pub fn guest_url(port: Option<u16>) -> (r: String)
    ensures
        r@ == guest_url_text(port),
{
    match port {
        Some(p) => {
            if p == 25565 {
                proof {
                    reveal_strlit("127.0.0.1");
                }
                owned("127.0.0.1")
            } else {
                let mut cs: Vec<char> = Vec::new();
                push_text(&mut cs, "127.0.0.1:");
                push_decimal(&mut cs, p as u64);
                string_of(&cs)
            }
        },
        None => owned("127.0.0.1"),
    }
}

pub fn error_message(error: SessionError) -> (r: &'static str)
    ensures
        r@ == error_text(error),
{
    match error {
        SessionError::PingHostFail => "cannot reach the host",
        SessionError::PingHostRst => "host reset the connection",
        SessionError::GuestEasytierCrash => "guest EasyTier process exited",
        SessionError::HostEasytierCrash => "host EasyTier process exited",
        SessionError::PingServerRst => "Minecraft server connection lost",
        SessionError::ScaffoldingInvalidResponse => "invalid scaffolding response",
    }
}

/// The profiles of a list as JSON objects.
pub fn profiles_to_json(profiles: &Vec<(u64, Profile)>) -> (r: Vec<Json>)
    ensures
        crate::json::json_seq_view(r@) == profiles_json(profiles_view(profiles@)),
{
    let mut out: Vec<Json> = Vec::new();
    let mut i: usize = 0;
    while i < profiles.len()
        invariant
            0 <= i <= profiles.len(),
            out@.len() == i,
            forall|k: int| 0 <= k < i ==> #[trigger] out@[k]@ == profile_json(profiles@[k].1@),
        decreases profiles.len() - i,
    {
        out.push(profile_to_json(&profiles[i].1));
        i += 1;
    }
    proof {
        crate::json::lemma_json_seq_view(out@);
        let pv = profiles_view(profiles@);
        assert forall|k: int| 0 <= k < out@.len() implies crate::json::json_seq_view(out@)[k]
            == #[trigger] profiles_json(pv)[k] by {
            assert(pv[k] == (profiles@[k].0, profiles@[k].1@));
            assert(out@[k]@ == crate::json::json_view(out@[k]));
        }
        assert(crate::json::json_seq_view(out@) =~= profiles_json(pv));
    }
    out
}

impl Snapshot {
    pub fn from<E, S>(session: &Session<E, S>) -> (r: Snapshot)
        ensures
            r.state == session.state,
            r.version == session.version_spec(),
            r.room_code@ == (match session.room {
                Some(room) => room.code@,
                None => Seq::<char>::empty(),
            }),
            r.detail@ == detail_json(
                session.state,
                session.port,
                profiles_view(session.profiles@),
                session.error,
            ),
    {
        let room_code = match &session.room {
            Some(room) => room.code.clone(),
            None => String::new(),
        };
        let ghost expected = detail_json(
            session.state,
            session.port,
            profiles_view(session.profiles@),
            session.error,
        );
        let members: Vec<(String, Json)> = match session.state {
            SessionStateId::HostOk => {
                let port = match session.port {
                    Some(p) => Json::UInt(p as u64),
                    None => Json::Null,
                };
                let ps = profiles_to_json(&session.profiles);
                let ghost psv = crate::json::json_seq_view(ps@);
                let ghost portv = port@;
                let members = vec![(owned("port"), port), (owned("profiles"), Json::Array(ps))];
                proof {
                    crate::json::lemma_json_members_view(members@);
                    assert(crate::json::json_members_view(members@) =~= seq![
                        ("port"@, portv),
                        ("profiles"@, JsonV::Array(psv)),
                    ]);
                    assert(portv == match session.port {
                        Some(p) => JsonV::UInt(p as u64),
                        None => JsonV::Null,
                    });
                    assert(psv == profiles_json(profiles_view(session.profiles@)));
                    assert(session.state == SessionStateId::HostOk);
                    assert(match expected { JsonV::Object(m) => m =~= seq![
                        ("port"@, portv),
                        ("profiles"@, JsonV::Array(psv)),
                    ], _ => false });
                    assert(JsonV::Object(crate::json::json_members_view(members@)) =~~= expected);
                }
                members
            },
            SessionStateId::GuestOk => {
                let ps = profiles_to_json(&session.profiles);
                let ghost psv = crate::json::json_seq_view(ps@);
                let url = guest_url(session.port);
                let ghost urlv = url@;
                let members = vec![(owned("url"), Json::Str(url)), (owned("profiles"), Json::Array(ps))];
                proof {
                    crate::json::lemma_json_members_view(members@);
                    assert(crate::json::json_members_view(members@) =~= seq![
                        ("url"@, JsonV::Str(urlv)),
                        ("profiles"@, JsonV::Array(psv)),
                    ]);
                    assert(match expected { JsonV::Object(m) => m =~= seq![
                        ("url"@, JsonV::Str(urlv)),
                        ("profiles"@, JsonV::Array(psv)),
                    ], _ => false });
                    assert(JsonV::Object(crate::json::json_members_view(members@)) =~~= expected);
                }
                members
            },
            SessionStateId::Exception => {
                let code = match session.error {
                    Some(e) => e.code() as u64,
                    None => 0,
                };
                let message = match session.error {
                    Some(e) => owned(error_message(e)),
                    None => String::new(),
                };
                let inner = vec![uint_member("code", code), (owned("message"), Json::Str(message))];
                proof {
                    crate::json::lemma_json_members_view(inner@);
                    assert(crate::json::json_members_view(inner@) =~= seq![
                        ("code"@, JsonV::UInt(code)),
                        ("message"@, JsonV::Str(message@)),
                    ]);
                }
                let ghost innerv = crate::json::json_members_view(inner@);
                let members = vec![(owned("error"), Json::Object(inner))];
                proof {
                    crate::json::lemma_json_members_view(members@);
                    assert(members@[0].1@ == JsonV::Object(innerv));
                    assert(crate::json::json_members_view(members@) =~= seq![("error"@, JsonV::Object(innerv))]);
                    assert(match expected {
                        JsonV::Object(m) => m.len() == 1 && m[0].0 == "error"@ && match m[0].1 {
                            JsonV::Object(n) => n =~= innerv,
                            _ => false,
                        },
                        _ => false,
                    });
                    assert(match expected { JsonV::Object(m) => m =~= seq![("error"@, JsonV::Object(innerv))], _ => false });
                    assert(JsonV::Object(crate::json::json_members_view(members@)) =~~= expected);
                }
                members
            },
            _ => {
                let members: Vec<(String, Json)> = Vec::new();
                proof {
                    crate::json::lemma_json_members_view(members@);
                    assert(JsonV::Object(crate::json::json_members_view(members@)) =~~= expected);
                }
                members
            },
        };
        Snapshot {
            state: session.state,
            version: session.version(),
            room_code,
            detail: Json::Object(members),
        }
    }
}

} // verus!
