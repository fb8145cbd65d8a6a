//! The requests a host answers: `c:ping`, `c:protocols`, `c:server_port`,
//! `c:player_ping` and `c:player_profiles_list`.
use vstd::prelude::*;
use vstd::string::StrSliceExecFns;
use vstd::utf8::encode_utf8;
use crate::context::{emitted, emitted_views, lemma_emitted_one, lemma_emitted_push, unchanged, Emitter};
use crate::event::{kind_name, kind_text, Event, EventV};
use crate::json::{
    decode_json_text, encode_json, json_encoding, json_from_text, json_seq_view, lemma_json_seq_view,
    lossy_text, str_field, str_member, utf8_lossy, Json, JsonV,
};
use crate::profile::{Profile, ProfileKind, ProfileSnapshot, ProfileView};
use crate::scaffolding::{HandlerError, PacketResponse};
use crate::session::{profiles_view, shared_after, Session, SessionPatch, SessionStateId};
use crate::text::{owned, same_text};

verus! {

/// The requests this host answers, as `c:protocols` lists them.
pub open spec fn protocols_text() -> Seq<char> {
    "c:ping\0c:protocols\0c:server_port\0c:player_ping\0c:player_profiles_list"@
}

/// What a request that no handler takes is answered with.
pub open spec fn not_implemented_text() -> Seq<char> {
    "Requested protocol hasn't been implemented."@
}

/// The two big-endian bytes of a port.
pub open spec fn be16(p: u16) -> Seq<u8> {
    seq![(p / 256) as u8, (p % 256) as u8]
}

/// `i` is the place of the first profile with the machine id `id`.
pub open spec fn first_with_id(ps: Seq<(u64, ProfileView)>, id: Seq<char>, i: int) -> bool {
    &&& 0 <= i < ps.len()
    &&& ps[i].1.machine_id == id
    &&& forall|k: int| 0 <= k < i ==> ps[k].1.machine_id != id
}

/// Some profile has the machine id `id`.
pub open spec fn has_id(ps: Seq<(u64, ProfileView)>, id: Seq<char>) -> bool {
    exists|i: int| 0 <= i < ps.len() && ps[i].1.machine_id == id
}

/// The place of the first profile with the machine id `id`.
pub fn find_profile(profiles: &Vec<(u64, Profile)>, id: &str) -> (r: Option<usize>)
    ensures
        match r {
            Some(i) => first_with_id(profiles_view(profiles@), id@, i as int),
            None => !has_id(profiles_view(profiles@), id@),
        },
{
    let ghost ps = profiles_view(profiles@);
    let mut i: usize = 0;
    while i < profiles.len()
        invariant
            ps == profiles_view(profiles@),
            0 <= i <= profiles.len(),
            forall|k: int| 0 <= k < i ==> ps[k].1.machine_id != id@,
        decreases profiles.len() - i,
    {
        if same_text(profiles[i].1.get_machine_id(), id) {
            assert(ps[i as int].1 == profiles@[i as int].1@);
            return Some(i);
        }
        assert(ps[i as int].1 == profiles@[i as int].1@);
        i += 1;
    }
    None
}

/// The session's content but the profiles, and the version counters, are
/// as they were.
pub open spec fn same_but_profiles<E, S>(a: Session<E, S>, b: Session<E, S>) -> bool {
    &&& b.state == a.state
    &&& b.room == a.room
    &&& b.error == a.error
    &&& b.port == a.port
    &&& b.easytier == a.easytier
    &&& b.server == a.server
    &&& b.difficulty == a.difficulty
    &&& b.host_ip == a.host_ip
}

/// Nothing was announced and nothing but the session changed.
pub open spec fn quiet<E, S>(a: Emitter<E, S>, b: Emitter<E, S>) -> bool {
    &&& b.events@ == a.events@
    &&& b.sequences@ == a.sequences@
    &&& b.numbers@ == a.numbers@
    &&& b.count@ == a.count@
    &&& b.last_taken@ == a.last_taken@
    &&& b.dropped == a.dropped
    &&& b.next_seq == a.next_seq
    &&& b.shutdown == a.shutdown
    &&& b.config == a.config
    &&& b.scaffolding_port == a.scaffolding_port
}

/// The session was committed once as shared: the version stayed, the
/// refresh was counted, and every token kept its standing.
pub open spec fn shared_commit<E, S>(a: Session<E, S>, b: Session<E, S>) -> bool {
    &&& b.version_spec() == a.version_spec()
    &&& b.shared_spec() == shared_after(a.shared_spec())
}

/// The state event of a shared commit of `a`: its state and version.
pub open spec fn shared_state_event<E, S>(a: Session<E, S>) -> EventV {
    EventV::StateChanged { state: a.state, version: a.version_spec() as u64 }
}

/// A successful answer with an empty payload.
pub open spec fn empty_success(r: Result<PacketResponse, HandlerError>) -> bool {
    r matches Ok(PacketResponse::Success { data }) && data@.len() == 0
}

/// What `c:ping` answers: the body.
pub open spec fn ping_outcome(body: Seq<u8>, r: Result<PacketResponse, HandlerError>) -> bool {
    r matches Ok(PacketResponse::Success { data }) && data@ == body
}

/// What `c:protocols` answers.
pub open spec fn protocols_outcome(r: Result<PacketResponse, HandlerError>) -> bool {
    r matches Ok(PacketResponse::Success { data }) && data@ == encode_utf8(protocols_text())
}

/// What `c:server_port` answers: the game port of a running host, else
/// status 32.
pub open spec fn server_port_outcome<E, S>(
    s: Session<E, S>,
    r: Result<PacketResponse, HandlerError>,
) -> bool {
    if s.state == SessionStateId::HostOk && s.port is Some {
        r matches Ok(PacketResponse::Success { data }) && data@ == be16(s.port->0)
    } else {
        r matches Ok(PacketResponse::Fail { status, data }) && status == 32 && data@.len() == 0
    }
}

/// A listed profile as `c:player_profiles_list` writes it.
pub open spec fn listed_profile_json(p: ProfileView) -> JsonV {
    JsonV::Object(
        seq![
            ("kind"@, JsonV::Str(kind_name(p.kind))),
            ("machine_id"@, JsonV::Str(p.machine_id)),
            ("name"@, JsonV::Str(p.name)),
            ("vendor"@, JsonV::Str(p.vendor)),
        ],
    )
}

/// The list of a session's profiles as `c:player_profiles_list` writes it.
pub open spec fn listed_profiles(ps: Seq<(u64, ProfileView)>) -> JsonV {
    JsonV::Array(ps.map_values(|p: (u64, ProfileView)| listed_profile_json(p.1)))
}

/// No profile of the list is the local player.
pub open spec fn no_local(ps: Seq<(u64, ProfileView)>) -> bool {
    forall|k: int| 0 <= k < ps.len() ==> ps[k].1.kind != ProfileKind::Local
}

/// What `c:player_profiles_list` answers: the profiles of a running host,
/// else an error.
pub open spec fn profiles_list_outcome<E, S>(
    s: Session<E, S>,
    r: Result<PacketResponse, HandlerError>,
) -> bool {
    if s.state == SessionStateId::HostOk {
        r matches Ok(PacketResponse::Success { data }) && data@ == json_encoding(
            listed_profiles(profiles_view(s.profiles@)),
        )
    } else {
        r == Err::<PacketResponse, HandlerError>(HandlerError::ExpectingHostOk)
    }
}

/// What `c:player_ping` does for a guest that reports `name`, `id` and
/// `vendor`: a known guest is seen again at `now` (and renamed, which is
/// committed and announced); an unknown one joins; the host's id is
/// refused.
pub open spec fn ping_effect<E, S>(
    a: Emitter<E, S>,
    b: Emitter<E, S>,
    name: Seq<char>,
    id: Seq<char>,
    vendor: Seq<char>,
    now: u64,
    r: Result<PacketResponse, HandlerError>,
) -> bool {
    let ps = profiles_view(a.session.profiles@);
    if has_id(ps, id) {
        forall|i: int|
            #![trigger first_with_id(ps, id, i)]
            first_with_id(ps, id, i) ==> if i == 0 {
                r == Err::<PacketResponse, HandlerError>(HandlerError::CannotModifyHost) && unchanged(
                    a,
                    b,
                )
            } else {
                refresh_effect(a, b, i, name, now, r)
            }
    } else {
        join_effect(a, b, ProfileView { machine_id: id, name, vendor, kind: ProfileKind::Guest }, now, r)
    }
}

/// The guest at `i` is seen at `now` under `name`; a new name is committed
/// and announced.
pub open spec fn refresh_effect<E, S>(
    a: Emitter<E, S>,
    b: Emitter<E, S>,
    i: int,
    name: Seq<char>,
    now: u64,
    r: Result<PacketResponse, HandlerError>,
) -> bool {
    let ps = profiles_view(a.session.profiles@);
    &&& empty_success(r)
    &&& same_but_profiles(a.session, b.session)
    &&& profiles_view(b.session.profiles@) == ps.update(i, (now, ProfileView { name, ..ps[i].1 }))
    &&& if ps[i].1.name == name {
        &&& b.session.version_spec() == a.session.version_spec()
        &&& b.session.shared_spec() == a.session.shared_spec()
        &&& quiet(a, b)
    } else {
        &&& shared_commit(a.session, b.session)
        &&& emitted_views(a, b, seq![shared_state_event(a.session)])
    }
}

/// `joined` joins at `now`, which is committed and announced.
pub open spec fn join_effect<E, S>(
    a: Emitter<E, S>,
    b: Emitter<E, S>,
    joined: ProfileView,
    now: u64,
    r: Result<PacketResponse, HandlerError>,
) -> bool {
    &&& empty_success(r)
    &&& same_but_profiles(a.session, b.session)
    &&& profiles_view(b.session.profiles@) == profiles_view(a.session.profiles@).push((now, joined))
    &&& shared_commit(a.session, b.session)
    &&& emitted_views(
        a,
        b,
        seq![shared_state_event(a.session), EventV::PlayerJoined { profile: joined }],
    )
}

/// What `c:player_ping` does with its body: it must be a JSON object with
/// the strings `name`, `machine_id` and `vendor`.
pub open spec fn player_ping_outcome<E, S>(
    a: Emitter<E, S>,
    b: Emitter<E, S>,
    body: Seq<u8>,
    now: u64,
    r: Result<PacketResponse, HandlerError>,
) -> bool {
    match json_from_text(utf8_lossy(body)) {
        Err(t) => r matches Err(HandlerError::Json(m)) && m@ == t && unchanged(a, b),
        Ok(j) => player_ping_value_outcome(a, b, j, now, r),
    }
}

/// What a `c:player_ping` whose body decoded to `j` does: a report with the
/// three texts `name`, `machine_id` and `vendor` is recorded; any other value
/// is refused as invalid input.
pub open spec fn player_ping_value_outcome<E, S>(
    a: Emitter<E, S>,
    b: Emitter<E, S>,
    j: JsonV,
    now: u64,
    r: Result<PacketResponse, HandlerError>,
) -> bool {
    match (str_field(j, "name"@), str_field(j, "machine_id"@), str_field(j, "vendor"@)) {
        (Some(name), Some(id), Some(vendor)) => ping_effect(a, b, name, id, vendor, now, r),
        _ => r == Err::<PacketResponse, HandlerError>(HandlerError::InvalidInput) && unchanged(a, b),
    }
}

/// Where some profile has the machine id `id`, a first one has.
proof fn lemma_first_below(ps: Seq<(u64, ProfileView)>, id: Seq<char>, w: int) -> (i: int)
    requires
        0 <= w < ps.len(),
        ps[w].1.machine_id == id,
    ensures
        first_with_id(ps, id, i),
    decreases w,
{
    if exists|k: int| 0 <= k < w && ps[k].1.machine_id == id {
        let k = choose|k: int| 0 <= k < w && ps[k].1.machine_id == id;
        lemma_first_below(ps, id, k)
    } else {
        w
    }
}

/// A guest whose report was taken is listed afterwards under its name,
/// seen at the time of the report.
pub proof fn lemma_ping_lists_guest<E, S>(
    a: Emitter<E, S>,
    b: Emitter<E, S>,
    name: Seq<char>,
    id: Seq<char>,
    vendor: Seq<char>,
    now: u64,
    r: Result<PacketResponse, HandlerError>,
)
    requires
        ping_effect(a, b, name, id, vendor, now, r),
        r is Ok,
    ensures
        exists|k: int|
            0 <= k < profiles_view(b.session.profiles@).len() && (#[trigger] profiles_view(
                b.session.profiles@,
            )[k]).0 == now && profiles_view(b.session.profiles@)[k].1.machine_id == id
                && profiles_view(b.session.profiles@)[k].1.name == name,
{
    let ps = profiles_view(a.session.profiles@);
    let bs = profiles_view(b.session.profiles@);
    if has_id(ps, id) {
        let w = choose|w: int| 0 <= w < ps.len() && ps[w].1.machine_id == id;
        let i = lemma_first_below(ps, id, w);
        assert(bs[i] == (now, ProfileView { name, ..ps[i].1 }));
        assert(0 <= i < bs.len() && bs[i].0 == now && bs[i].1.machine_id == id && bs[i].1.name == name);
    } else {
        let k = ps.len() as int;
        assert(bs[k] == (now, ProfileView { machine_id: id, name, vendor, kind: ProfileKind::Guest }));
        assert(0 <= k < bs.len() && bs[k].0 == now && bs[k].1.machine_id == id && bs[k].1.name == name);
    }
}

/// `c:ping`: answers the body.
pub fn handle_ping(body: &[u8]) -> (r: Result<PacketResponse, HandlerError>)
    ensures
        ping_outcome(body@, r),
{
    PacketResponse::ok(vstd::slice::slice_to_vec(body))
}

/// `c:protocols`: lists the requests this host answers, separated by NUL.
pub fn handle_protocols() -> (r: Result<PacketResponse, HandlerError>)
    ensures
        protocols_outcome(r),
{
    let text = "c:ping\0c:protocols\0c:server_port\0c:player_ping\0c:player_profiles_list";
    PacketResponse::ok(text.as_bytes_vec())
}

/// `c:server_port`: the game port of a running host, else status 32.
pub fn handle_server_port<E, S>(session: &Session<E, S>) -> (r: Result<PacketResponse, HandlerError>)
    ensures
        server_port_outcome(*session, r),
{
    let port = if session.state == SessionStateId::HostOk {
        session.port
    } else {
        None
    };
    match port {
        Some(p) => {
            let mut data: Vec<u8> = Vec::new();
            data.push((p / 256) as u8);
            data.push((p % 256) as u8);
            assert(data@ =~= be16(p));
            PacketResponse::ok(data)
        },
        None => PacketResponse::fail(32, Vec::new()),
    }
}

/// A profile as `c:player_profiles_list` writes it.
fn listed_profile_to_json(p: &Profile) -> (r: Json)
    ensures
        r@ == listed_profile_json(p@),
{
    let members = vec![
        str_member("kind", kind_text(p.get_kind())),
        str_member("machine_id", p.get_machine_id()),
        str_member("name", p.get_name()),
        str_member("vendor", p.get_vendor()),
    ];
    proof {
        crate::json::lemma_json_members_view(members@);
        assert(crate::json::json_members_view(members@) =~= seq![
            ("kind"@, JsonV::Str(kind_name(p@.kind))),
            ("machine_id"@, JsonV::Str(p@.machine_id)),
            ("name"@, JsonV::Str(p@.name)),
            ("vendor"@, JsonV::Str(p@.vendor)),
        ]);
    }
    Json::Object(members)
}

/// `c:player_profiles_list`: the profiles of a running host as JSON.
pub fn handle_profiles_list<E, S>(session: &Session<E, S>) -> (r: Result<PacketResponse, HandlerError>)
    requires
        session.state == SessionStateId::HostOk ==> no_local(profiles_view(session.profiles@)),
    ensures
        profiles_list_outcome(*session, r),
{
    if session.state != SessionStateId::HostOk {
        return Err(HandlerError::ExpectingHostOk);
    }
    let mut items: Vec<Json> = Vec::new();
    let mut i: usize = 0;
    while i < session.profiles.len()
        invariant
            0 <= i <= session.profiles.len(),
            items@.len() == i,
            forall|k: int| 0 <= k < i ==> #[trigger] items@[k]@ == listed_profile_json(
                session.profiles@[k].1@,
            ),
        decreases session.profiles.len() - i,
    {
        items.push(listed_profile_to_json(&session.profiles[i].1));
        i += 1;
    }
    proof {
        lemma_json_seq_view(items@);
        let pv = profiles_view(session.profiles@);
        let expected = pv.map_values(|p: (u64, ProfileView)| listed_profile_json(p.1));
        assert forall|k: int| 0 <= k < items@.len() implies json_seq_view(items@)[k]
            == #[trigger] expected[k] by {
            assert(pv[k] == (session.profiles@[k].0, session.profiles@[k].1@));
            assert(items@[k]@ == crate::json::json_view(items@[k]));
        }
        assert(json_seq_view(items@) =~= expected);
    }
    let list = Json::Array(items);
    PacketResponse::ok(encode_json(&list))
}

/// Sees the guest at `i` again at `now` under `name`.
fn refresh_guest<E, S>(emitter: &mut Emitter<E, S>, i: usize, name: String, now: u64) -> (r: Result<
    PacketResponse,
    HandlerError,
>)
    requires
        old(emitter).wf(),
        old(emitter).can_commit(),
        0 < i < old(emitter).session.profiles@.len(),
    ensures
        final(emitter).wf(),
        refresh_effect(*old(emitter), *final(emitter), i as int, name@, now, r),
{
    let ghost a = *emitter;
    let ghost ps = profiles_view(a.session.profiles@);
    let mut p = emitter.session.profiles[i].1.duplicate();
    let renamed = !same_text(p.get_name(), name.as_str());
    if renamed {
        p.set_name(name);
    }
    assert(p@ == ProfileView { name: name@, ..ps[i as int].1 });
    emitter.session.profiles.set(i, (now, p));
    assert(profiles_view(emitter.session.profiles@) =~= ps.update(
        i as int,
        (now, ProfileView { name: name@, ..ps[i as int].1 }),
    ));
    if renamed {
        let ghost m = *emitter;
        emitter.commit_shared(SessionPatch::none());
        proof {
            lemma_emitted_one(m, *emitter, Event::StateChanged {
                state: m.session.state,
                version: m.session.version_spec() as u64,
            });
        }
    }
    PacketResponse::ok(Vec::new())
}

/// Adds `profile` at `now`, commits and announces it.
fn join_guest<E, S>(emitter: &mut Emitter<E, S>, profile: Profile, now: u64) -> (r: Result<
    PacketResponse,
    HandlerError,
>)
    requires
        old(emitter).wf(),
        old(emitter).can_commit(),
    ensures
        final(emitter).wf(),
        join_effect(*old(emitter), *final(emitter), profile@, now, r),
{
    let ghost a = *emitter;
    let ghost ps = profiles_view(a.session.profiles@);
    emitter.session.profiles.push((now, profile.duplicate()));
    assert(profiles_view(emitter.session.profiles@) =~= ps.push((now, profile@)));
    let ghost m = *emitter;
    emitter.commit_shared(SessionPatch::none());
    let ghost m2 = *emitter;
    let event = Event::PlayerJoined { profile };
    emitter.emit(event);
    proof {
        let first = Event::StateChanged {
            state: m.session.state,
            version: m.session.version_spec() as u64,
        };
        lemma_emitted_one(a, m2, first);
        lemma_emitted_push(a, m2, *emitter, seq![first@], event);
        assert(seq![first@].push(event@) =~= seq![
            shared_state_event(a.session),
            EventV::PlayerJoined { profile: profile@ },
        ]);
    }
    PacketResponse::ok(Vec::new())
}

/// Records a guest's report of `name`, `machine_id` and `vendor`.
fn record_ping<E, S>(
    emitter: &mut Emitter<E, S>,
    name: String,
    machine_id: String,
    vendor: String,
    now: u64,
) -> (r: Result<PacketResponse, HandlerError>)
    requires
        old(emitter).wf(),
        old(emitter).can_commit(),
    ensures
        final(emitter).wf(),
        ping_effect(*old(emitter), *final(emitter), name@, machine_id@, vendor@, now, r),
{
    let ghost ps = profiles_view(emitter.session.profiles@);
    match find_profile(&emitter.session.profiles, machine_id.as_str()) {
        Some(i) => {
            proof {
                assert forall|w: int| #[trigger] first_with_id(ps, machine_id@, w) implies w
                    == i as int by {
                    if w < i {
                    }
                    if w > i {
                    }
                }
            }
            if i == 0 {
                return Err(HandlerError::CannotModifyHost);
            }
            refresh_guest(emitter, i, name, now)
        },
        None => {
            let profile = ProfileSnapshot {
                machine_id,
                name,
                vendor,
                kind: ProfileKind::Guest,
            }.into_profile();
            join_guest(emitter, profile, now)
        },
    }
}

/// `c:player_ping`: a guest reports itself.
pub fn handle_player_ping<E, S>(emitter: &mut Emitter<E, S>, body: &[u8], now: u64) -> (r: Result<
    PacketResponse,
    HandlerError,
>)
    requires
        old(emitter).wf(),
        old(emitter).can_commit(),
    ensures
        final(emitter).wf(),
        player_ping_outcome(*old(emitter), *final(emitter), body@, now, r),
{
    let text = lossy_text(body);
    let value = match decode_json_text(text.as_str()) {
        Ok(v) => v,
        Err(t) => {
            return Err(HandlerError::Json(t));
        },
    };
    player_ping_from_json(emitter, &value, now)
}

/// `c:player_ping` on a body already decoded to `value`.
pub fn player_ping_from_json<E, S>(emitter: &mut Emitter<E, S>, value: &Json, now: u64) -> (r:
    Result<PacketResponse, HandlerError>)
    requires
        old(emitter).wf(),
        old(emitter).can_commit(),
    ensures
        final(emitter).wf(),
        player_ping_value_outcome(*old(emitter), *final(emitter), value@, now, r),
{
    let name = match value.get_str("name") {
        Some(s) => owned(s),
        None => {
            return Err(HandlerError::InvalidInput);
        },
    };
    let machine_id = match value.get_str("machine_id") {
        Some(s) => owned(s),
        None => {
            return Err(HandlerError::InvalidInput);
        },
    };
    let vendor = match value.get_str("vendor") {
        Some(s) => owned(s),
        None => {
            return Err(HandlerError::InvalidInput);
        },
    };
    record_ping(emitter, name, machine_id, vendor, now)
}

/// The request names `c:<path>`.
pub open spec fn names(namespace: Seq<char>, path: Seq<char>, p: Seq<char>) -> bool {
    namespace == "c"@ && path == p
}

/// Answers a request: runs the handler its kind names, or answers status
/// 255 where none does.
pub fn dispatch<E, S>(
    emitter: &mut Emitter<E, S>,
    namespace: &str,
    path: &str,
    body: &[u8],
    now: u64,
) -> (r: Result<PacketResponse, HandlerError>)
    requires
        old(emitter).wf(),
        old(emitter).can_commit(),
        names(namespace@, path@, "player_profiles_list"@) && old(emitter).session.state
            == SessionStateId::HostOk ==> no_local(profiles_view(old(emitter).session.profiles@)),
    ensures
        final(emitter).wf(),
        if names(namespace@, path@, "ping"@) {
            ping_outcome(body@, r) && unchanged(*old(emitter), *final(emitter))
        } else if names(namespace@, path@, "protocols"@) {
            protocols_outcome(r) && unchanged(*old(emitter), *final(emitter))
        } else if names(namespace@, path@, "server_port"@) {
            server_port_outcome(old(emitter).session, r) && unchanged(*old(emitter), *final(emitter))
        } else if names(namespace@, path@, "player_ping"@) {
            player_ping_outcome(*old(emitter), *final(emitter), body@, now, r)
        } else if names(namespace@, path@, "player_profiles_list"@) {
            profiles_list_outcome(old(emitter).session, r) && unchanged(
                *old(emitter),
                *final(emitter),
            )
        } else {
            &&& r matches Ok(PacketResponse::Fail { status, data })
            &&& status == 255
            &&& data@ == encode_utf8(not_implemented_text())
            &&& unchanged(*old(emitter), *final(emitter))
        },
{
    let c = same_text(namespace, "c");
    if c && same_text(path, "ping") {
        handle_ping(body)
    } else if c && same_text(path, "protocols") {
        handle_protocols()
    } else if c && same_text(path, "server_port") {
        handle_server_port(&emitter.session)
    } else if c && same_text(path, "player_ping") {
        handle_player_ping(emitter, body, now)
    } else if c && same_text(path, "player_profiles_list") {
        handle_profiles_list(&emitter.session)
    } else {
        let text = "Requested protocol hasn't been implemented.";
        PacketResponse::fail(255, text.as_bytes_vec())
    }
}

} // verus!
