//! The decisions of a host: becoming ready, and watching the game server,
//! the overlay process and the guests.
use vstd::prelude::*;
use crate::context::{emit_all, emitted, emitted_views, excepted, lemma_emitted_one, unchanged, Emitter};
use crate::event::{events_view, Event, EventV};
use crate::profile::{Profile, ProfileView};
use crate::room::Room;
use crate::scaffolding::protocols::{quiet, same_but_profiles, shared_commit, shared_state_event};
use crate::session::{patched, profiles_view, SessionError, SessionPatch, SessionStateId};
use crate::text::owned;

verus! {

/// How long a guest may stay silent, in milliseconds.
pub const GUEST_TIMEOUT_MS: u64 = 10000;

/// How many failed checks of the game server in a row end the session.
pub const MAX_SERVER_FAILURES: u32 = 3;

/// A profile last seen at `t` is gone at `now`.
pub open spec fn expired(t: u64, now: u64) -> bool {
    now >= t && now - t >= GUEST_TIMEOUT_MS
}

/// The profiles at `i - 1` down to 1, the last first: the expired ones are
/// removed and their machine ids recorded, the host's entry at 0 stays.
pub open spec fn expire_down(ps: Seq<(u64, ProfileView)>, now: u64, i: int) -> (
    Seq<(u64, ProfileView)>,
    Seq<Seq<char>>,
)
    decreases i,
{
    if i <= 1 {
        (ps, Seq::empty())
    } else if expired(ps[i - 1].0, now) {
        let (r, l) = expire_down(ps.remove(i - 1), now, i - 1);
        (r, seq![ps[i - 1].1.machine_id] + l)
    } else {
        expire_down(ps, now, i - 1)
    }
}

/// A profile still heard of at `now`.
pub open spec fn live(e: (u64, ProfileView), now: u64) -> bool {
    !expired(e.0, now)
}

proof fn lemma_expire_down_filter(ps: Seq<(u64, ProfileView)>, now: u64, i: int)
    requires
        1 <= i <= ps.len(),
    ensures
        expire_down(ps, now, i).0 == ps.take(1) + ps.subrange(1, i).filter(
            |e: (u64, ProfileView)| live(e, now),
        ) + ps.skip(i),
    decreases i,
{
    reveal(Seq::filter);
    let keep = |e: (u64, ProfileView)| live(e, now);
    if i == 1 {
        assert(ps.subrange(1, 1).filter(keep) =~= Seq::<(u64, ProfileView)>::empty());
        assert(ps =~= ps.take(1) + ps.skip(1));
    } else {
        let sub = ps.subrange(1, i);
        assert(sub.drop_last() =~= ps.subrange(1, i - 1));
        assert(sub.last() == ps[i - 1]);
        if expired(ps[i - 1].0, now) {
            let q = ps.remove(i - 1);
            lemma_expire_down_filter(q, now, i - 1);
            assert(q.take(1) =~= ps.take(1));
            assert(q.subrange(1, i - 1) =~= ps.subrange(1, i - 1));
            assert(q.skip(i - 1) =~= ps.skip(i));
        } else {
            lemma_expire_down_filter(ps, now, i - 1);
            let f = ps.subrange(1, i - 1).filter(keep);
            assert(sub.filter(keep) == f.push(ps[i - 1]));
            assert(ps.take(1) + f + ps.skip(i - 1) =~= ps.take(1) + f.push(ps[i - 1]) + ps.skip(i));
        }
    }
}

/// A round of the watch keeps the host's own entry and exactly the guests
/// heard of within the timeout, in order.
pub proof fn lemma_expire_keeps_live_guests(ps: Seq<(u64, ProfileView)>, now: u64)
    requires
        ps.len() >= 1,
    ensures
        expire_down(ps, now, ps.len() as int).0 == seq![ps[0]] + ps.skip(1).filter(
            |e: (u64, ProfileView)| live(e, now),
        ),
{
    lemma_expire_down_filter(ps, now, ps.len() as int);
    assert(ps.subrange(1, ps.len() as int) =~= ps.skip(1));
    assert(ps.skip(ps.len() as int) =~= Seq::<(u64, ProfileView)>::empty());
    assert(ps.take(1) =~= seq![ps[0]]);
    let f = ps.skip(1).filter(|e: (u64, ProfileView)| live(e, now));
    assert(ps.take(1) + f + ps.skip(ps.len() as int) =~= seq![ps[0]] + f);
}

/// The failure count after a check of the game server.
pub open spec fn next_failures(server_ok: bool, failures: u32) -> u32 {
    if server_ok {
        0
    } else if failures == u32::MAX {
        u32::MAX
    } else {
        (failures + 1) as u32
    }
}

/// How many checks failed in a row at the end of `checks` (`true`: the
/// game server answered).
pub open spec fn failures_in_a_row(checks: Seq<bool>) -> nat
    decreases checks.len(),
{
    if checks.len() == 0 {
        0
    } else if checks.last() {
        0
    } else {
        failures_in_a_row(checks.drop_last()) + 1
    }
}

/// The failure count a watch carries after the checks `checks`, from a
/// fresh start.
pub open spec fn count_after(checks: Seq<bool>) -> u32
    decreases checks.len(),
{
    if checks.len() == 0 {
        0
    } else {
        next_failures(checks.last(), count_after(checks.drop_last()))
    }
}

/// The watch counts the failed checks since the last answer, one by one:
/// after any checks, its count is how many failed in a row at the end
/// (held at the top of `u32`), so it gives up on the game server exactly
/// when the last three checks, and only they, have failed in a row.
pub proof fn lemma_failures_counted_in_a_row(checks: Seq<bool>)
    ensures
        count_after(checks) == if failures_in_a_row(checks) < u32::MAX {
            failures_in_a_row(checks)
        } else {
            u32::MAX as nat
        },
        count_after(checks) >= MAX_SERVER_FAILURES <==> failures_in_a_row(checks) >= 3,
    decreases checks.len(),
{
    if checks.len() > 0 {
        lemma_failures_counted_in_a_row(checks.drop_last());
    }
}

/// One check moves the count: an answer clears it, a failure adds one (held
/// at the top of `u32`).
pub proof fn lemma_next_failures(failures: u32)
    ensures
        next_failures(true, failures) == 0,
        failures < u32::MAX ==> next_failures(false, failures) == failures + 1,
        next_failures(false, u32::MAX) == u32::MAX,
{
}

/// What a host's watch does next.
pub enum MonitorStep {
    /// Watch on, with this many failed checks of the game server in a row.
    Continue(u32),
    /// The watch ends.
    Stop,
}

/// Removes the expired profiles after the first, the last first; gives the
/// machine ids of those removed.
fn expire_profiles(profiles: &mut Vec<(u64, Profile)>, now: u64) -> (left: Vec<String>)
    ensures
        (profiles_view(final(profiles)@), crate::context::strings_view(left@)) == expire_down(
            profiles_view(old(profiles)@),
            now,
            old(profiles)@.len() as int,
        ),
{
    let ghost n = profiles@.len() as int;
    let ghost whole = expire_down(profiles_view(profiles@), now, n);
    let mut left: Vec<String> = Vec::new();
    let mut i: usize = profiles.len();
    assert(crate::context::strings_view(left@) =~= Seq::<Seq<char>>::empty());
    proof {
        assert(whole.1 =~= Seq::<Seq<char>>::empty() + whole.1);
    }
    while i > 1
        invariant
            0 <= i <= profiles@.len(),
            whole == expire_down(profiles_view(old(profiles)@), now, n),
            n == old(profiles)@.len(),
            ({
                let rest = expire_down(profiles_view(profiles@), now, i as int);
                &&& whole.0 == rest.0
                &&& whole.1 == crate::context::strings_view(left@) + rest.1
            }),
        decreases i,
    {
        let k = i - 1;
        let ghost pv = profiles_view(profiles@);
        assert(pv[k as int] == (profiles@[k as int].0, profiles@[k as int].1@));
        if now >= profiles[k].0 && now - profiles[k].0 >= GUEST_TIMEOUT_MS {
            let ghost lv = crate::context::strings_view(left@);
            let (_, gone) = profiles.remove(k);
            left.push(owned(gone.get_machine_id()));
            proof {
                assert(profiles_view(profiles@) =~= pv.remove(k as int));
                assert(crate::context::strings_view(left@) =~= lv.push(gone@.machine_id));
                let rest = expire_down(profiles_view(profiles@), now, k as int);
                assert(lv + (seq![gone@.machine_id] + rest.1) =~= lv.push(gone@.machine_id)
                    + rest.1);
            }
        }
        i = k;
    }
    proof {
        let rest = expire_down(profiles_view(profiles@), now, i as int);
        assert(crate::context::strings_view(left@) + rest.1 =~= crate::context::strings_view(left@));
    }
    left
}

/// One round of a host's watch: `server_ok` says whether the game server
/// answered, `failures` how many checks failed before in a row, `alive`
/// whether the overlay process runs. Three failures in a row end the
/// session with `PingServerRst`, a dead process with
/// `HostEasytierCrash`; else the guests silent for ten seconds leave,
/// which is committed as shared and announced.
pub fn host_monitor_tick<E, S>(
    emitter: &mut Emitter<E, S>,
    token: u64,
    server_ok: bool,
    failures: u32,
    alive: bool,
    now: u64,
) -> (r: MonitorStep)
    requires
        old(emitter).wf(),
        old(emitter).can_commit(),
    ensures
        final(emitter).wf(),
        ({
            let c = next_failures(server_ok, failures);
            let a = *old(emitter);
            let b = *final(emitter);
            if c >= MAX_SERVER_FAILURES {
                &&& r is Stop
                &&& a.session.captures(token as nat) ==> excepted(a, b, SessionError::PingServerRst)
                    && b.session.profiles == a.session.profiles
                &&& !a.session.captures(token as nat) ==> unchanged(a, b)
            } else if !a.session.captures(token as nat) {
                r is Stop && unchanged(a, b)
            } else if !alive {
                &&& r is Stop
                &&& excepted(a, b, SessionError::HostEasytierCrash)
                &&& b.session.profiles == a.session.profiles
            } else {
                let (ps, left) = expire_down(
                    profiles_view(a.session.profiles@),
                    now,
                    a.session.profiles@.len() as int,
                );
                &&& r == MonitorStep::Continue(c)
                &&& same_but_profiles(a.session, b.session)
                &&& profiles_view(b.session.profiles@) == ps
                &&& if left.len() > 0 {
                    &&& shared_commit(a.session, b.session)
                    &&& emitted_views(
                        a,
                        b,
                        seq![shared_state_event(a.session)] + left.map_values(
                            |id: Seq<char>| EventV::PlayerLeft { machine_id: id },
                        ),
                    )
                } else {
                    &&& b.session.version_spec() == a.session.version_spec()
                    &&& b.session.shared_spec() == a.session.shared_spec()
                    &&& quiet(a, b)
                }
            }
        }),
{
    let c: u32 = if server_ok {
        0
    } else if failures == u32::MAX {
        u32::MAX
    } else {
        failures + 1
    };
    if c >= MAX_SERVER_FAILURES {
        emitter.set_exception(token, SessionError::PingServerRst);
        return MonitorStep::Stop;
    }
    if !emitter.session.can_capture(token) {
        return MonitorStep::Stop;
    }
    if !alive {
        emitter.set_exception(token, SessionError::HostEasytierCrash);
        return MonitorStep::Stop;
    }
    let ghost a = *emitter;
    let left = expire_profiles(&mut emitter.session.profiles, now);
    if left.len() > 0 {
        let ghost m = *emitter;
        emitter.commit_shared(SessionPatch::none());
        let ghost m2 = *emitter;
        let events = left_events(left);
        let ghost ev = events@;
        emit_all(emitter, events);
        proof {
            let first = Event::StateChanged {
                state: m.session.state,
                version: m.session.version_spec() as u64,
            };
            lemma_emitted_one(m, m2, first);
            crate::context::lemma_emitted_concat(m, m2, *emitter, seq![first@], events_view(ev));
        }
    }
    MonitorStep::Continue(c)
}

/// A `PlayerLeft` event for each machine id, in order.
fn left_events(left: Vec<String>) -> (r: Vec<Event>)
    ensures
        events_view(r@) == crate::context::strings_view(left@).map_values(
            |id: Seq<char>| EventV::PlayerLeft { machine_id: id },
        ),
        r@.len() == left@.len(),
{
    let ghost lv = crate::context::strings_view(left@).map_values(
        |id: Seq<char>| EventV::PlayerLeft { machine_id: id },
    );
    let mut out: Vec<Event> = Vec::new();
    let mut k: usize = 0;
    while k < left.len()
        invariant
            0 <= k <= left.len(),
            lv == crate::context::strings_view(left@).map_values(
                |id: Seq<char>| EventV::PlayerLeft { machine_id: id },
            ),
            events_view(out@) == lv.take(k as int),
            out@.len() == k,
        decreases left.len() - k,
    {
        let ghost before = events_view(out@);
        out.push(Event::PlayerLeft { machine_id: left[k].clone() });
        assert(events_view(out@) =~= before.push(lv[k as int]));
        assert(lv.take(k + 1) =~= lv.take(k as int).push(lv[k as int]));
        k += 1;
    }
    assert(lv.take(k as int) =~= lv);
    out
}

/// The host is ready: where `token` still captures the session, it holds
/// the overlay process, the game port and the host's profile seen at
/// `now`, enters `HostOk` (announced), and the room is announced ready.
pub fn host_ready<E, S>(
    emitter: &mut Emitter<E, S>,
    token: u64,
    room: &Room,
    easytier: E,
    port: u16,
    host: Profile,
    now: u64,
) -> (r: Option<u64>)
    requires
        old(emitter).wf(),
        old(emitter).can_commit(),
    ensures
        final(emitter).wf(),
        r is Some == old(emitter).session.captures(token as nat),
        r is None ==> unchanged(*old(emitter), *final(emitter)),
        r matches Some(v) ==> {
            let a = *old(emitter);
            let b = *final(emitter);
            &&& v == a.session.version_spec() + 1
            &&& b.session.version_spec() == v
            &&& b.session.shared_spec() == 0
            &&& b.session.state == SessionStateId::HostOk
            &&& b.session.easytier == Some(easytier)
            &&& b.session.port == Some(port)
            &&& profiles_view(b.session.profiles@) == seq![(now, host@)]
            &&& b.session.room == a.session.room
            &&& b.session.error == a.session.error
            &&& b.session.server == a.session.server
            &&& b.session.difficulty == a.session.difficulty
            &&& b.session.host_ip == a.session.host_ip
            &&& emitted_views(
                a,
                b,
                seq![
                    EventV::StateChanged { state: SessionStateId::HostOk, version: v },
                    EventV::HostReady { room_code: room.code@, port },
                ],
            )
        },
{
    let patch = SessionPatch {
        port: Some(port),
        easytier: Some(easytier),
        server: None,
        profiles: Some(vec![(now, host)]),
        difficulty: None,
        host_ip: None,
    };
    let ghost a = *emitter;
    let ghost pv = profiles_view(patch.profiles->0@);
    assert(pv =~= seq![(now, host@)]);
    match emitter.transition(token, patch, SessionStateId::HostOk) {
        Some(v) => {
            let ghost m = *emitter;
            let event = Event::HostReady { room_code: room.code.clone(), port };
            emitter.emit(event);
            proof {
                lemma_emitted_one(a, m, Event::StateChanged { state: SessionStateId::HostOk, version: v });
                crate::context::lemma_emitted_push(
                    a,
                    m,
                    *emitter,
                    seq![EventV::StateChanged { state: SessionStateId::HostOk, version: v }],
                    event,
                );
                assert(seq![EventV::StateChanged { state: SessionStateId::HostOk, version: v }].push(
                    event@,
                ) =~= seq![
                    EventV::StateChanged { state: SessionStateId::HostOk, version: v },
                    EventV::HostReady { room_code: room.code@, port },
                ]);
            }
            Some(v)
        },
        None => None,
    }
}

} // verus!
