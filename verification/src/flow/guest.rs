//! The decisions of a guest: the host's player list, and how the guest's
//! own list follows it.
use vstd::prelude::*;
use crate::context::{emit_all, emitted, emitted_views, excepted, lemma_emitted_one, lemma_emitted_push, unchanged, Emitter};
use crate::event::events_view;
use crate::scaffolding::protocols::{quiet, same_but_profiles, shared_commit, shared_state_event};
use crate::event::{Event, EventV};
use crate::json::{decode_json_bytes, json_from_bytes, json_seq_view, json_view, lemma_json_seq_view, str_field, Json, JsonV};
use crate::order::{distinct_ids, has_duplicate_ids, same_profiles, sort_by_id, sorted_by_id, views_of};
use crate::profile::{Profile, ProfileKind, ProfileSnapshot, ProfileView};
use crate::session::{profiles_view, SessionError, SessionPatch, SessionStateId};
use crate::easytier::argument::{PortForward, Proto};
use crate::easytier::ScaffoldingPeer;
use crate::json::{encode_json, json_encoding, str_member};
use crate::net::{Ipv4, Ipv6, SocketAddress};
use crate::scaffolding::PacketResponse;
use crate::session::ConnectionDifficulty;
use crate::text::{decimal, owned, push_decimal, push_text, same_text, string_of};

verus! {

/// The players listed so far, and whether the host and the local player
/// were among them; `None` once an item is refused.
pub open spec fn collect_listed(items: Seq<JsonV>, local_id: Seq<char>) -> Option<
    (Seq<ProfileView>, bool, bool),
>
    decreases items.len(),
{
    if items.len() == 0 {
        Some((Seq::empty(), false, false))
    } else {
        match collect_listed(items.drop_last(), local_id) {
            None => None,
            Some((ps, host, local)) => listed_step(ps, host, local, items.last(), local_id),
        }
    }
}

/// One more item of the host's list: it needs `name`, `machine_id` and
/// `vendor`; the local player's id may come once, and otherwise `kind` is
/// `HOST` (once) or `GUEST`.
#[verifier::opaque]
pub open spec fn listed_step(
    ps: Seq<ProfileView>,
    host: bool,
    local: bool,
    item: JsonV,
    local_id: Seq<char>,
) -> Option<(Seq<ProfileView>, bool, bool)> {
    match (str_field(item, "name"@), str_field(item, "machine_id"@), str_field(item, "vendor"@)) {
        (Some(name), Some(id), Some(vendor)) => if id == local_id {
            if local {
                None
            } else {
                Some(
                    (
                        ps.push(ProfileView { machine_id: id, name, vendor, kind: ProfileKind::Local }),
                        host,
                        true,
                    ),
                )
            }
        } else {
            match str_field(item, "kind"@) {
                Some(k) => if k == "HOST"@ && !host {
                    Some(
                        (
                            ps.push(
                                ProfileView { machine_id: id, name, vendor, kind: ProfileKind::Host },
                            ),
                            true,
                            local,
                        ),
                    )
                } else if k == "GUEST"@ {
                    Some(
                        (
                            ps.push(
                                ProfileView { machine_id: id, name, vendor, kind: ProfileKind::Guest },
                            ),
                            host,
                            local,
                        ),
                    )
                } else {
                    None
                },
                None => None,
            }
        },
        _ => None,
    }
}

/// The players the host's answer lists, with the local player added where
/// it is missing; `None` where it is not a JSON array of acceptable items
/// or names no host.
pub open spec fn listed_players(data: Seq<u8>, local: ProfileView) -> Option<Seq<ProfileView>> {
    match json_from_bytes(data) {
        Some(j) => listed_in_value(j, local),
        None => None,
    }
}

/// The players a decoded answer `j` lists, with the local player added
/// where it is missing; `None` where `j` is not an array of acceptable
/// items or names no host.
pub open spec fn listed_in_value(j: JsonV, local: ProfileView) -> Option<Seq<ProfileView>> {
    match j {
        JsonV::Array(items) => match collect_listed(items, local.machine_id) {
            Some((ps, host, seen_local)) => if host {
                Some(
                    if seen_local {
                        ps
                    } else {
                        ps.push(local)
                    },
                )
            } else {
                None
            },
            None => None,
        },
        _ => None,
    }
}

proof fn lemma_collect_prefix(items: Seq<JsonV>, local_id: Seq<char>, k: int)
    requires
        0 <= k <= items.len(),
        collect_listed(items.take(k), local_id) is None,
    ensures
        collect_listed(items, local_id) is None,
    decreases items.len() - k,
{
    if k < items.len() {
        assert(items.take(k + 1).drop_last() =~= items.take(k));
        lemma_collect_prefix(items, local_id, k + 1);
    } else {
        assert(items.take(k) =~= items);
    }
}

/// One item of the host's list, read with the players so far.
fn read_listed(
    item: &Json,
    players: &mut Vec<Profile>,
    host: &mut bool,
    local: &mut bool,
    local_id: &str,
) -> (ok: bool)
    ensures
        ok ==> listed_step(views_of(old(players)@), *old(host), *old(local), item@, local_id@)
            == Some((views_of(final(players)@), *final(host), *final(local))),
        !ok ==> listed_step(views_of(old(players)@), *old(host), *old(local), item@, local_id@)
            is None,
{
    reveal(listed_step);
    let name = match item.get_str("name") {
        Some(s) => owned(s),
        None => {
            return false;
        },
    };
    let machine_id = match item.get_str("machine_id") {
        Some(s) => owned(s),
        None => {
            return false;
        },
    };
    let vendor = match item.get_str("vendor") {
        Some(s) => owned(s),
        None => {
            return false;
        },
    };
    let kind = if same_text(machine_id.as_str(), local_id) {
        if *local {
            return false;
        }
        *local = true;
        ProfileKind::Local
    } else {
        match item.get_str("kind") {
            Some(k) => if same_text(k, "HOST") && !*host {
                *host = true;
                ProfileKind::Host
            } else if same_text(k, "GUEST") {
                ProfileKind::Guest
            } else {
                return false;
            },
            None => {
                return false;
            },
        }
    };
    let ghost before = views_of(players@);
    let profile = ProfileSnapshot { machine_id, name, vendor, kind }.into_profile();
    players.push(profile);
    assert(views_of(players@) =~= before.push(profile@));
    true
}

/// Reads the items of the host's list in order.
fn collect_players(items: &Vec<Json>, local_id: &str) -> (r: Option<(Vec<Profile>, bool, bool)>)
    ensures
        match r {
            Some((v, host, local)) => collect_listed(json_seq_view(items@), local_id@) == Some(
                (views_of(v@), host, local),
            ),
            None => collect_listed(json_seq_view(items@), local_id@) is None,
        },
{
    let ghost iv = json_seq_view(items@);
    proof {
        lemma_json_seq_view(items@);
        assert(iv.take(0) =~= Seq::<JsonV>::empty());
    }
    let mut players: Vec<Profile> = Vec::new();
    let mut host = false;
    let mut local = false;
    assert(views_of(players@) =~= Seq::<ProfileView>::empty());
    let mut i: usize = 0;
    while i < items.len()
        invariant
            0 <= i <= items.len(),
            iv == json_seq_view(items@),
            iv.len() == items@.len(),
            forall|k: int| 0 <= k < items@.len() ==> #[trigger] iv[k] == json_view(items@[k]),
            collect_listed(iv.take(i as int), local_id@) == Some((views_of(players@), host, local)),
        decreases items.len() - i,
    {
        proof {
            assert(iv.take(i + 1).last() == iv[i as int]);
            assert(iv.take(i + 1).drop_last() =~= iv.take(i as int));
        }
        if !read_listed(&items[i], &mut players, &mut host, &mut local, local_id) {
            proof {
                lemma_collect_prefix(iv, local_id@, i + 1);
            }
            return None;
        }
        i += 1;
    }
    assert(iv.take(i as int) =~= iv);
    Some((players, host, local))
}

/// Reads the host's answer to `c:player_profiles_list`: the players sorted
/// by machine id, the local player included; `None` where the answer is
/// refused or two players share a machine id.
pub fn parse_profile_list(data: &[u8], local_profile: &Profile) -> (r: Option<Vec<Profile>>)
    ensures
        match listed_players(data@, local_profile@) {
            Some(all) => if distinct_ids(all) {
                r matches Some(v) && sorted_by_id(views_of(v@)) && same_profiles(views_of(v@), all)
            } else {
                r is None
            },
            None => r is None,
        },
{
    let value = match decode_json_bytes(data) {
        Some(v) => v,
        None => {
            return None;
        },
    };
    profile_list_from_json(&value, local_profile)
}

/// Reads the host's answer already decoded to `value`: the players sorted
/// by machine id, the local player included; `None` where the answer is
/// refused or two players share a machine id.
pub fn profile_list_from_json(value: &Json, local_profile: &Profile) -> (r: Option<Vec<Profile>>)
    ensures
        match listed_in_value(value@, local_profile@) {
            Some(all) => if distinct_ids(all) {
                r matches Some(v) && sorted_by_id(views_of(v@)) && same_profiles(views_of(v@), all)
            } else {
                r is None
            },
            None => r is None,
        },
{
    let items = match value {
        Json::Array(items) => items,
        _ => {
            return None;
        },
    };
    let (mut players, host, local) = match collect_players(items, local_profile.get_machine_id()) {
        Some(t) => t,
        None => {
            return None;
        },
    };
    if !host {
        return None;
    }
    if !local {
        let ghost before = views_of(players@);
        players.push(local_profile.duplicate());
        assert(views_of(players@) =~= before.push(local_profile@));
    }
    if has_duplicate_ids(&players) {
        return None;
    }
    Some(sort_by_id(&players))
}

/// The guest's list and bookkeeping while it follows the host's list:
/// which of the host's players were matched, whether anything changed,
/// and the machine ids of the players that left.
pub struct SyncState {
    pub profiles: Seq<(u64, ProfileView)>,
    pub used: Seq<bool>,
    pub changed: bool,
    pub left: Seq<Seq<char>>,
}

/// `x` is the place of the first listed player with machine id `id`.
pub open spec fn first_listed(server: Seq<ProfileView>, id: Seq<char>, x: int) -> bool {
    &&& 0 <= x < server.len()
    &&& server[x].machine_id == id
    &&& forall|y: int| 0 <= y < x ==> server[y].machine_id != id
}

/// The place of the listed player with machine id `id` (the host's list
/// has each machine id once).
pub open spec fn id_index(server: Seq<ProfileView>, id: Seq<char>) -> Option<int> {
    if exists|x: int| first_listed(server, id, x) {
        Some(choose|x: int| first_listed(server, id, x))
    } else {
        None
    }
}

/// The guest at `i` left: it is removed and its id recorded.
pub open spec fn sync_removed(st: SyncState, i: int) -> SyncState {
    SyncState {
        profiles: st.profiles.remove(i),
        used: st.used,
        changed: true,
        left: st.left.push(st.profiles[i].1.machine_id),
    }
}

/// The player at `i` matches the listed player at `x`: it takes that
/// name, and `x` is used.
pub open spec fn sync_matched(st: SyncState, server: Seq<ProfileView>, i: int, x: int) -> SyncState {
    let (t, p) = st.profiles[i];
    SyncState {
        profiles: st.profiles.update(i, (t, ProfileView { name: server[x].name, ..p })),
        used: st.used.update(x, true),
        changed: st.changed || p.name != server[x].name,
        left: st.left,
    }
}

/// The guest's player at `i` against the host's list: the host must be
/// listed once as host; a guest listed as guest stays (a second entry of
/// it leaves), one not listed leaves, one listed otherwise is an error;
/// the local player stays as it is.
pub open spec fn sync_step(st: SyncState, server: Seq<ProfileView>, i: int) -> (
    SyncState,
    Option<SessionError>,
) {
    let p = st.profiles[i].1;
    match p.kind {
        ProfileKind::Host => match id_index(server, p.machine_id) {
            Some(x) => if !st.used[x] && server[x].kind == ProfileKind::Host {
                (sync_matched(st, server, i, x), None)
            } else {
                (st, Some(SessionError::ScaffoldingInvalidResponse))
            },
            None => (st, Some(SessionError::ScaffoldingInvalidResponse)),
        },
        ProfileKind::Local => (st, None),
        ProfileKind::Guest => match id_index(server, p.machine_id) {
            Some(x) => if st.used[x] && server[x].kind == ProfileKind::Guest {
                (sync_removed(st, i), None)
            } else if server[x].kind == ProfileKind::Guest {
                (sync_matched(st, server, i, x), None)
            } else {
                (st, Some(SessionError::ScaffoldingInvalidResponse))
            },
            None => (sync_removed(st, i), None),
        },
    }
}

/// The guest's players at `i - 1` down to 0, the last first, stopping at
/// the first error.
pub open spec fn sync_down(st: SyncState, server: Seq<ProfileView>, i: int) -> (
    SyncState,
    Option<SessionError>,
)
    decreases i,
{
    if i <= 0 {
        (st, None)
    } else {
        let (next, e) = sync_step(st, server, i - 1);
        if e is Some {
            (next, e)
        } else {
            sync_down(next, server, i - 1)
        }
    }
}

/// The listed players no entry matched, the local player aside, from the
/// last to the first.
pub open spec fn unused_joins(server: Seq<ProfileView>, used: Seq<bool>, x: int) -> Seq<ProfileView>
    decreases x,
{
    if x <= 0 {
        Seq::empty()
    } else {
        let rest = unused_joins(server, used, x - 1);
        if !used[x - 1] && server[x - 1].kind != ProfileKind::Local {
            seq![server[x - 1]] + rest
        } else {
            rest
        }
    }
}

/// Where a sync of `profiles` against `server` starts.
pub open spec fn sync_start(profiles: Seq<(u64, ProfileView)>, server: Seq<ProfileView>) -> SyncState {
    SyncState {
        profiles,
        used: Seq::new(server.len(), |x: int| false),
        changed: false,
        left: Seq::empty(),
    }
}

/// The state a sync has reached, from the values it holds.
pub open spec fn sync_state_of(
    profiles: Seq<(u64, Profile)>,
    used: Seq<bool>,
    changed: bool,
    left: Seq<String>,
) -> SyncState {
    SyncState {
        profiles: profiles_view(profiles),
        used,
        changed,
        left: crate::context::strings_view(left),
    }
}

/// How a player is shown: machine id, name and kind.
pub open spec fn shown(p: ProfileView) -> (Seq<char>, Seq<char>, ProfileKind) {
    (p.machine_id, p.name, p.kind)
}

/// A list shows the player `t`, the local player aside.
pub open spec fn shows(ps: Seq<ProfileView>, t: (Seq<char>, Seq<char>, ProfileKind)) -> bool {
    exists|k: int| 0 <= k < ps.len() && ps[k].kind != ProfileKind::Local && shown(ps[k]) == t
}

/// The profiles of a list with their times.
pub open spec fn timed_views(ps: Seq<(u64, ProfileView)>) -> Seq<ProfileView> {
    ps.map_values(|e: (u64, ProfileView)| e.1)
}

/// The player `p` stands for a listed player already matched.
pub open spec fn matched_entry(sv: Seq<ProfileView>, used: Seq<bool>, p: ProfileView) -> bool {
    exists|x: int| 0 <= x < sv.len() && used[x] && shown(p) == shown(sv[x])
}

/// While the guest's players at `i` and above have been held against the
/// list: those below are as they were; those done are the local player or
/// stand for a matched listed player; every matched listed player is not
/// local and is stood for.
pub open spec fn sync_invariant(
    orig: Seq<(u64, ProfileView)>,
    sv: Seq<ProfileView>,
    st: SyncState,
    i: int,
) -> bool {
    &&& 0 <= i <= orig.len()
    &&& st.used.len() == sv.len()
    &&& i <= st.profiles.len()
    &&& st.profiles.take(i) == orig.take(i)
    &&& forall|k: int|
        i <= k < st.profiles.len() ==> (#[trigger] st.profiles[k]).1.kind == ProfileKind::Local
            || matched_entry(sv, st.used, st.profiles[k].1)
    &&& forall|x: int|
        0 <= x < sv.len() && #[trigger] st.used[x] ==> sv[x].kind != ProfileKind::Local && exists|
            k: int,
        |
            i <= k < st.profiles.len() && shown(st.profiles[k].1) == shown(sv[x])
}

proof fn lemma_sync_removed_invariant(
    orig: Seq<(u64, ProfileView)>,
    sv: Seq<ProfileView>,
    st: SyncState,
    i: int,
)
    requires
        sync_invariant(orig, sv, st, i),
        i > 0,
    ensures
        sync_invariant(orig, sv, sync_removed(st, i - 1), i - 1),
{
    let k = i - 1;
    let next = sync_removed(st, k);
    assert(next.profiles.take(k) =~= st.profiles.take(k));
    assert(st.profiles.take(k) =~= st.profiles.take(i).take(k));
    assert(orig.take(k) =~= orig.take(i).take(k));
    assert forall|j: int| k <= j < next.profiles.len() implies (#[trigger] next.profiles[j]).1.kind
        == ProfileKind::Local || matched_entry(sv, next.used, next.profiles[j].1) by {
        assert(next.profiles[j] == st.profiles[j + 1]);
    }
    assert forall|x: int| 0 <= x < sv.len() && #[trigger] next.used[x] implies sv[x].kind
        != ProfileKind::Local && exists|j: int|
        k <= j < next.profiles.len() && shown(next.profiles[j].1) == shown(sv[x]) by {
        let w = choose|w: int| i <= w < st.profiles.len() && shown(st.profiles[w].1) == shown(sv[x]);
        assert(next.profiles[w - 1] == st.profiles[w]);
    }
}

proof fn lemma_sync_matched_invariant(
    orig: Seq<(u64, ProfileView)>,
    sv: Seq<ProfileView>,
    st: SyncState,
    i: int,
    x: int,
)
    requires
        sync_invariant(orig, sv, st, i),
        i > 0,
        0 <= x < sv.len(),
        sv[x].machine_id == st.profiles[i - 1].1.machine_id,
        sv[x].kind == st.profiles[i - 1].1.kind,
        sv[x].kind != ProfileKind::Local,
    ensures
        sync_invariant(orig, sv, sync_matched(st, sv, i - 1, x), i - 1),
{
    let k = i - 1;
    let next = sync_matched(st, sv, k, x);
    assert(shown(next.profiles[k].1) == shown(sv[x]));
    assert(next.profiles.take(k) =~= st.profiles.take(k));
    assert(st.profiles.take(k) =~= st.profiles.take(i).take(k));
    assert(orig.take(k) =~= orig.take(i).take(k));
    assert forall|j: int| k <= j < next.profiles.len() implies (#[trigger] next.profiles[j]).1.kind
        == ProfileKind::Local || matched_entry(sv, next.used, next.profiles[j].1) by {
        if j == k {
            assert(next.used[x]);
        } else {
            assert(next.profiles[j] == st.profiles[j]);
            if st.profiles[j].1.kind != ProfileKind::Local {
                let w = choose|w: int| 0 <= w < sv.len() && st.used[w] && shown(st.profiles[j].1)
                    == shown(sv[w]);
                assert(next.used[w]);
            }
        }
    }
    assert forall|y: int| 0 <= y < sv.len() && #[trigger] next.used[y] implies sv[y].kind
        != ProfileKind::Local && exists|j: int|
        k <= j < next.profiles.len() && shown(next.profiles[j].1) == shown(sv[y]) by {
        if y == x {
            assert(shown(next.profiles[k].1) == shown(sv[y]));
        } else {
            assert(st.used[y]);
            let w = choose|w: int| i <= w < st.profiles.len() && shown(st.profiles[w].1) == shown(sv[y]);
            assert(next.profiles[w] == st.profiles[w]);
        }
    }
}

proof fn lemma_sync_step_invariant(
    orig: Seq<(u64, ProfileView)>,
    sv: Seq<ProfileView>,
    st: SyncState,
    i: int,
)
    requires
        sync_invariant(orig, sv, st, i),
        i > 0,
        sync_step(st, sv, i - 1).1 is None,
    ensures
        sync_invariant(orig, sv, sync_step(st, sv, i - 1).0, i - 1),
{
    let k = i - 1;
    let p = st.profiles[k].1;
    match id_index(sv, p.machine_id) {
        Some(x) => {
            assert(first_listed(sv, p.machine_id, x));
        },
        None => {},
    }
    match p.kind {
        ProfileKind::Local => {
            assert(st.profiles.take(i)[k] == orig.take(i)[k]);
            assert(st.profiles.take(k) =~= st.profiles.take(i).take(k));
            assert(orig.take(k) =~= orig.take(i).take(k));
        },
        ProfileKind::Host => {
            let x = id_index(sv, p.machine_id)->0;
            lemma_sync_matched_invariant(orig, sv, st, i, x);
        },
        ProfileKind::Guest => {
            match id_index(sv, p.machine_id) {
                Some(x) => {
                    if st.used[x] && sv[x].kind == ProfileKind::Guest {
                        lemma_sync_removed_invariant(orig, sv, st, i);
                    } else {
                        lemma_sync_matched_invariant(orig, sv, st, i, x);
                    }
                },
                None => {
                    lemma_sync_removed_invariant(orig, sv, st, i);
                },
            }
        },
    }
}

proof fn lemma_sync_down_invariant(
    orig: Seq<(u64, ProfileView)>,
    sv: Seq<ProfileView>,
    st: SyncState,
    i: int,
)
    requires
        sync_invariant(orig, sv, st, i),
    ensures
        sync_down(st, sv, i).1 is None ==> sync_invariant(orig, sv, sync_down(st, sv, i).0, 0),
    decreases i,
{
    if i > 0 {
        let (next, e) = sync_step(st, sv, i - 1);
        if e is None {
            lemma_sync_step_invariant(orig, sv, st, i);
            lemma_sync_down_invariant(orig, sv, next, i - 1);
        }
    }
}

/// The listed players not matched and not local, among the first `m`.
pub open spec fn unmatched(sv: Seq<ProfileView>, used: Seq<bool>, m: int, p: ProfileView) -> bool {
    exists|x: int| 0 <= x < m && !used[x] && sv[x].kind != ProfileKind::Local && p == sv[x]
}

/// What the unmatched listed players are.
proof fn lemma_unused_joins(sv: Seq<ProfileView>, used: Seq<bool>, m: int, p: ProfileView)
    requires
        0 <= m <= sv.len(),
        used.len() == sv.len(),
    ensures
        unused_joins(sv, used, m).contains(p) <==> unmatched(sv, used, m, p),
    decreases m,
{
    if m > 0 {
        lemma_unused_joins(sv, used, m - 1, p);
        let rest = unused_joins(sv, used, m - 1);
        let here = !used[m - 1] && sv[m - 1].kind != ProfileKind::Local;
        if unmatched(sv, used, m, p) {
            let x = choose|x: int|
                0 <= x < m && !used[x] && sv[x].kind != ProfileKind::Local && p == sv[x];
            if x < m - 1 {
                assert(unmatched(sv, used, m - 1, p));
                assert(rest.contains(p));
                let w = choose|w: int| 0 <= w < rest.len() && rest[w] == p;
                if here {
                    assert((seq![sv[m - 1]] + rest)[w + 1] == p);
                }
            } else {
                assert(here);
                assert((seq![sv[m - 1]] + rest)[0] == p);
            }
        }
        if unused_joins(sv, used, m).contains(p) {
            if here {
                let all = seq![sv[m - 1]] + rest;
                let w = choose|w: int| 0 <= w < all.len() && all[w] == p;
                if w > 0 {
                    assert(rest[w - 1] == p);
                    assert(rest.contains(p));
                    let x = choose|x: int|
                        0 <= x < m - 1 && !used[x] && sv[x].kind != ProfileKind::Local && p == sv[x];
                    assert(unmatched(sv, used, m, p));
                } else {
                    assert(unmatched(sv, used, m, p));
                }
            } else {
                let x = choose|x: int|
                    0 <= x < m - 1 && !used[x] && sv[x].kind != ProfileKind::Local && p == sv[x];
                assert(unmatched(sv, used, m, p));
            }
        }
    }
}

/// After a round that raised no error, the guest's list shows exactly the
/// players the host's list shows (by machine id, name and kind), the local
/// player aside.
pub proof fn lemma_sync_mirrors_host_list(ps: Seq<(u64, ProfileView)>, sv: Seq<ProfileView>, now: u64)
    ensures
        ({
            let (st, e) = sync_down(sync_start(ps, sv), sv, ps.len() as int);
            let fin = st.profiles + unused_joins(sv, st.used, sv.len() as int).map_values(
                |p: ProfileView| (now, p),
            );
            e is None ==> forall|t: (Seq<char>, Seq<char>, ProfileKind)|
                shows(timed_views(fin), t) <==> shows(sv, t)
        }),
{
    let start = sync_start(ps, sv);
    assert(start.profiles.take(ps.len() as int) =~= ps.take(ps.len() as int));
    assert(sync_invariant(ps, sv, start, ps.len() as int));
    lemma_sync_down_invariant(ps, sv, start, ps.len() as int);
    let (st, e) = sync_down(start, sv, ps.len() as int);
    if e is None {
        let joins = unused_joins(sv, st.used, sv.len() as int);
        let fin = st.profiles + joins.map_values(|p: ProfileView| (now, p));
        let fv = timed_views(fin);
        assert forall|t: (Seq<char>, Seq<char>, ProfileKind)| shows(fv, t) <==> shows(sv, t) by {
            if shows(fv, t) {
                let k = choose|k: int| 0 <= k < fv.len() && fv[k].kind != ProfileKind::Local && shown(fv[k]) == t;
                if k < st.profiles.len() {
                    assert(fv[k] == st.profiles[k].1);
                    let x = choose|x: int| 0 <= x < sv.len() && st.used[x] && shown(st.profiles[k].1)
                        == shown(sv[x]);
                    assert(sv[x].kind != ProfileKind::Local);
                } else {
                    let j = k - st.profiles.len();
                    assert(fv[k] == joins[j]);
                    assert(joins.contains(joins[j]));
                    lemma_unused_joins(sv, st.used, sv.len() as int, joins[j]);
                    let x = choose|x: int|
                        0 <= x < sv.len() && !st.used[x] && sv[x].kind != ProfileKind::Local && joins[j]
                            == sv[x];
                    assert(sv[x].kind != ProfileKind::Local && shown(sv[x]) == t);
                }
            }
            if shows(sv, t) {
                let x = choose|x: int| 0 <= x < sv.len() && sv[x].kind != ProfileKind::Local && shown(sv[x]) == t;
                if st.used[x] {
                    let k = choose|k: int|
                        0 <= k < st.profiles.len() && shown(st.profiles[k].1) == shown(sv[x]);
                    assert(fv[k] == st.profiles[k].1);
                } else {
                    lemma_unused_joins(sv, st.used, sv.len() as int, sv[x]);
                    assert(joins.contains(sv[x]));
                    let j = choose|j: int| 0 <= j < joins.len() && joins[j] == sv[x];
                    assert(fv[st.profiles.len() + j] == joins[j]);
                }
            }
        }
    }
}

/// The place of the first listed player with machine id `id`.
fn find_listed(server: &Vec<Profile>, id: &str) -> (r: Option<usize>)
    ensures
        match r {
            Some(x) => id_index(views_of(server@), id@) == Some(x as int),
            None => id_index(views_of(server@), id@) is None,
        },
{
    let ghost sv = views_of(server@);
    let mut x: usize = 0;
    while x < server.len()
        invariant
            sv == views_of(server@),
            0 <= x <= server.len(),
            forall|y: int| 0 <= y < x ==> sv[y].machine_id != id@,
        decreases server.len() - x,
    {
        if same_text(server[x].get_machine_id(), id) {
            proof {
                assert(first_listed(sv, id@, x as int));
                let c = choose|c: int| first_listed(sv, id@, c);
                if c < x {
                    assert(sv[c].machine_id != id@);
                }
                if c > x {
                    assert(sv[x as int].machine_id != id@);
                }
            }
            return Some(x);
        }
        x += 1;
    }
    None
}

/// The guest's players against the host's list, from the last to the
/// first; stops at the first error.
fn sync_profiles(profiles: &mut Vec<(u64, Profile)>, server: &Vec<Profile>) -> (r: (
    Vec<bool>,
    bool,
    Vec<String>,
    Option<SessionError>,
))
    ensures
        r.0@.len() == server@.len(),
        ({
            let (used, changed, left, error) = r;
            sync_down(
                sync_start(profiles_view(old(profiles)@), views_of(server@)),
                views_of(server@),
                old(profiles)@.len() as int,
            ) == (sync_state_of(final(profiles)@, used@, changed, left@), error)
        }),
{
    let ghost sv = views_of(server@);
    let ghost start = sync_start(profiles_view(profiles@), sv);
    let ghost n = profiles@.len() as int;
    let mut used: Vec<bool> = vec![false; server.len()];
    let mut changed = false;
    let mut left: Vec<String> = Vec::new();
    assert(used@ =~= start.used);
    assert(crate::context::strings_view(left@) =~= Seq::<Seq<char>>::empty());
    let mut i: usize = profiles.len();
    while i > 0
        invariant
            sv == views_of(server@),
            start == sync_start(profiles_view(old(profiles)@), sv),
            n == old(profiles)@.len(),
            0 <= i <= profiles@.len(),
            used@.len() == server@.len(),
            sync_down(start, sv, n) == sync_down(
                sync_state_of(profiles@, used@, changed, left@),
                sv,
                i as int,
            ),
        decreases i,
    {
        let ghost st = sync_state_of(profiles@, used@, changed, left@);
        let k = i - 1;
        let kind = profiles[k].1.get_kind();
        let found = find_listed(server, profiles[k].1.get_machine_id());
        assert(st.profiles[k as int].1 == profiles@[k as int].1@);
        match kind {
            ProfileKind::Local => {},
            ProfileKind::Host => {
                match found {
                    Some(x) => {
                        if !used[x] && server[x].get_kind() == ProfileKind::Host {
                            rename_at(profiles, k, server[x].get_name(), &mut changed);
                            used.set(x, true);
                            assert(sync_state_of(profiles@, used@, changed, left@) == sync_matched(
                                st,
                                sv,
                                k as int,
                                x as int,
                            ));
                        } else {
                            assert(sync_step(st, sv, k as int) == (
                                st,
                                Some(SessionError::ScaffoldingInvalidResponse),
                            ));
                            assert(sync_down(st, sv, i as int) == (
                                st,
                                Some(SessionError::ScaffoldingInvalidResponse),
                            ));
                            return (used, changed, left, Some(SessionError::ScaffoldingInvalidResponse));
                        }
                    },
                    None => {
                        assert(sync_step(st, sv, k as int) == (
                            st,
                            Some(SessionError::ScaffoldingInvalidResponse),
                        ));
                        assert(sync_down(st, sv, i as int) == (
                            st,
                            Some(SessionError::ScaffoldingInvalidResponse),
                        ));
                        return (used, changed, left, Some(SessionError::ScaffoldingInvalidResponse));
                    },
                }
            },
            ProfileKind::Guest => {
                match found {
                    Some(x) => {
                        if used[x] && server[x].get_kind() == ProfileKind::Guest {
                            let ghost pv = profiles_view(profiles@);
                            let ghost lv = left@;
                            let (_, gone) = profiles.remove(k);
                            left.push(owned(gone.get_machine_id()));
                            changed = true;
                            assert(profiles_view(profiles@) =~= pv.remove(k as int));
                            assert(crate::context::strings_view(left@) =~= crate::context::strings_view(
                                lv,
                            ).push(gone@.machine_id));
                            assert(sync_state_of(profiles@, used@, changed, left@) =~= sync_removed(
                                st,
                                k as int,
                            ));
                        } else if server[x].get_kind() == ProfileKind::Guest {
                            rename_at(profiles, k, server[x].get_name(), &mut changed);
                            used.set(x, true);
                            assert(sync_state_of(profiles@, used@, changed, left@) == sync_matched(
                                st,
                                sv,
                                k as int,
                                x as int,
                            ));
                        } else {
                            return (used, changed, left, Some(SessionError::ScaffoldingInvalidResponse));
                        }
                    },
                    None => {
                        let ghost pv = profiles_view(profiles@);
                        let ghost lv = left@;
                        let (_, gone) = profiles.remove(k);
                        left.push(owned(gone.get_machine_id()));
                        changed = true;
                        assert(profiles_view(profiles@) =~= pv.remove(k as int));
                        assert(crate::context::strings_view(left@) =~= crate::context::strings_view(
                            lv,
                        ).push(gone@.machine_id));
                        assert(sync_state_of(profiles@, used@, changed, left@) =~= sync_removed(
                            st,
                            k as int,
                        ));
                    },
                }
            },
        }
        i = k;
    }
    (used, changed, left, None)
}

/// Gives the player at `k` the name `name`; a new name marks a change.
fn rename_at(profiles: &mut Vec<(u64, Profile)>, k: usize, name: &str, changed: &mut bool)
    requires
        k < old(profiles)@.len(),
    ensures
        final(profiles)@.len() == old(profiles)@.len(),
        profiles_view(final(profiles)@) == profiles_view(old(profiles)@).update(
            k as int,
            (old(profiles)@[k as int].0, ProfileView { name: name@, ..old(profiles)@[k as int].1@ }),
        ),
        *final(changed) == (*old(changed) || old(profiles)@[k as int].1@.name != name@),
{
    let t = profiles[k].0;
    let mut p = profiles[k].1.duplicate();
    if !same_text(p.get_name(), name) {
        p.set_name(owned(name));
        *changed = true;
    }
    let ghost before = profiles_view(profiles@);
    profiles.set(k, (t, p));
    assert(profiles_view(profiles@) =~= before.update(
        k as int,
        (t, ProfileView { name: name@, ..old(profiles)@[k as int].1@ }),
    ));
}

/// Adds the listed players no entry matched, the local player aside, from
/// the last to the first, seen at `now`; gives them in that order.
fn join_unused(profiles: &mut Vec<(u64, Profile)>, server: &Vec<Profile>, used: &Vec<bool>, now: u64) -> (r:
    Vec<Profile>)
    requires
        used@.len() == server@.len(),
    ensures
        views_of(r@) == unused_joins(views_of(server@), used@, server@.len() as int),
        profiles_view(final(profiles)@) == profiles_view(old(profiles)@) + unused_joins(
            views_of(server@),
            used@,
            server@.len() as int,
        ).map_values(|p: ProfileView| (now, p)),
{
    let ghost sv = views_of(server@);
    let ghost n = server@.len() as int;
    let ghost base = profiles_view(profiles@);
    let mut joined: Vec<Profile> = Vec::new();
    let mut x: usize = server.len();
    proof {
        assert(views_of(joined@) =~= Seq::<ProfileView>::empty());
        assert(unused_joins(sv, used@, n).skip(0) =~= unused_joins(sv, used@, n));
    }
    while x > 0
        invariant
            sv == views_of(server@),
            n == server@.len(),
            used@.len() == n,
            0 <= x <= n,
            views_of(joined@) + unused_joins(sv, used@, x as int) == unused_joins(sv, used@, n),
            profiles_view(profiles@) == base + views_of(joined@).map_values(
                |p: ProfileView| (now, p),
            ),
        decreases x,
    {
        let k = x - 1;
        let ghost before = views_of(joined@);
        let ghost pbefore = profiles_view(profiles@);
        if !used[k] && server[k].get_kind() != ProfileKind::Local {
            profiles.push((now, server[k].duplicate()));
            joined.push(server[k].duplicate());
            proof {
                assert(views_of(joined@) =~= before.push(sv[k as int]));
                assert(before.push(sv[k as int]) + unused_joins(sv, used@, k as int) =~= before + (
                seq![sv[k as int]] + unused_joins(sv, used@, k as int)));
                assert(profiles_view(profiles@) =~= pbefore.push((now, sv[k as int])));
                assert(views_of(joined@).map_values(|p: ProfileView| (now, p)) =~= before.map_values(
                    |p: ProfileView| (now, p),
                ).push((now, sv[k as int])));
            }
        }
        x = k;
    }
    assert(views_of(joined@) + unused_joins(sv, used@, 0) =~= views_of(joined@));
    joined
}

/// How a round of following the host's list ended.
pub enum SyncOutcome {
    /// Another change took the session over; the flow stops.
    Stopped,
    /// The list follows the host's.
    Synced,
    /// The session entered `Exception` with this error; the flow stops.
    Failed(SessionError),
}

/// The events a changed list announces: the shared commit, each player
/// that joined, each that left.
pub open spec fn sync_events<E, S>(
    a: crate::session::Session<E, S>,
    joined: Seq<ProfileView>,
    left: Seq<Seq<char>>,
) -> Seq<EventV> {
    seq![shared_state_event(a)] + joined.map_values(|p: ProfileView| EventV::PlayerJoined { profile: p })
        + left.map_values(|id: Seq<char>| EventV::PlayerLeft { machine_id: id })
}

/// What a round does with the host's list `server` while the overlay
/// process is alive: each of the guest's players, from the last, is held
/// against the list; an error sets it (what was done before stays); else
/// the listed players no entry matched join at `now`, and a change is
/// committed as shared and announced.
pub open spec fn guest_sync_effect<E, S>(
    a: Emitter<E, S>,
    b: Emitter<E, S>,
    server: Seq<ProfileView>,
    now: u64,
    r: SyncOutcome,
) -> bool {
    let (st, e) = sync_down(
        sync_start(profiles_view(a.session.profiles@), server),
        server,
        a.session.profiles@.len() as int,
    );
    match e {
        Some(err) => {
            &&& r == SyncOutcome::Failed(err)
            &&& excepted(a, b, err)
            &&& profiles_view(b.session.profiles@) == st.profiles
        },
        None => {
            let joined = unused_joins(server, st.used, server.len() as int);
            &&& r is Synced
            &&& same_but_profiles(a.session, b.session)
            &&& profiles_view(b.session.profiles@) == st.profiles + joined.map_values(
                |p: ProfileView| (now, p),
            )
            &&& if st.changed || joined.len() > 0 {
                &&& shared_commit(a.session, b.session)
                &&& emitted_views(a, b, sync_events(a.session, joined, st.left))
            } else {
                &&& b.session.version_spec() == a.session.version_spec()
                &&& b.session.shared_spec() == a.session.shared_spec()
                &&& quiet(a, b)
            }
        },
    }
}

/// The events of a changed list, in order.
fn sync_event_list(joined: Vec<Profile>, left: Vec<String>) -> (r: Vec<Event>)
    ensures
        events_view(r@) == views_of(joined@).map_values(
            |p: ProfileView| EventV::PlayerJoined { profile: p },
        ) + crate::context::strings_view(left@).map_values(
            |id: Seq<char>| EventV::PlayerLeft { machine_id: id },
        ),
{
    let ghost jv = views_of(joined@).map_values(|p: ProfileView| EventV::PlayerJoined { profile: p });
    let ghost lv = crate::context::strings_view(left@).map_values(
        |id: Seq<char>| EventV::PlayerLeft { machine_id: id },
    );
    let mut out: Vec<Event> = Vec::new();
    let mut i: usize = 0;
    while i < joined.len()
        invariant
            0 <= i <= joined.len(),
            jv == views_of(joined@).map_values(|p: ProfileView| EventV::PlayerJoined { profile: p }),
            events_view(out@) == jv.take(i as int),
        decreases joined.len() - i,
    {
        let ghost before = events_view(out@);
        out.push(Event::PlayerJoined { profile: joined[i].duplicate() });
        assert(events_view(out@) =~= before.push(jv[i as int]));
        assert(jv.take(i + 1) =~= jv.take(i as int).push(jv[i as int]));
        i += 1;
    }
    assert(jv.take(i as int) =~= jv);
    let mut k: usize = 0;
    while k < left.len()
        invariant
            0 <= k <= left.len(),
            lv == crate::context::strings_view(left@).map_values(
                |id: Seq<char>| EventV::PlayerLeft { machine_id: id },
            ),
            events_view(out@) == jv + lv.take(k as int),
        decreases left.len() - k,
    {
        let ghost before = events_view(out@);
        out.push(Event::PlayerLeft { machine_id: left[k].clone() });
        assert(events_view(out@) =~= before.push(lv[k as int]));
        assert(jv + lv.take(k + 1) =~= (jv + lv.take(k as int)).push(lv[k as int]));
        k += 1;
    }
    assert(lv.take(k as int) =~= lv);
    out
}

/// One round of following the host's list `server` (as
/// `parse_profile_list` gives it), where `alive` says whether the overlay
/// process still runs.
pub fn guest_sync_step<E, S>(
    emitter: &mut Emitter<E, S>,
    token: u64,
    server: &Vec<Profile>,
    alive: bool,
    now: u64,
) -> (r: SyncOutcome)
    requires
        old(emitter).wf(),
        old(emitter).can_commit(),
    ensures
        final(emitter).wf(),
        !old(emitter).session.captures(token as nat) ==> r is Stopped && unchanged(
            *old(emitter),
            *final(emitter),
        ),
        old(emitter).session.captures(token as nat) && !alive ==> {
            &&& r == SyncOutcome::Failed(SessionError::GuestEasytierCrash)
            &&& excepted(*old(emitter), *final(emitter), SessionError::GuestEasytierCrash)
            &&& final(emitter).session.profiles == old(emitter).session.profiles
        },
        old(emitter).session.captures(token as nat) && alive ==> guest_sync_effect(
            *old(emitter),
            *final(emitter),
            views_of(server@),
            now,
            r,
        ),
{
    if !emitter.session.can_capture(token) {
        return SyncOutcome::Stopped;
    }
    if !alive {
        emitter.set_exception(token, SessionError::GuestEasytierCrash);
        return SyncOutcome::Failed(SessionError::GuestEasytierCrash);
    }
    let ghost a = *emitter;
    let (used, changed, left, error) = sync_profiles(&mut emitter.session.profiles, server);
    match error {
        Some(e) => {
            emitter.set_exception(token, e);
            return SyncOutcome::Failed(e);
        },
        None => {},
    }
    let ghost st = sync_state_of(emitter.session.profiles@, used@, changed, left@);
    let joined = join_unused(&mut emitter.session.profiles, server, &used, now);
    let ghost jv = unused_joins(views_of(server@), st.used, server@.len() as int);
    assert(views_of(joined@).len() == joined@.len());
    if changed || joined.len() > 0 {
        let ghost m = *emitter;
        emitter.commit_shared(SessionPatch::none());
        let ghost m2 = *emitter;
        let events = sync_event_list(joined, left);
        let ghost ev = events@;
        emit_all(emitter, events);
        proof {
            let first = Event::StateChanged {
                state: m.session.state,
                version: m.session.version_spec() as u64,
            };
            lemma_emitted_one(m, m2, first);
            crate::context::lemma_emitted_concat(m, m2, *emitter, seq![first@], events_view(ev));
            assert(seq![first@] + events_view(ev) =~= sync_events(a.session, jv, st.left));
        }
    }
    SyncOutcome::Synced
}

/// The bytes a guest sends with `c:ping` and expects back from a genuine
/// scaffolding server.
pub open spec fn fingerprint_bytes() -> Seq<u8> {
    seq![
        0x41u8, 0x57u8, 0x48u8, 0x44u8, 0x86u8, 0x37u8, 0x40u8, 0x59u8,
        0x57u8, 0x44u8, 0x92u8, 0x43u8, 0x96u8, 0x99u8, 0x85u8, 0x01u8,
    ]
}

/// The fingerprint bytes.
pub fn fingerprint() -> (r: Vec<u8>)
    ensures
        r@ == fingerprint_bytes(),
{
    let r = vec![
        0x41u8, 0x57u8, 0x48u8, 0x44u8, 0x86u8, 0x37u8, 0x40u8, 0x59u8,
        0x57u8, 0x44u8, 0x92u8, 0x43u8, 0x96u8, 0x99u8, 0x85u8, 0x01u8,
    ];
    assert(r@ =~= fingerprint_bytes());
    r
}

/// Whether two byte strings are equal.
fn same_bytes(a: &Vec<u8>, b: &Vec<u8>) -> (r: bool)
    ensures
        r == (a@ == b@),
{
    if a.len() != b.len() {
        return false;
    }
    let mut i: usize = 0;
    while i < b.len()
        invariant
            a@.len() == b@.len(),
            0 <= i <= b.len(),
            forall|k: int| 0 <= k < i ==> a@[k] == b@[k],
        decreases b.len() - i,
    {
        if a[i] != b[i] {
            return false;
        }
        i += 1;
    }
    assert(a@ =~= b@);
    true
}

/// Whether a successful answer to `c:ping` gives the fingerprint back.
pub fn is_fingerprint_echo(response: &PacketResponse) -> (r: bool)
    requires
        response is Success,
    ensures
        response matches PacketResponse::Success { data } && r == (data@ == fingerprint_bytes()),
{
    match response {
        PacketResponse::Success { data } => same_bytes(data, &fingerprint()),
        PacketResponse::Fail { .. } => false,
    }
}

/// The game port a successful answer to `c:server_port` holds: two
/// big-endian bytes.
pub fn parse_server_port(response: &PacketResponse) -> (r: Option<u16>)
    ensures
        match response {
            PacketResponse::Success { data } => if data@.len() == 2 {
                r == Some((data@[0] as u16 * 256 + data@[1] as u16) as u16)
            } else {
                r is None
            },
            PacketResponse::Fail { .. } => r is None,
        },
{
    match response {
        PacketResponse::Success { data } => if data.len() == 2 {
            Some((data[0] as u16) * 256 + (data[1] as u16))
        } else {
            None
        },
        PacketResponse::Fail { .. } => None,
    }
}

/// The forwarding of a local port to the host's scaffolding server.
pub fn scaffolding_forward(server: &ScaffoldingPeer, local_port: u16) -> (r: PortForward)
    ensures
        r == (PortForward {
            local: SocketAddress::V4 { ip: Ipv4 { a: 0, b: 0, c: 0, d: 0 }, port: local_port },
            remote: SocketAddress::V4 { ip: server.address, port: server.port },
            proto: Proto::Tcp,
        }),
{
    PortForward {
        local: SocketAddress::V4 { ip: Ipv4 { a: 0, b: 0, c: 0, d: 0 }, port: local_port },
        remote: SocketAddress::V4 { ip: server.address, port: server.port },
        proto: Proto::Tcp,
    }
}

/// The forwardings of the local game port to the host's: from any IPv4
/// and any IPv6 address, each by TCP and by UDP.
pub open spec fn game_forwards(host_ip: Ipv4, port: u16, local_port: u16) -> Seq<PortForward> {
    let v4 = SocketAddress::V4 { ip: Ipv4 { a: 0, b: 0, c: 0, d: 0 }, port: local_port };
    let v6 = SocketAddress::V6 {
        ip: Ipv6 { s0: 0, s1: 0, s2: 0, s3: 0, s4: 0, s5: 0, s6: 0, s7: 0 },
        port: local_port,
    };
    let remote = SocketAddress::V4 { ip: host_ip, port };
    seq![
        PortForward { local: v4, remote, proto: Proto::Tcp },
        PortForward { local: v4, remote, proto: Proto::Udp },
        PortForward { local: v6, remote, proto: Proto::Tcp },
        PortForward { local: v6, remote, proto: Proto::Udp },
    ]
}

/// The forwardings of the local game port to the host's.
pub fn guest_game_forwards(host_ip: Ipv4, port: u16, local_port: u16) -> (r: Vec<PortForward>)
    ensures
        r@ == game_forwards(host_ip, port, local_port),
{
    let v4 = SocketAddress::V4 { ip: Ipv4 { a: 0, b: 0, c: 0, d: 0 }, port: local_port };
    let v6 = SocketAddress::V6 {
        ip: Ipv6 { s0: 0, s1: 0, s2: 0, s3: 0, s4: 0, s5: 0, s6: 0, s7: 0 },
        port: local_port,
    };
    let remote = SocketAddress::V4 { ip: host_ip, port };
    let r = vec![
        PortForward { local: v4, remote, proto: Proto::Tcp },
        PortForward { local: v4, remote, proto: Proto::Udp },
        PortForward { local: v6, remote, proto: Proto::Tcp },
        PortForward { local: v6, remote, proto: Proto::Udp },
    ];
    assert(r@ =~= game_forwards(host_ip, port, local_port));
    r
}

/// The body of a guest's `c:player_ping`: its profile as JSON.
pub open spec fn ping_json(p: ProfileView) -> JsonV {
    JsonV::Object(
        seq![
            ("machine_id"@, JsonV::Str(p.machine_id)),
            ("name"@, JsonV::Str(p.name)),
            ("vendor"@, JsonV::Str(p.vendor)),
        ],
    )
}

/// The body of a guest's `c:player_ping`.
pub fn ping_body(profile: &Profile) -> (r: Vec<u8>)
    ensures
        r@ == json_encoding(ping_json(profile@)),
{
    let members = vec![
        str_member("machine_id", profile.get_machine_id()),
        str_member("name", profile.get_name()),
        str_member("vendor", profile.get_vendor()),
    ];
    proof {
        crate::json::lemma_json_members_view(members@);
        assert(crate::json::json_members_view(members@) =~= seq![
            ("machine_id"@, JsonV::Str(profile@.machine_id)),
            ("name"@, JsonV::Str(profile@.name)),
            ("vendor"@, JsonV::Str(profile@.vendor)),
        ]);
    }
    encode_json(&Json::Object(members))
}

/// The guest found the host's scaffolding server: where `token` still
/// captures the session, the connection's difficulty is recorded as a
/// shared commit (announced); the difficulty is announced either way.
pub fn guest_found_server<E, S>(emitter: &mut Emitter<E, S>, token: u64, difficulty: ConnectionDifficulty)
    requires
        old(emitter).wf(),
        old(emitter).can_commit(),
    ensures
        final(emitter).wf(),
        ({
            let a = *old(emitter);
            let b = *final(emitter);
            let ev = EventV::ConnectionDifficulty { difficulty };
            if a.session.captures(token as nat) {
                &&& shared_commit(a.session, b.session)
                &&& b.session.difficulty == Some(difficulty)
                &&& b.session.state == a.session.state
                &&& b.session.room == a.session.room
                &&& b.session.error == a.session.error
                &&& b.session.port == a.session.port
                &&& b.session.easytier == a.session.easytier
                &&& b.session.server == a.session.server
                &&& b.session.host_ip == a.session.host_ip
                &&& profiles_view(b.session.profiles@) == profiles_view(a.session.profiles@)
                &&& emitted_views(a, b, seq![shared_state_event(a.session), ev])
            } else {
                &&& crate::session::same_content(a.session, b.session)
                &&& b.session.version_spec() == a.session.version_spec()
                &&& b.session.shared_spec() == a.session.shared_spec()
                &&& emitted_views(a, b, seq![ev])
            }
        }),
{
    let ghost a = *emitter;
    let patch = SessionPatch {
        port: None,
        easytier: None,
        server: None,
        profiles: None,
        difficulty: Some(difficulty),
        host_ip: None,
    };
    let shared = emitter.mutate_shared(token, patch);
    let ghost m = *emitter;
    let event = Event::ConnectionDifficulty { difficulty };
    emitter.emit(event);
    proof {
        if shared {
            lemma_emitted_one(a, m, Event::StateChanged {
                state: a.session.state,
                version: a.session.version_spec() as u64,
            });
            lemma_emitted_push(a, m, *emitter, seq![shared_state_event(a.session)], event);
            assert(seq![shared_state_event(a.session)].push(event@) =~= seq![
                shared_state_event(a.session),
                event@,
            ]);
        } else {
            lemma_emitted_one(m, *emitter, event);
        }
    }
}

/// The address a ready guest's game connects to: the loopback address and
/// the local port, always written out.
pub open spec fn ready_url_text(port: u16) -> Seq<char> {
    "127.0.0.1:"@ + decimal(port as nat)
}

/// The address that `GuestReady` announces.
pub fn ready_url(port: u16) -> (r: String)
    ensures
        r@ == ready_url_text(port),
{
    let mut cs: Vec<char> = Vec::new();
    push_text(&mut cs, "127.0.0.1:");
    push_decimal(&mut cs, port as u64);
    assert(cs@ =~= ready_url_text(port));
    string_of(&cs)
}

/// The guest is ready: where `token` still captures the session, it holds
/// the LAN announcer, the local game port and the local player seen at
/// `now`, enters `GuestOk` (announced), and the address the game joins is
/// announced.
pub fn guest_ready<E, S>(
    emitter: &mut Emitter<E, S>,
    token: u64,
    server: S,
    local_port: u16,
    local: Profile,
    now: u64,
) -> (r: Option<u64>)
    requires
        old(emitter).wf(),
        old(emitter).can_commit(),
    ensures
        final(emitter).wf(),
        r is Some == old(emitter).session.captures(token as nat),
        r is None ==> unchanged(*old(emitter), *final(emitter)),
        r matches Some(v) ==> {
            let a = *old(emitter);
            let b = *final(emitter);
            &&& v == a.session.version_spec() + 1
            &&& b.session.version_spec() == v
            &&& b.session.shared_spec() == 0
            &&& b.session.state == SessionStateId::GuestOk
            &&& b.session.server == Some(server)
            &&& b.session.port == Some(local_port)
            &&& profiles_view(b.session.profiles@) == seq![(now, local@)]
            &&& b.session.room == a.session.room
            &&& b.session.error == a.session.error
            &&& b.session.easytier == a.session.easytier
            &&& b.session.difficulty == a.session.difficulty
            &&& b.session.host_ip == a.session.host_ip
            &&& emitted_views(
                a,
                b,
                seq![
                    EventV::StateChanged { state: SessionStateId::GuestOk, version: v },
                    EventV::GuestReady { url: ready_url_text(local_port) },
                ],
            )
        },
{
    let patch = SessionPatch {
        port: Some(local_port),
        easytier: None,
        server: Some(server),
        profiles: Some(vec![(now, local)]),
        difficulty: None,
        host_ip: None,
    };
    let ghost a = *emitter;
    let ghost pv = profiles_view(patch.profiles->0@);
    assert(pv =~= seq![(now, local@)]);
    match emitter.transition(token, patch, SessionStateId::GuestOk) {
        Some(v) => {
            let ghost m = *emitter;
            let event = Event::GuestReady { url: ready_url(local_port) };
            emitter.emit(event);
            proof {
                lemma_emitted_one(a, m, Event::StateChanged { state: SessionStateId::GuestOk, version: v });
                lemma_emitted_push(
                    a,
                    m,
                    *emitter,
                    seq![EventV::StateChanged { state: SessionStateId::GuestOk, version: v }],
                    event,
                );
                assert(seq![EventV::StateChanged { state: SessionStateId::GuestOk, version: v }].push(
                    event@,
                ) =~= seq![
                    EventV::StateChanged { state: SessionStateId::GuestOk, version: v },
                    EventV::GuestReady { url: ready_url_text(local_port) },
                ]);
            }
            Some(v)
        },
        None => None,
    }
}

/// How many times a guest looks for the host's scaffolding server.
pub const SEARCH_TRIES: u32 = 5;

/// How many times a guest pings the scaffolding server to check it.
pub const VERIFY_TRIES: u32 = 60;

/// Where a guest stands while it connects to the host.
#[derive(Debug, Clone, Copy, PartialEq, Eq, Structural)]
pub enum ConnectPhase {
    /// Wait three seconds, then look through the overlay's peers for the
    /// scaffolding server; the count of earlier looks.
    Searching(u32),
    /// Forward a local port to the scaffolding server found.
    Forwarding,
    /// Wait four seconds, then ping the scaffolding server through the
    /// forwarded port; the count of earlier pings.
    Verifying(u32),
    /// The scaffolding server answered with the fingerprint.
    Connected,
    /// The connection failed with this error.
    Failed(SessionError),
    /// The session no longer belongs to this flow: stop quietly.
    Abandoned,
}

/// What a guest saw at its last step.
#[derive(Debug, Clone, Copy, PartialEq, Eq, Structural)]
pub enum ConnectEvent {
    /// The session was taken over, or holds no overlay process.
    Lost,
    /// A look at the peers: whether the overlay process runs, and whether
    /// its peer list names a scaffolding server.
    Looked { alive: bool, found: bool },
    /// Whether the port forward was added.
    Forwarded(bool),
    /// A ping: whether the fingerprint came back, and whether the overlay
    /// process runs.
    Pinged { verified: bool, alive: bool },
}

/// The phase is one the flow still works in.
pub open spec fn connecting(p: ConnectPhase) -> bool {
    match p {
        ConnectPhase::Searching(n) => n < SEARCH_TRIES,
        ConnectPhase::Forwarding => true,
        ConnectPhase::Verifying(n) => n < VERIFY_TRIES,
        _ => false,
    }
}

/// An upper bound on the steps left before the flow connects or stops.
pub open spec fn steps_left(p: ConnectPhase) -> nat {
    match p {
        ConnectPhase::Searching(n) => (SEARCH_TRIES - n + 1 + VERIFY_TRIES) as nat,
        ConnectPhase::Forwarding => (1 + VERIFY_TRIES) as nat,
        ConnectPhase::Verifying(n) => (VERIFY_TRIES - n) as nat,
        _ => 0,
    }
}

/// The next phase of a guest that connects to its host. A lost session is
/// abandoned. While searching, a dead overlay process fails the connection,
/// a found server is forwarded to, and otherwise the search goes on until
/// its tries are spent, which fails it as an unreachable host. A failed
/// forward fails the connection; a made one starts the pings. A ping that
/// comes back connects; a dead overlay process fails; otherwise the pings go
/// on until their tries are spent. An event that does not belong to the
/// phase leaves it as it is. Every step but the last brings the end nearer.
pub fn connect_step(phase: ConnectPhase, event: ConnectEvent) -> (r: ConnectPhase)
    requires
        connecting(phase),
    ensures
        match (phase, event) {
            (_, ConnectEvent::Lost) => r == ConnectPhase::Abandoned,
            (ConnectPhase::Searching(n), ConnectEvent::Looked { alive, found }) => r == if !alive {
                ConnectPhase::Failed(SessionError::GuestEasytierCrash)
            } else if found {
                ConnectPhase::Forwarding
            } else if n + 1 < SEARCH_TRIES {
                ConnectPhase::Searching((n + 1) as u32)
            } else {
                ConnectPhase::Failed(SessionError::PingHostFail)
            },
            (ConnectPhase::Forwarding, ConnectEvent::Forwarded(made)) => r == if made {
                ConnectPhase::Verifying(0)
            } else {
                ConnectPhase::Failed(SessionError::GuestEasytierCrash)
            },
            (ConnectPhase::Verifying(n), ConnectEvent::Pinged { verified, alive }) => r == if verified {
                ConnectPhase::Connected
            } else if !alive {
                ConnectPhase::Failed(SessionError::GuestEasytierCrash)
            } else if n + 1 < VERIFY_TRIES {
                ConnectPhase::Verifying((n + 1) as u32)
            } else {
                ConnectPhase::Failed(SessionError::PingHostFail)
            },
            _ => r == phase,
        },
        r != phase ==> steps_left(r) < steps_left(phase),
        connecting(r) || r is Connected || r is Failed || r is Abandoned,
{
    match (phase, event) {
        (_, ConnectEvent::Lost) => ConnectPhase::Abandoned,
        (ConnectPhase::Searching(n), ConnectEvent::Looked { alive, found }) => if !alive {
            ConnectPhase::Failed(SessionError::GuestEasytierCrash)
        } else if found {
            ConnectPhase::Forwarding
        } else if n + 1 < SEARCH_TRIES {
            ConnectPhase::Searching(n + 1)
        } else {
            ConnectPhase::Failed(SessionError::PingHostFail)
        },
        (ConnectPhase::Forwarding, ConnectEvent::Forwarded(made)) => if made {
            ConnectPhase::Verifying(0)
        } else {
            ConnectPhase::Failed(SessionError::GuestEasytierCrash)
        },
        (ConnectPhase::Verifying(n), ConnectEvent::Pinged { verified, alive }) => if verified {
            ConnectPhase::Connected
        } else if !alive {
            ConnectPhase::Failed(SessionError::GuestEasytierCrash)
        } else if n + 1 < VERIFY_TRIES {
            ConnectPhase::Verifying(n + 1)
        } else {
            ConnectPhase::Failed(SessionError::PingHostFail)
        },
        _ => phase,
    }
}

} // verus!
