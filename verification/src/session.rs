//! The session state machine and its version token.
//!
//! Every committed change raises the version. A flow remembers the version
//! it last committed (its token) and may commit again only while no other
//! change has been committed since; shared commits (refreshes that do not
//! change who owns the session) keep every token valid.
use vstd::prelude::*;
use crate::net::Ipv4;
use crate::profile::Profile;
use crate::room::Room;

verus! {

#[derive(Debug, Clone, Copy, PartialEq, Eq, Structural)]
pub enum SessionStateId {
    Waiting,
    HostScanning,
    HostStarting,
    HostOk,
    GuestConnecting,
    GuestStarting,
    GuestOk,
    Exception,
}

pub open spec fn state_number(s: SessionStateId) -> u8 {
    match s {
        SessionStateId::Waiting => 0,
        SessionStateId::HostScanning => 1,
        SessionStateId::HostStarting => 2,
        SessionStateId::HostOk => 3,
        SessionStateId::GuestConnecting => 4,
        SessionStateId::GuestStarting => 5,
        SessionStateId::GuestOk => 6,
        SessionStateId::Exception => 7,
    }
}

impl SessionStateId {
    /// The number of the state in the public interface.
    pub fn id(self) -> (r: u8)
        ensures
            r == state_number(self),
    {
        match self {
            SessionStateId::Waiting => 0,
            SessionStateId::HostScanning => 1,
            SessionStateId::HostStarting => 2,
            SessionStateId::HostOk => 3,
            SessionStateId::GuestConnecting => 4,
            SessionStateId::GuestStarting => 5,
            SessionStateId::GuestOk => 6,
            SessionStateId::Exception => 7,
        }
    }
}

#[derive(Debug, Clone, Copy, PartialEq, Eq, Structural)]
pub enum ConnectionDifficulty {
    Unknown,
    Easiest,
    Simple,
    Medium,
    Tough,
}

pub open spec fn difficulty_number(d: ConnectionDifficulty) -> u8 {
    match d {
        ConnectionDifficulty::Unknown => 0,
        ConnectionDifficulty::Easiest => 1,
        ConnectionDifficulty::Simple => 2,
        ConnectionDifficulty::Medium => 3,
        ConnectionDifficulty::Tough => 4,
    }
}

impl ConnectionDifficulty {
    pub fn id(self) -> (r: u8)
        ensures
            r == difficulty_number(self),
    {
        match self {
            ConnectionDifficulty::Unknown => 0,
            ConnectionDifficulty::Easiest => 1,
            ConnectionDifficulty::Simple => 2,
            ConnectionDifficulty::Medium => 3,
            ConnectionDifficulty::Tough => 4,
        }
    }
}

#[derive(Debug, Clone, Copy, PartialEq, Eq, Structural)]
pub enum SessionError {
    PingHostFail,
    PingHostRst,
    GuestEasytierCrash,
    HostEasytierCrash,
    PingServerRst,
    ScaffoldingInvalidResponse,
}

pub open spec fn error_number(e: SessionError) -> u32 {
    match e {
        SessionError::PingHostFail => 0,
        SessionError::PingHostRst => 1,
        SessionError::GuestEasytierCrash => 2,
        SessionError::HostEasytierCrash => 3,
        SessionError::PingServerRst => 4,
        SessionError::ScaffoldingInvalidResponse => 5,
    }
}

impl SessionError {
    pub fn code(self) -> (r: u32)
        ensures
            r == error_number(self),
    {
        match self {
            SessionError::PingHostFail => 0,
            SessionError::PingHostRst => 1,
            SessionError::GuestEasytierCrash => 2,
            SessionError::HostEasytierCrash => 3,
            SessionError::PingServerRst => 4,
            SessionError::ScaffoldingInvalidResponse => 5,
        }
    }
}

/// The session: its state, version counters, room, profiles (each with the
/// time in milliseconds it was last seen), the overlay process `E` and the
/// LAN announcer `S` it owns, and what the flows learnt.
pub struct Session<E, S> {
    pub state: SessionStateId,
    pub index: u64,
    pub sharing: u64,
    pub room: Option<Room>,
    pub profiles: Vec<(u64, Profile)>,
    pub easytier: Option<E>,
    pub server: Option<S>,
    pub port: Option<u16>,
    pub host_ip: Option<Ipv4>,
    pub difficulty: Option<ConnectionDifficulty>,
    pub error: Option<SessionError>,
}

/// Fields that a change sets; a field left `None` keeps its value.
pub struct SessionPatch<E, S> {
    pub port: Option<u16>,
    pub easytier: Option<E>,
    pub server: Option<S>,
    pub profiles: Option<Vec<(u64, Profile)>>,
    pub difficulty: Option<ConnectionDifficulty>,
    pub host_ip: Option<Ipv4>,
}

impl<E, S> SessionPatch<E, S> {
    /// A change that sets nothing.
    pub fn none() -> (r: SessionPatch<E, S>)
        ensures
            r.is_empty(),
    {
        SessionPatch {
            port: None,
            easytier: None,
            server: None,
            profiles: None,
            difficulty: None,
            host_ip: None,
        }
    }

    pub open spec fn is_empty(self) -> bool {
        &&& self.port is None
        &&& self.easytier is None
        &&& self.server is None
        &&& self.profiles is None
        &&& self.difficulty is None
        &&& self.host_ip is None
    }
}

/// The profile list's values.
pub open spec fn profiles_view(v: Seq<(u64, Profile)>) -> Seq<(u64, crate::profile::ProfileView)> {
    v.map_values(|p: (u64, Profile)| (p.0, p.1@))
}

/// `b` holds `a`'s content with the fields of `patch` set.
pub open spec fn patched<E, S>(a: Session<E, S>, b: Session<E, S>, patch: SessionPatch<E, S>) -> bool {
    &&& b.room == a.room
    &&& b.error == a.error
    &&& b.port == (if patch.port is Some { patch.port } else { a.port })
    &&& b.easytier == (if patch.easytier is Some { patch.easytier } else { a.easytier })
    &&& b.server == (if patch.server is Some { patch.server } else { a.server })
    &&& profiles_view(b.profiles@) == (match patch.profiles {
        Some(v) => profiles_view(v@),
        None => profiles_view(a.profiles@),
    })
    &&& b.difficulty == (if patch.difficulty is Some { patch.difficulty } else { a.difficulty })
    &&& b.host_ip == (if patch.host_ip is Some { patch.host_ip } else { a.host_ip })
}

/// `b` holds the same content as `a`, state included.
pub open spec fn same_content<E, S>(a: Session<E, S>, b: Session<E, S>) -> bool {
    &&& b.state == a.state
    &&& b.room == a.room
    &&& b.error == a.error
    &&& b.port == a.port
    &&& b.easytier == a.easytier
    &&& b.server == a.server
    &&& b.profiles == a.profiles
    &&& b.difficulty == a.difficulty
    &&& b.host_ip == a.host_ip
}

impl<E, S> Session<E, S> {
    /// The version: the number of plain commits so far.
    pub open spec fn version_spec(self) -> nat {
        self.index as nat
    }

    /// Refreshes committed with `commit_shared` since the last plain commit
    /// (a counter that wraps to zero at the top).
    pub open spec fn shared_spec(self) -> nat {
        self.sharing as nat
    }

    /// A flow holding `token` may still commit: no plain commit came after
    /// the version it holds.
    pub open spec fn captures(self, token: nat) -> bool {
        self.version_spec() <= token
    }

    /// Room for one more commit.
    pub open spec fn can_commit(self) -> bool {
        self.version_spec() < u64::MAX
    }

    pub fn waiting() -> (s: Session<E, S>)
        ensures
            s.state == SessionStateId::Waiting,
            s.version_spec() == 0,
            s.shared_spec() == 0,
            s.room is None,
            s.profiles@.len() == 0,
            s.easytier is None,
            s.server is None,
            s.port is None,
            s.host_ip is None,
            s.difficulty is None,
            s.error is None,
    {
        Session {
            state: SessionStateId::Waiting,
            index: 0,
            sharing: 0,
            room: None,
            profiles: Vec::new(),
            easytier: None,
            server: None,
            port: None,
            host_ip: None,
            difficulty: None,
            error: None,
        }
    }

    pub fn state(&self) -> (r: SessionStateId)
        ensures
            r == self.state,
    {
        self.state
    }

    pub fn version(&self) -> (r: u64)
        ensures
            r == self.version_spec(),
    {
        self.index
    }

    /// The token of the current version.
    pub fn token(&self) -> (r: u64)
        ensures
            r == self.version_spec(),
    {
        self.index
    }

    pub fn can_capture(&self, token: u64) -> (r: bool)
        ensures
            r == self.captures(token as nat),
    {
        self.index <= token
    }

    /// Commits a change that takes the session over: only the new version's
    /// token captures it afterwards.
    pub fn commit(&mut self) -> (r: u64)
        requires
            old(self).can_commit(),
        ensures
            r == final(self).version_spec(),
            final(self).version_spec() == old(self).version_spec() + 1,
            final(self).shared_spec() == 0,
            forall|t: nat| #[trigger] final(self).captures(t) <==> t >= final(self).version_spec(),
            same_content(*old(self), *final(self)),
    {
        self.index = self.index + 1;
        self.sharing = 0;
        self.index
    }

    /// Commits a read-only refresh: the version stays, the refresh is
    /// counted, and every token that captured the session before still
    /// does, and no other. Gives the version.
    pub fn commit_shared(&mut self) -> (r: u64)
        ensures
            r == final(self).version_spec(),
            final(self).version_spec() == old(self).version_spec(),
            final(self).shared_spec() == shared_after(old(self).shared_spec()),
            forall|t: nat| #[trigger] final(self).captures(t) <==> old(self).captures(t),
            same_content(*old(self), *final(self)),
    {
        self.sharing = if self.sharing == u64::MAX {
            0
        } else {
            self.sharing + 1
        };
        self.index
    }

    /// Drops everything the session holds and returns to `Waiting` with a
    /// plain commit, which invalidates every earlier token.
    pub fn reset_to_waiting(&mut self) -> (r: u64)
        requires
            old(self).can_commit(),
        ensures
            r == final(self).version_spec(),
            final(self).version_spec() == old(self).version_spec() + 1,
            final(self).shared_spec() == 0,
            forall|t: nat| #[trigger] final(self).captures(t) <==> t >= final(self).version_spec(),
            final(self).state == SessionStateId::Waiting,
            final(self).room is None,
            final(self).profiles@.len() == 0,
            final(self).easytier is None,
            final(self).server is None,
            final(self).port is None,
            final(self).host_ip is None,
            final(self).difficulty is None,
            final(self).error is None,
    {
        self.state = SessionStateId::Waiting;
        self.room = None;
        self.profiles = Vec::new();
        self.easytier = None;
        self.server = None;
        self.port = None;
        self.host_ip = None;
        self.difficulty = None;
        self.error = None;
        self.commit()
    }

    /// Sets the fields that `patch` carries.
    pub fn apply(&mut self, patch: SessionPatch<E, S>)
        ensures
            patched(*old(self), *final(self), patch),
            final(self).state == old(self).state,
            final(self).version_spec() == old(self).version_spec(),
            final(self).shared_spec() == old(self).shared_spec(),
    {
        let SessionPatch { port, easytier, server, profiles, difficulty, host_ip } = patch;
        if port.is_some() {
            self.port = port;
        }
        match easytier {
            Some(e) => {
                self.easytier = Some(e);
            },
            None => {},
        }
        match server {
            Some(s) => {
                self.server = Some(s);
            },
            None => {},
        }
        match profiles {
            Some(v) => {
                self.profiles = v;
            },
            None => {},
        }
        if difficulty.is_some() {
            self.difficulty = difficulty;
        }
        if host_ip.is_some() {
            self.host_ip = host_ip;
        }
    }

    /// Sets the profile list, keeping everything else.
    pub fn set_profiles(&mut self, profiles: Vec<(u64, Profile)>)
        ensures
            final(self).profiles@ == profiles@,
            final(self).state == old(self).state,
            final(self).version_spec() == old(self).version_spec(),
            final(self).shared_spec() == old(self).shared_spec(),
            final(self).room == old(self).room,
            final(self).error == old(self).error,
            final(self).port == old(self).port,
            final(self).easytier == old(self).easytier,
            final(self).server == old(self).server,
            final(self).difficulty == old(self).difficulty,
            final(self).host_ip == old(self).host_ip,
    {
        self.profiles = profiles;
    }
}

/// The refresh count after one more refresh.
pub open spec fn shared_after(n: nat) -> nat {
    if n >= u64::MAX {
        0
    } else {
        n + 1
    }
}

/// A plain commit (a flow's step, or the return to `Waiting`) invalidates
/// every token given out before it, and the new version's token captures
/// the session.
pub proof fn lemma_plain_commit_invalidates<E, S>(a: Session<E, S>, b: Session<E, S>, token: nat)
    requires
        b.version_spec() == a.version_spec() + 1,
        b.shared_spec() == 0,
        token <= a.version_spec(),
    ensures
        !b.captures(token),
        b.captures(b.version_spec()),
{
}

/// A shared commit (a read-only refresh) keeps the version, keeps every
/// token that captured the session, and lets no other in.
pub proof fn lemma_shared_commit_keeps_tokens<E, S>(a: Session<E, S>, b: Session<E, S>, token: nat)
    requires
        b.version_spec() == a.version_spec(),
        b.shared_spec() == shared_after(a.shared_spec()),
    ensures
        b.captures(token) <==> a.captures(token),
{
}

/// `b` follows `a` by one commit, as the contracts of the commits give
/// it: a shared one (`commit_shared`) where `shared` holds, which keeps the
/// version and counts the refresh; else a plain one (`commit` or
/// `reset_to_waiting`), which raises the version and clears the count.
pub open spec fn one_commit<E, S>(a: Session<E, S>, b: Session<E, S>, shared: bool) -> bool {
    &&& shared ==> b.version_spec() == a.version_spec() && b.shared_spec() == shared_after(
        a.shared_spec(),
    )
    &&& !shared ==> b.version_spec() == a.version_spec() + 1 && b.shared_spec() == 0
}

/// `run` starts at a fresh session (`Session::waiting`) and each session in
/// it follows the one before by one commit, of the kind `shared` gives at
/// that step.
pub open spec fn commit_run<E, S>(run: Seq<Session<E, S>>, shared: Seq<bool>) -> bool {
    &&& run.len() == shared.len() + 1
    &&& run[0].version_spec() == 0
    &&& run[0].shared_spec() == 0
    &&& forall|i: int| 0 <= i < shared.len() ==> #[trigger] one_commit(run[i], run[i + 1], shared[i])
}

/// How many plain commits a run made: the version the last of them gave, 0
/// where the run made none.
pub open spec fn plain_commits(shared: Seq<bool>) -> nat
    decreases shared.len(),
{
    if shared.len() == 0 {
        0
    } else if !shared.last() {
        plain_commits(shared.drop_last()) + 1
    } else {
        plain_commits(shared.drop_last())
    }
}

proof fn lemma_run_version<E, S>(run: Seq<Session<E, S>>, shared: Seq<bool>, k: int)
    requires
        commit_run(run, shared),
        0 <= k <= shared.len(),
    ensures
        run[k].version_spec() == plain_commits(shared.take(k)),
    decreases k,
{
    if k > 0 {
        lemma_run_version(run, shared, k - 1);
        assert(one_commit(run[k - 1], run[(k - 1) + 1], shared[k - 1]));
        assert(shared.take(k).drop_last() =~= shared.take(k - 1));
        assert(shared.take(k).last() == shared[k - 1]);
    } else {
        assert(shared.take(0).len() == 0);
    }
}

/// Along any run of commits from a fresh session (any sequence of
/// `commit`, `commit_shared` and `reset_to_waiting`), the version is the
/// number of plain commits, which is the version the last of them gave (0
/// where there was none); its own version's token captures the session; a
/// token that captures it is followed by larger ones that do too; and the
/// tokens that capture it are exactly those at or above that version.
pub proof fn lemma_tokens_along_run<E, S>(run: Seq<Session<E, S>>, shared: Seq<bool>)
    requires
        commit_run(run, shared),
    ensures
        run.last().version_spec() == plain_commits(shared),
        run.last().captures(run.last().version_spec()),
        forall|t: nat| #[trigger] run.last().captures(t) ==> run.last().captures(t + 1),
        forall|t: nat| #[trigger] run.last().captures(t) <==> t >= plain_commits(shared),
{
    lemma_run_version(run, shared, shared.len() as int);
    assert(shared.take(shared.len() as int) =~= shared);
}

} // verus!
