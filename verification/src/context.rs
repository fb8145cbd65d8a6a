//! The shared state of a context: the session, the bounded event queue and
//! its counters, the configuration; and the handling of commands.
use vstd::prelude::*;
use crate::command::Command;
use crate::event::{events_view, Event, EventV};
use crate::room::{parse_value, valid_room_value, Room};
use crate::session::{patched, same_content, shared_after, Session, SessionError, SessionPatch, SessionStateId};
use crate::text::{owned, push_text, string_of};
use std::collections::VecDeque;

verus! {

/// How many events wait at most; more are dropped and counted.
pub const EVENT_QUEUE_CAPACITY: usize = 256;

#[derive(Debug, Clone)]
pub struct ContextConfig {
    pub public_nodes: Vec<String>,
    pub data_dir: String,
    pub motd: Option<String>,
}

pub struct ConfigView {
    pub public_nodes: Seq<Seq<char>>,
    pub data_dir: Seq<char>,
    pub motd: Option<Seq<char>>,
}

pub open spec fn strings_view(v: Seq<String>) -> Seq<Seq<char>> {
    v.map_values(|s: String| s@)
}

impl View for ContextConfig {
    type V = ConfigView;

    open spec fn view(&self) -> ConfigView {
        ConfigView {
            public_nodes: strings_view(self.public_nodes@),
            data_dir: self.data_dir@,
            motd: match self.motd {
                Some(m) => Some(m@),
                None => None,
            },
        }
    }
}

/// The values of two lists of strings, one after the other.
pub proof fn lemma_strings_view_add(a: Seq<String>, b: Seq<String>)
    ensures
        strings_view(a + b) == strings_view(a) + strings_view(b),
{
    assert(strings_view(a + b) =~= strings_view(a) + strings_view(b));
}

/// A copy of a list of strings.
pub fn copy_strings(v: &Vec<String>) -> (r: Vec<String>)
    ensures
        strings_view(r@) == strings_view(v@),
{
    let mut out: Vec<String> = Vec::new();
    let mut i: usize = 0;
    while i < v.len()
        invariant
            0 <= i <= v.len(),
            out@.len() == i,
            forall|k: int| 0 <= k < i ==> #[trigger] out@[k]@ == v@[k]@,
        decreases v.len() - i,
    {
        out.push(v[i].clone());
        i += 1;
    }
    assert(strings_view(out@) =~= strings_view(v@));
    out
}

impl ContextConfig {
    /// No extra public nodes, no custom message of the day, and the given
    /// data directory.
    pub fn with_data_dir(data_dir: String) -> (r: ContextConfig)
        ensures
            r@.public_nodes.len() == 0,
            r@.data_dir == data_dir@,
            r@.motd is None,
    {
        let r = ContextConfig { public_nodes: Vec::new(), data_dir, motd: None };
        assert(r@.public_nodes =~= Seq::<Seq<char>>::empty());
        r
    }

    /// A copy holding the same values.
    pub fn duplicate(&self) -> (r: ContextConfig)
        ensures
            r@ == self@,
    {
        let motd = match &self.motd {
            Some(m) => Some(m.clone()),
            None => None,
        };
        ContextConfig {
            public_nodes: copy_strings(&self.public_nodes),
            data_dir: self.data_dir.clone(),
            motd,
        }
    }
}

/// `n + 1`, wrapping to zero at the top like an atomic counter.
pub open spec fn wrap_inc(n: u64) -> u64 {
    if n == u64::MAX {
        0
    } else {
        (n + 1) as u64
    }
}

/// The queue after offering `e`: kept when there is room.
pub open spec fn offered<T>(q: Seq<T>, e: T) -> Seq<T> {
    if q.len() < EVENT_QUEUE_CAPACITY {
        q.push(e)
    } else {
        q
    }
}

/// The dropped count after offering an event to `q`.
pub open spec fn dropped_after<T>(q: Seq<T>, dropped: u64) -> u64 {
    if q.len() < EVENT_QUEUE_CAPACITY {
        dropped
    } else {
        wrap_inc(dropped)
    }
}

/// The shared state of a context. `E` is the overlay process a session owns
/// and `S` its LAN announcer.
pub struct Emitter<E, S> {
    pub session: Session<E, S>,
    pub events: VecDeque<Event>,
    /// The sequence number of each waiting event, in the same order.
    pub sequences: VecDeque<u64>,
    /// The place of each waiting event among all events emitted (the first
    /// is 1), in the same order.
    pub numbers: Ghost<Seq<nat>>,
    /// The place the next emitted event takes.
    pub count: Ghost<nat>,
    /// The place of the last event taken from the queue (0 before any).
    pub last_taken: Ghost<nat>,
    pub next_seq: u64,
    pub dropped: u64,
    pub shutdown: bool,
    pub config: ContextConfig,
    pub scaffolding_port: u16,
}

/// `b` is `a` after emitting `e`, the session aside.
pub open spec fn emitted<E, S>(a: Emitter<E, S>, b: Emitter<E, S>, e: Event) -> bool {
    &&& b.events@ == offered(a.events@, e)
    &&& b.sequences@ == offered(a.sequences@, a.next_seq)
    &&& b.numbers@ == offered(a.numbers@, a.count@)
    &&& b.count@ == a.count@ + 1
    &&& b.last_taken@ == a.last_taken@
    &&& b.dropped == dropped_after(a.events@, a.dropped)
    &&& b.next_seq == wrap_inc(a.next_seq)
    &&& b.shutdown == a.shutdown
    &&& b.config == a.config
    &&& b.scaffolding_port == a.scaffolding_port
}

/// The queue, dropped count and sequence counter after offering each of
/// `es` in turn.
pub open spec fn offer_all(q: Seq<EventV>, dropped: u64, seq: u64, es: Seq<EventV>) -> (
    Seq<EventV>,
    u64,
    u64,
)
    decreases es.len(),
{
    if es.len() == 0 {
        (q, dropped, seq)
    } else {
        offer_all(offered(q, es[0]), dropped_after(q, dropped), wrap_inc(seq), es.drop_first())
    }
}

/// `b` is `a` after emitting events with the values `es` in order, the
/// session aside.
pub open spec fn emitted_views<E, S>(a: Emitter<E, S>, b: Emitter<E, S>, es: Seq<EventV>) -> bool {
    let r = offer_all(events_view(a.events@), a.dropped, a.next_seq, es);
    &&& events_view(b.events@) == r.0
    &&& b.dropped == r.1
    &&& b.next_seq == r.2
    &&& b.shutdown == a.shutdown
    &&& b.config == a.config
    &&& b.scaffolding_port == a.scaffolding_port
}

/// Emitting nothing.
pub proof fn lemma_emitted_none<E, S>(a: Emitter<E, S>, b: Emitter<E, S>)
    requires
        b.events@ == a.events@,
        b.dropped == a.dropped,
        b.next_seq == a.next_seq,
        b.shutdown == a.shutdown,
        b.config == a.config,
        b.scaffolding_port == a.scaffolding_port,
    ensures
        emitted_views(a, b, Seq::empty()),
{
}

/// Emitting one more event after a list of them.
pub proof fn lemma_emitted_push<E, S>(
    a: Emitter<E, S>,
    m: Emitter<E, S>,
    b: Emitter<E, S>,
    es: Seq<EventV>,
    e: Event,
)
    requires
        emitted_views(a, m, es),
        emitted(m, b, e),
    ensures
        emitted_views(a, b, es.push(e@)),
    decreases es.len(),
{
    lemma_offer_all_push(events_view(a.events@), a.dropped, a.next_seq, es, e@);
    let qm = m.events@;
    assert(events_view(offered(qm, e)) =~= offered(events_view(qm), e@));
}

proof fn lemma_offer_all_push(q: Seq<EventV>, d: u64, n: u64, es: Seq<EventV>, e: EventV)
    ensures
        ({
            let r = offer_all(q, d, n, es);
            offer_all(q, d, n, es.push(e)) == (offered(r.0, e), dropped_after(r.0, r.1), wrap_inc(r.2))
        }),
    decreases es.len(),
{
    if es.len() == 0 {
        assert(es.push(e).drop_first() =~= Seq::<EventV>::empty());
        assert(es.push(e)[0] == e);
        reveal_with_fuel(offer_all, 2);
    } else {
        assert(es.push(e).drop_first() =~= es.drop_first().push(e));
        lemma_offer_all_push(offered(q, es[0]), dropped_after(q, d), wrap_inc(n), es.drop_first(), e);
    }
}

/// Emitting two lists of events in turn.
pub proof fn lemma_emitted_concat<E, S>(
    a: Emitter<E, S>,
    m: Emitter<E, S>,
    b: Emitter<E, S>,
    xs: Seq<EventV>,
    ys: Seq<EventV>,
)
    requires
        emitted_views(a, m, xs),
        emitted_views(m, b, ys),
    ensures
        emitted_views(a, b, xs + ys),
{
    lemma_offer_all_concat(events_view(a.events@), a.dropped, a.next_seq, xs, ys);
}

proof fn lemma_offer_all_concat(q: Seq<EventV>, d: u64, n: u64, xs: Seq<EventV>, ys: Seq<EventV>)
    ensures
        ({
            let r = offer_all(q, d, n, xs);
            offer_all(q, d, n, xs + ys) == offer_all(r.0, r.1, r.2, ys)
        }),
    decreases xs.len(),
{
    if xs.len() > 0 {
        assert((xs + ys).drop_first() =~= xs.drop_first() + ys);
        assert((xs + ys)[0] == xs[0]);
        lemma_offer_all_concat(offered(q, xs[0]), dropped_after(q, d), wrap_inc(n), xs.drop_first(), ys);
    } else {
        assert(xs + ys =~= ys);
    }
}

/// One event, by value.
pub proof fn lemma_emitted_one<E, S>(a: Emitter<E, S>, b: Emitter<E, S>, e: Event)
    requires
        emitted(a, b, e),
    ensures
        emitted_views(a, b, seq![e@]),
{
    lemma_emitted_none(a, a);
    assert(Seq::<EventV>::empty().push(e@) =~= seq![e@]);
    lemma_emitted_push(a, a, b, Seq::empty(), e);
}

/// `b` is `a` with nothing changed.
pub open spec fn unchanged<E, S>(a: Emitter<E, S>, b: Emitter<E, S>) -> bool {
    &&& same_content(a.session, b.session)
    &&& b.session.version_spec() == a.session.version_spec()
    &&& b.session.shared_spec() == a.session.shared_spec()
    &&& b.events@ == a.events@
    &&& b.sequences@ == a.sequences@
    &&& b.numbers@ == a.numbers@
    &&& b.count@ == a.count@
    &&& b.last_taken@ == a.last_taken@
    &&& b.dropped == a.dropped
    &&& b.next_seq == a.next_seq
    &&& b.shutdown == a.shutdown
    &&& b.config == a.config
    &&& b.scaffolding_port == a.scaffolding_port
}

/// How many values the sequence counter takes before it wraps.
pub open spec fn sequence_span() -> nat {
    0x1_0000_0000_0000_0000
}

/// The sequence number of the event emitted at place `n`: the counter
/// starts at 1 and wraps to 0 at the top.
pub open spec fn sequence_of(n: nat) -> nat {
    n % sequence_span()
}

/// The counter after one more event.
proof fn lemma_sequence_step(n: nat)
    ensures
        wrap_inc(sequence_of(n) as u64) == sequence_of(n + 1),
{
    let m = sequence_span();
    assert(n == m * (n / m) + n % m) by {
        vstd::arithmetic::div_mod::lemma_fundamental_div_mod(n as int, m as int);
    }
    if n % m + 1 < m {
        vstd::arithmetic::div_mod::lemma_mod_add_multiples_vanish((n % m + 1) as int, m as int);
        assert((n + 1) % m == (n % m + 1)) by {
            vstd::arithmetic::div_mod::lemma_mod_multiples_vanish((n / m) as int, (n % m + 1) as int, m as int);
        }
    } else {
        assert((n + 1) % m == 0) by {
            let q: int = (n / m) as int;
            vstd::arithmetic::div_mod::lemma_mod_multiples_basic(q + 1, m as int);
            vstd::arithmetic::mul::lemma_mul_is_distributive_add_other_way(m as int, q, 1);
            vstd::arithmetic::mul::lemma_mul_is_commutative(m as int, q);
            assert(n + 1 == (q + 1) * m);
        }
    }
}

impl<E, S> Emitter<E, S> {
    /// The queue is within its capacity; each waiting event has its place
    /// among all events emitted and its sequence number, that place on the
    /// counter; the places rise along the queue, above the last one taken
    /// and below the next one given.
    pub open spec fn wf(self) -> bool {
        &&& self.events@.len() <= EVENT_QUEUE_CAPACITY
        &&& self.sequences@.len() == self.events@.len()
        &&& self.numbers@.len() == self.events@.len()
        &&& forall|k: int|
            0 <= k < self.numbers@.len() ==> self.sequences@[k] == sequence_of(
                #[trigger] self.numbers@[k],
            )
        &&& forall|i: int, j: int|
            0 <= i < j < self.numbers@.len() ==> #[trigger] self.numbers@[i] < #[trigger] self.numbers@[j]
        &&& forall|k: int|
            0 <= k < self.numbers@.len() ==> self.last_taken@ < #[trigger] self.numbers@[k]
                && self.numbers@[k] < self.count@
        &&& self.last_taken@ < self.count@
        &&& self.next_seq == sequence_of(self.count@)
    }

    /// Room for one more commit of the session.
    pub open spec fn can_commit(self) -> bool {
        self.session.can_commit()
    }

    /// A fresh context state: a waiting session, an empty queue, the first
    /// sequence number 1.
    pub fn new(config: ContextConfig) -> (r: Emitter<E, S>)
        ensures
            r.wf(),
            r.session.state == SessionStateId::Waiting,
            r.session.version_spec() == 0,
            r.session.room is None,
            r.events@.len() == 0,
            r.count@ == 1,
            r.last_taken@ == 0,
            r.next_seq == 1,
            r.dropped == 0,
            !r.shutdown,
            r.config == config,
            r.scaffolding_port == 0,
    {
        Emitter {
            session: Session::waiting(),
            events: VecDeque::new(),
            sequences: VecDeque::new(),
            numbers: Ghost(Seq::empty()),
            count: Ghost(1),
            last_taken: Ghost(0),
            next_seq: 1,
            dropped: 0,
            shutdown: false,
            config,
            scaffolding_port: 0,
        }
    }

    /// Offers an event to the queue: it is kept, with the counter's number
    /// as its sequence, while fewer than `EVENT_QUEUE_CAPACITY` wait, else
    /// dropped and counted. Either way it takes the next place and the
    /// sequence counter advances.
    pub fn emit(&mut self, event: Event)
        requires
            old(self).wf(),
        ensures
            final(self).wf(),
            emitted(*old(self), *final(self), event),
            final(self).session == old(self).session,
    {
        proof {
            lemma_sequence_step(self.count@);
        }
        let ghost place = self.count@;
        self.count = Ghost(place + 1);
        let sequence = self.next_seq;
        self.next_seq = if self.next_seq == u64::MAX {
            0
        } else {
            self.next_seq + 1
        };
        if self.events.len() < EVENT_QUEUE_CAPACITY {
            self.events.push_back(event);
            self.sequences.push_back(sequence);
            self.numbers = Ghost(self.numbers@.push(place));
        } else {
            self.dropped = if self.dropped == u64::MAX {
                0
            } else {
                self.dropped + 1
            };
        }
    }

    /// Takes the oldest waiting event.
    pub fn poll_event(&mut self) -> (r: Option<Event>)
        requires
            old(self).wf(),
        ensures
            final(self).wf(),
            old(self).events@.len() == 0 ==> r is None && final(self).events@ == old(
                self,
            ).events@ && final(self).sequences@ == old(self).sequences@,
            old(self).events@.len() > 0 ==> r == Some(old(self).events@[0])
                && final(self).events@ == old(self).events@.drop_first()
                && final(self).sequences@ == old(self).sequences@.drop_first(),
            final(self).session == old(self).session,
            final(self).dropped == old(self).dropped,
            final(self).next_seq == old(self).next_seq,
            final(self).shutdown == old(self).shutdown,
            final(self).config == old(self).config,
            final(self).scaffolding_port == old(self).scaffolding_port,
            final(self).count == old(self).count,
            old(self).events@.len() > 0 ==> final(self).last_taken@ == old(self).numbers@[0]
                && final(self).numbers@ == old(self).numbers@.drop_first(),
    {
        if self.events.len() > 0 {
            let ghost first = self.numbers@[0];
            self.numbers = Ghost(self.numbers@.drop_first());
            self.last_taken = Ghost(first);
        }
        let _ = self.sequences.pop_front();
        self.events.pop_front()
    }

    /// Takes the oldest waiting event with its sequence number. The event
    /// taken comes after the one taken before it, and its sequence is its
    /// place on the counter: until the counter wraps, each event taken has a
    /// larger sequence number than the one taken before it.
    pub fn poll_sequenced(&mut self) -> (r: Option<(Event, u64)>)
        requires
            old(self).wf(),
        ensures
            final(self).wf(),
            old(self).events@.len() == 0 ==> r is None && unchanged(*old(self), *final(self)),
            old(self).events@.len() > 0 ==> r == Some((old(self).events@[0], old(self).sequences@[0]))
                && final(self).events@ == old(self).events@.drop_first()
                && final(self).sequences@ == old(self).sequences@.drop_first(),
            final(self).session == old(self).session,
            final(self).dropped == old(self).dropped,
            final(self).next_seq == old(self).next_seq,
            final(self).shutdown == old(self).shutdown,
            final(self).config == old(self).config,
            final(self).scaffolding_port == old(self).scaffolding_port,
            final(self).count == old(self).count,
            old(self).events@.len() > 0 ==> final(self).last_taken@ == old(self).numbers@[0]
                && final(self).numbers@ == old(self).numbers@.drop_first(),
            r matches Some((_, n)) ==> {
                &&& n == sequence_of(final(self).last_taken@)
                &&& old(self).last_taken@ < final(self).last_taken@
                &&& final(self).last_taken@ < sequence_span() ==> sequence_of(old(self).last_taken@) < n
            },
    {
        if self.events.len() > 0 {
            let ghost first = self.numbers@[0];
            self.numbers = Ghost(self.numbers@.drop_first());
            self.last_taken = Ghost(first);
        }
        match self.events.pop_front() {
            Some(event) => {
                let sequence = match self.sequences.pop_front() {
                    Some(n) => n,
                    None => 0,
                };
                Some((event, sequence))
            },
            None => None,
        }
    }

    pub fn is_shutdown(&self) -> (r: bool)
        ensures
            r == self.shutdown,
    {
        self.shutdown
    }

    /// Marks the context as shutting down.
    pub fn request_shutdown(&mut self)
        ensures
            final(self).shutdown,
            final(self).session == old(self).session,
            final(self).events == old(self).events,
            final(self).sequences == old(self).sequences,
            final(self).numbers == old(self).numbers,
            final(self).count == old(self).count,
            final(self).last_taken == old(self).last_taken,
            final(self).dropped == old(self).dropped,
            final(self).next_seq == old(self).next_seq,
            final(self).config == old(self).config,
            final(self).scaffolding_port == old(self).scaffolding_port,
    {
        self.shutdown = true;
    }

    pub fn dropped_count(&self) -> (r: u64)
        ensures
            r == self.dropped,
    {
        self.dropped
    }

    pub fn next_sequence(&self) -> (r: u64)
        ensures
            r == self.next_seq,
    {
        self.next_seq
    }

    pub fn scaffolding_port(&self) -> (r: u16)
        ensures
            r == self.scaffolding_port,
    {
        self.scaffolding_port
    }

    pub fn set_scaffolding_port(&mut self, port: u16)
        ensures
            final(self).scaffolding_port == port,
            final(self).session == old(self).session,
            final(self).events == old(self).events,
            final(self).sequences == old(self).sequences,
            final(self).numbers == old(self).numbers,
            final(self).count == old(self).count,
            final(self).last_taken == old(self).last_taken,
            final(self).dropped == old(self).dropped,
            final(self).next_seq == old(self).next_seq,
            final(self).shutdown == old(self).shutdown,
            final(self).config == old(self).config,
    {
        self.scaffolding_port = port;
    }

    pub fn can_capture(&self, token: u64) -> (r: bool)
        requires
            self.wf(),
        ensures
            r == self.session.captures(token as nat),
    {
        self.session.can_capture(token)
    }

    /// A copy of the configuration.
    pub fn config(&self) -> (r: ContextConfig)
        ensures
            r@ == self.config@,
    {
        self.config.duplicate()
    }

    /// Replaces the configuration.
    pub fn set_config(&mut self, config: ContextConfig)
        ensures
            final(self).config == config,
            final(self).session == old(self).session,
            final(self).events == old(self).events,
            final(self).sequences == old(self).sequences,
            final(self).numbers == old(self).numbers,
            final(self).count == old(self).count,
            final(self).last_taken == old(self).last_taken,
            final(self).dropped == old(self).dropped,
            final(self).next_seq == old(self).next_seq,
            final(self).shutdown == old(self).shutdown,
            final(self).scaffolding_port == old(self).scaffolding_port,
    {
        self.config = config;
    }

    pub fn session(&self) -> (r: &Session<E, S>)
        ensures
            *r == self.session,
    {
        &self.session
    }

    /// Applies `patch` without a token check, commits it as shared and
    /// announces the state.
    pub fn commit_shared(&mut self, patch: SessionPatch<E, S>)
        requires
            old(self).wf(),
        ensures
            final(self).wf(),
            patched(old(self).session, final(self).session, patch),
            final(self).session.state == old(self).session.state,
            final(self).session.version_spec() == old(self).session.version_spec(),
            final(self).session.shared_spec() == shared_after(old(self).session.shared_spec()),
            forall|t: nat| #[trigger] final(self).session.captures(t) <==> old(
                self,
            ).session.captures(t),
            emitted(
                *old(self),
                *final(self),
                Event::StateChanged {
                    state: old(self).session.state,
                    version: old(self).session.version_spec() as u64,
                },
            ),
    {
        self.session.apply(patch);
        let version = self.session.commit_shared();
        let state = self.session.state;
        self.emit(Event::StateChanged { state, version });
    }

    /// Where `token` still captures the session: enters `Exception` with
    /// `error`, commits and announces it. Otherwise changes nothing.
    pub fn set_exception(&mut self, token: u64, error: SessionError) -> (r: bool)
        requires
            old(self).wf(),
            old(self).can_commit(),
        ensures
            final(self).wf(),
            r == old(self).session.captures(token as nat),
            !r ==> unchanged(*old(self), *final(self)),
            r ==> {
                &&& final(self).session.state == SessionStateId::Exception
                &&& final(self).session.error == Some(error)
                &&& final(self).session.room == old(self).session.room
                &&& final(self).session.port == old(self).session.port
                &&& final(self).session.profiles == old(self).session.profiles
                &&& final(self).session.easytier == old(self).session.easytier
                &&& final(self).session.server == old(self).session.server
                &&& final(self).session.difficulty == old(self).session.difficulty
                &&& final(self).session.host_ip == old(self).session.host_ip
                &&& final(self).session.version_spec() == old(self).session.version_spec() + 1
                &&& final(self).session.shared_spec() == 0
                &&& emitted(
                    *old(self),
                    *final(self),
                    Event::StateChanged {
                        state: SessionStateId::Exception,
                        version: (old(self).session.version_spec() + 1) as u64,
                    },
                )
            },
    {
        if !self.session.can_capture(token) {
            return false;
        }
        self.session.state = SessionStateId::Exception;
        self.session.error = Some(error);
        let version = self.session.commit();
        self.emit(Event::StateChanged { state: SessionStateId::Exception, version });
        true
    }

    /// Where `token` still captures the session: applies `patch`, enters
    /// `state`, commits (taking the session over) and announces it, and
    /// gives the new version, the token for the next step. Otherwise
    /// changes nothing.
    pub fn transition(&mut self, token: u64, patch: SessionPatch<E, S>, state: SessionStateId) -> (r:
        Option<u64>)
        requires
            old(self).wf(),
            old(self).can_commit(),
        ensures
            final(self).wf(),
            r is Some == old(self).session.captures(token as nat),
            r is None ==> unchanged(*old(self), *final(self)),
            r matches Some(v) ==> {
                &&& v == old(self).session.version_spec() + 1
                &&& final(self).session.version_spec() == v
                &&& final(self).session.shared_spec() == 0
                &&& final(self).session.state == state
                &&& patched(old(self).session, final(self).session, patch)
                &&& emitted(*old(self), *final(self), Event::StateChanged { state, version: v })
            },
    {
        if !self.session.can_capture(token) {
            return None;
        }
        self.session.apply(patch);
        self.session.state = state;
        let version = self.session.commit();
        self.emit(Event::StateChanged { state, version });
        Some(version)
    }

    /// Where `token` still captures the session: applies `patch`, commits
    /// (taking the session over) and announces it. Otherwise changes nothing.
    pub fn mutate(&mut self, token: u64, patch: SessionPatch<E, S>) -> (r: bool)
        requires
            old(self).wf(),
            old(self).can_commit(),
        ensures
            final(self).wf(),
            r == old(self).session.captures(token as nat),
            !r ==> unchanged(*old(self), *final(self)),
            r ==> {
                &&& final(self).session.version_spec() == old(self).session.version_spec() + 1
                &&& final(self).session.shared_spec() == 0
                &&& final(self).session.state == old(self).session.state
                &&& patched(old(self).session, final(self).session, patch)
                &&& emitted(
                    *old(self),
                    *final(self),
                    Event::StateChanged {
                        state: old(self).session.state,
                        version: (old(self).session.version_spec() + 1) as u64,
                    },
                )
            },
    {
        if !self.session.can_capture(token) {
            return false;
        }
        self.session.apply(patch);
        let version = self.session.commit();
        let state = self.session.state;
        self.emit(Event::StateChanged { state, version });
        true
    }

    /// Where `token` still captures the session: applies `patch`, commits it
    /// as shared (every token keeps its standing) and announces it.
    /// Otherwise changes nothing.
    pub fn mutate_shared(&mut self, token: u64, patch: SessionPatch<E, S>) -> (r: bool)
        requires
            old(self).wf(),
        ensures
            final(self).wf(),
            r == old(self).session.captures(token as nat),
            !r ==> unchanged(*old(self), *final(self)),
            r ==> {
                &&& final(self).session.version_spec() == old(self).session.version_spec()
                &&& final(self).session.shared_spec() == shared_after(old(self).session.shared_spec())
                &&& forall|t: nat| #[trigger] final(self).session.captures(t) <==> old(
                    self,
                ).session.captures(t)
                &&& final(self).session.state == old(self).session.state
                &&& patched(old(self).session, final(self).session, patch)
                &&& emitted(
                    *old(self),
                    *final(self),
                    Event::StateChanged {
                        state: old(self).session.state,
                        version: old(self).session.version_spec() as u64,
                    },
                )
            },
    {
        if !self.session.can_capture(token) {
            return false;
        }
        self.session.apply(patch);
        let version = self.session.commit_shared();
        let state = self.session.state;
        self.emit(Event::StateChanged { state, version });
        true
    }

    /// Returns a session that is not waiting to `Waiting` and announces it;
    /// a waiting session stays as it is and nothing is announced.
    pub fn reset_to_waiting(&mut self) -> (r: bool)
        requires
            old(self).wf(),
            old(self).can_commit(),
        ensures
            final(self).wf(),
            r == (old(self).session.state != SessionStateId::Waiting),
            !r ==> unchanged(*old(self), *final(self)),
            r ==> {
                &&& final(self).session.state == SessionStateId::Waiting
                &&& final(self).session.version_spec() == old(self).session.version_spec() + 1
                &&& is_reset(final(self).session)
                &&& emitted(
                    *old(self),
                    *final(self),
                    Event::StateChanged {
                        state: SessionStateId::Waiting,
                        version: (old(self).session.version_spec() + 1) as u64,
                    },
                )
            },
    {
        let changed = self.reset_to_waiting_quietly();
        if changed {
            let state = self.session.state;
            let version = self.session.version();
            self.emit(Event::StateChanged { state, version });
        }
        changed
    }

    /// As `reset_to_waiting`, without announcing it.
    pub fn reset_to_waiting_quietly(&mut self) -> (r: bool)
        requires
            old(self).wf(),
            old(self).can_commit(),
        ensures
            final(self).wf(),
            r == (old(self).session.state != SessionStateId::Waiting),
            !r ==> unchanged(*old(self), *final(self)),
            r ==> {
                &&& final(self).session.version_spec() == old(self).session.version_spec() + 1
                &&& is_reset(final(self).session)
                &&& final(self).events == old(self).events
                &&& final(self).sequences == old(self).sequences
                &&& final(self).numbers == old(self).numbers
                &&& final(self).count == old(self).count
                &&& final(self).last_taken == old(self).last_taken
                &&& final(self).dropped == old(self).dropped
                &&& final(self).next_seq == old(self).next_seq
                &&& final(self).shutdown == old(self).shutdown
                &&& final(self).config == old(self).config
                &&& final(self).scaffolding_port == old(self).scaffolding_port
            },
    {
        if self.session.state == SessionStateId::Waiting {
            return false;
        }
        self.session.reset_to_waiting();
        true
    }
}

/// `b` is `a` after the session entered `Exception` with `err`: the
/// other fields stay (the profiles aside), the plain commit is announced.
pub open spec fn excepted<E, S>(a: Emitter<E, S>, b: Emitter<E, S>, err: SessionError) -> bool {
    &&& b.session.state == SessionStateId::Exception
    &&& b.session.error == Some(err)
    &&& b.session.room == a.session.room
    &&& b.session.port == a.session.port
    &&& b.session.easytier == a.session.easytier
    &&& b.session.server == a.session.server
    &&& b.session.difficulty == a.session.difficulty
    &&& b.session.host_ip == a.session.host_ip
    &&& b.session.version_spec() == a.session.version_spec() + 1
    &&& b.session.shared_spec() == 0
    &&& emitted(
        a,
        b,
        Event::StateChanged {
            state: SessionStateId::Exception,
            version: (a.session.version_spec() + 1) as u64,
        },
    )
}

/// Emits each event in turn.
pub fn emit_all<E, S>(emitter: &mut Emitter<E, S>, events: Vec<Event>)
    requires
        old(emitter).wf(),
    ensures
        final(emitter).wf(),
        emitted_views(*old(emitter), *final(emitter), events_view(events@)),
        final(emitter).session == old(emitter).session,
{
    let ghost a = *emitter;
    let ghost all = events@;
    proof {
        lemma_emitted_none(a, a);
        assert(events_view(all.take(0)) =~= Seq::<EventV>::empty());
        assert(all.skip(0) =~= all);
    }
    let n = events.len();
    let mut rest = events;
    let mut i: usize = 0;
    while rest.len() > 0
        invariant
            all.len() == n,
            emitter.wf(),
            emitter.session == a.session,
            0 <= i <= all.len(),
            rest@ == all.skip(i as int),
            i + rest@.len() == all.len(),
            emitted_views(a, *emitter, events_view(all.take(i as int))),
        decreases rest.len(),
    {
        let e = rest.remove(0);
        let ghost m = *emitter;
        emitter.emit(e);
        proof {
            lemma_emitted_push(a, m, *emitter, events_view(all.take(i as int)), e);
            assert(events_view(all.take(i + 1)) =~= events_view(all.take(i as int)).push(e@));
            assert(rest@ =~= all.skip(i + 1));
        }
        i += 1;
    }
    assert(all.take(i as int) =~= all);
}

/// The session holds nothing and no earlier token captures it.
pub open spec fn is_reset<E, S>(s: Session<E, S>) -> bool {
    &&& s.state == SessionStateId::Waiting
    &&& s.shared_spec() == 0
    &&& s.room is None
    &&& s.profiles@.len() == 0
    &&& s.easytier is None
    &&& s.server is None
    &&& s.port is None
    &&& s.host_ip is None
    &&& s.difficulty is None
    &&& s.error is None
}

/// What `Debug` for `Option<String>` writes (`None`, or `Some("…")` with the
/// text escaped).
pub uninterp spec fn option_debug_text(v: Option<Seq<char>>) -> Seq<char>;

pub open spec fn option_text_view(v: Option<String>) -> Option<Seq<char>> {
    match v {
        Some(s) => Some(s@),
        None => None,
    }
}

/// The `Debug` text of an optional string (std's `Debug` for `Option<String>`).
#[verifier::external_body]
fn option_debug(v: &Option<String>) -> (r: String)
    ensures
        r@ == option_debug_text(option_text_view(*v)),
{
    format!("{:?}", v)
}

pub open spec fn invalid_room_prefix() -> Seq<char> {
    "invalid room code: "@
}

pub open spec fn busy_message() -> Seq<char> {
    "a session is already active"@
}

/// What a flow needs to start: its token, the room and the request.
pub struct FlowStart {
    pub token: u64,
    pub room: Room,
    pub player_name: Option<String>,
    pub public_nodes: Vec<String>,
    pub config: ContextConfig,
}

/// What the runtime does after a command.
pub enum CommandOutcome {
    /// Wait for the next command.
    Continue,
    /// Stop the runtime.
    Stop,
    /// Run the host flow.
    RunHost(FlowStart),
    /// Run the guest flow.
    RunGuest(FlowStart),
    /// The random source failed while a room was being made; the runtime
    /// stops with that error.
    RandomSourceFailed,
}

/// The session entered `state` for a new flow: it holds `room`, no port,
/// and the plain commit gave `token`, announced by a state event.
pub open spec fn flow_started<E, S>(
    a: Emitter<E, S>,
    b: Emitter<E, S>,
    f: FlowStart,
    state: SessionStateId,
) -> bool {
    &&& f.token == a.session.version_spec() + 1
    &&& b.session.version_spec() == f.token
    &&& b.session.shared_spec() == 0
    &&& b.session.state == state
    &&& b.session.room == Some(f.room)
    &&& b.session.port is None
    &&& b.session.error == a.session.error
    &&& b.session.profiles == a.session.profiles
    &&& b.session.easytier == a.session.easytier
    &&& b.session.server == a.session.server
    &&& b.session.difficulty == a.session.difficulty
    &&& b.session.host_ip == a.session.host_ip
    &&& f.config@ == a.config@
    &&& emitted(a, b, Event::StateChanged { state, version: f.token })
}

/// The session is left as it was, with or without an event.
pub open spec fn session_kept<E, S>(a: Emitter<E, S>, b: Emitter<E, S>) -> bool {
    &&& same_content(a.session, b.session)
    &&& b.session.version_spec() == a.session.version_spec()
    &&& b.session.shared_spec() == a.session.shared_spec()
}

/// Handles one command: checks it against the session, takes the session
/// for a new flow where it may, and says what the runtime does next.
pub fn handle_command<E, S>(emitter: &mut Emitter<E, S>, command: Command) -> (r: CommandOutcome)
    requires
        old(emitter).wf(),
        old(emitter).can_commit(),
    ensures
        final(emitter).wf(),
        match command {
            Command::Shutdown => r is Stop && unchanged(*old(emitter), *final(emitter)),
            Command::SetWaiting => {
                &&& r is Continue
                &&& old(emitter).session.state == SessionStateId::Waiting ==> unchanged(
                    *old(emitter),
                    *final(emitter),
                )
                &&& old(emitter).session.state != SessionStateId::Waiting ==> {
                    &&& is_reset(final(emitter).session)
                    &&& final(emitter).session.version_spec() == old(
                        emitter,
                    ).session.version_spec() + 1
                    &&& emitted(
                        *old(emitter),
                        *final(emitter),
                        Event::StateChanged {
                            state: SessionStateId::Waiting,
                            version: (old(emitter).session.version_spec() + 1) as u64,
                        },
                    )
                }
            },
            Command::CreateRoom { player_name, room_code, public_nodes } => {
                &&& r is RandomSourceFailed ==> unchanged(*old(emitter), *final(emitter))
                &&& r !is RandomSourceFailed ==> match room_code {
                    Some(code) if parse_value(code@) is None => {
                        &&& r is Continue
                        &&& session_kept(*old(emitter), *final(emitter))
                        &&& emitted_views(
                            *old(emitter),
                            *final(emitter),
                            seq![EventV::Error {
                                code: 1,
                                message: invalid_room_prefix() + option_debug_text(Some(code@)),
                            }],
                        )
                    },
                    _ => if old(emitter).session.state != SessionStateId::Waiting {
                        &&& r is Continue
                        &&& session_kept(*old(emitter), *final(emitter))
                        &&& emitted_views(
                            *old(emitter),
                            *final(emitter),
                            seq![EventV::Error { code: 2, message: busy_message() }],
                        )
                    } else {
                        &&& r matches CommandOutcome::RunHost(f) && {
                            &&& flow_started(
                                *old(emitter),
                                *final(emitter),
                                f,
                                SessionStateId::HostScanning,
                            )
                            &&& f.player_name == player_name
                            &&& f.public_nodes == public_nodes
                            &&& match room_code {
                                Some(code) => f.room.is_room_of(parse_value(code@)->0),
                                None => exists|v: nat| valid_room_value(v) && f.room.is_room_of(v),
                            }
                        }
                    },
                }
            },
            Command::JoinRoom { room_code, player_name, public_nodes } => {
                if parse_value(room_code@) is None {
                    &&& r is Continue
                    &&& session_kept(*old(emitter), *final(emitter))
                    &&& emitted_views(
                        *old(emitter),
                        *final(emitter),
                        seq![EventV::Error { code: 1, message: invalid_room_prefix() + room_code@ }],
                    )
                } else if old(emitter).session.state != SessionStateId::Waiting {
                    &&& r is Continue
                    &&& session_kept(*old(emitter), *final(emitter))
                    &&& emitted_views(
                            *old(emitter),
                            *final(emitter),
                            seq![EventV::Error { code: 2, message: busy_message() }],
                        )
                } else {
                    &&& r matches CommandOutcome::RunGuest(f) && {
                        &&& flow_started(
                            *old(emitter),
                            *final(emitter),
                            f,
                            SessionStateId::GuestConnecting,
                        )
                        &&& f.player_name == player_name
                        &&& f.public_nodes == public_nodes
                        &&& f.room.is_room_of(parse_value(room_code@)->0)
                    }
                }
            },
        },
{
    match command {
        Command::Shutdown => CommandOutcome::Stop,
        Command::SetWaiting => {
            emitter.reset_to_waiting();
            CommandOutcome::Continue
        },
        Command::CreateRoom { player_name, room_code, public_nodes } => {
            let created = Room::create();
            create_room_outcome(emitter, created, player_name, room_code, public_nodes)
        },
        Command::JoinRoom { room_code, player_name, public_nodes } => {
            let room = match Room::parse(room_code.as_str()) {
                Some(room) => room,
                None => {
                    let mut message: Vec<char> = Vec::new();
                    push_text(&mut message, "invalid room code: ");
                    push_text(&mut message, room_code.as_str());
                    assert(message@ =~= invalid_room_prefix() + room_code@);
                    let event = Event::Error {
                        code: crate::ErrorCode::InvalidRoomCode.code(),
                        message: string_of(&message),
                    };
                    let ghost before = *emitter;
                    emitter.emit(event);
                    proof {
                        lemma_emitted_one(before, *emitter, event);
                    }
                    return CommandOutcome::Continue;
                },
            };
            if emitter.session.state != SessionStateId::Waiting {
                let event = Event::Error {
                    code: crate::ErrorCode::Busy.code(),
                    message: owned("a session is already active"),
                };
                let ghost before = *emitter;
                emitter.emit(event);
                proof {
                    lemma_emitted_one(before, *emitter, event);
                }
                return CommandOutcome::Continue;
            }
            let token = begin_flow(emitter, &room, SessionStateId::GuestConnecting);
            CommandOutcome::RunGuest(
                FlowStart { token, room, player_name, public_nodes, config: emitter.config() },
            )
        },
    }
}

/// Finishes a room creation once the random source has answered: `created`
/// is the fresh room it gave, `None` where it failed. A given code is used in
/// place of the fresh room; an invalid code and a busy session are refused
/// with an error event; otherwise the session enters `HostScanning` for the
/// host flow.
pub fn create_room_outcome<E, S>(
    emitter: &mut Emitter<E, S>,
    created: Option<Room>,
    player_name: Option<String>,
    room_code: Option<String>,
    public_nodes: Vec<String>,
) -> (r: CommandOutcome)
    requires
        old(emitter).wf(),
        old(emitter).can_commit(),
    ensures
        final(emitter).wf(),
        created is None <==> r is RandomSourceFailed,
        created is None ==> unchanged(*old(emitter), *final(emitter)),
        created is Some ==> match room_code {
            Some(code) if parse_value(code@) is None => {
                &&& r is Continue
                &&& session_kept(*old(emitter), *final(emitter))
                &&& emitted_views(
                    *old(emitter),
                    *final(emitter),
                    seq![EventV::Error {
                        code: 1,
                        message: invalid_room_prefix() + option_debug_text(Some(code@)),
                    }],
                )
            },
            _ => if old(emitter).session.state != SessionStateId::Waiting {
                &&& r is Continue
                &&& session_kept(*old(emitter), *final(emitter))
                &&& emitted_views(
                    *old(emitter),
                    *final(emitter),
                    seq![EventV::Error { code: 2, message: busy_message() }],
                )
            } else {
                &&& r matches CommandOutcome::RunHost(f) && {
                    &&& flow_started(*old(emitter), *final(emitter), f, SessionStateId::HostScanning)
                    &&& f.player_name == player_name
                    &&& f.public_nodes == public_nodes
                    &&& match room_code {
                        Some(code) => f.room.is_room_of(parse_value(code@)->0),
                        None => f.room == created->0,
                    }
                }
            },
        },
{
    let created = match created {
        Some(room) => room,
        None => {
            return CommandOutcome::RandomSourceFailed;
        },
    };
    let room = match &room_code {
        Some(code) => Room::parse(code.as_str()),
        None => Some(created),
    };
    let room = match room {
        Some(room) => room,
        None => {
            let mut message: Vec<char> = Vec::new();
            push_text(&mut message, "invalid room code: ");
            let debug = option_debug(&room_code);
            push_text(&mut message, debug.as_str());
            assert(message@ =~= invalid_room_prefix() + debug@);
            let event = Event::Error {
                code: crate::ErrorCode::InvalidRoomCode.code(),
                message: string_of(&message),
            };
            let ghost before = *emitter;
            emitter.emit(event);
            proof {
                lemma_emitted_one(before, *emitter, event);
            }
            return CommandOutcome::Continue;
        },
    };
    if emitter.session.state != SessionStateId::Waiting {
        let event = Event::Error {
            code: crate::ErrorCode::Busy.code(),
            message: owned("a session is already active"),
        };
        let ghost before = *emitter;
        emitter.emit(event);
        proof {
            lemma_emitted_one(before, *emitter, event);
        }
        return CommandOutcome::Continue;
    }
    let token = begin_flow(emitter, &room, SessionStateId::HostScanning);
    CommandOutcome::RunHost(
        FlowStart { token, room, player_name, public_nodes, config: emitter.config() },
    )
}

/// Takes a waiting session for a new flow: stores the room, clears the port,
/// enters `state`, commits and announces it; gives the new token.
fn begin_flow<E, S>(emitter: &mut Emitter<E, S>, room: &Room, state: SessionStateId) -> (token: u64)
    requires
        old(emitter).wf(),
        old(emitter).can_commit(),
    ensures
        final(emitter).wf(),
        token == old(emitter).session.version_spec() + 1,
        final(emitter).session.version_spec() == token,
        final(emitter).session.shared_spec() == 0,
        final(emitter).session.state == state,
        final(emitter).session.room == Some(*room),
        final(emitter).session.port is None,
        final(emitter).session.error == old(emitter).session.error,
        final(emitter).session.profiles == old(emitter).session.profiles,
        final(emitter).session.easytier == old(emitter).session.easytier,
        final(emitter).session.server == old(emitter).session.server,
        final(emitter).session.difficulty == old(emitter).session.difficulty,
        final(emitter).session.host_ip == old(emitter).session.host_ip,
        emitted(*old(emitter), *final(emitter), Event::StateChanged { state, version: token }),
{
    emitter.session.room = Some(room.duplicate());
    emitter.session.port = None;
    emitter.session.state = state;
    let token = emitter.session.commit();
    emitter.emit(Event::StateChanged { state, version: token });
    token
}

} // verus!
