//! What a scan of the LAN for game servers keeps: the ports that were
//! announced lately, each with the time it was last heard of.
use vstd::prelude::*;
use crate::json::{lossy_text, utf8_lossy};
use crate::text::{chars_of, decimal, parse_u16, push_decimal, push_text, same_text, string_of, u16_from_text};

verus! {

/// How long an announced port is kept without being heard of again, in
/// milliseconds.
pub const PORT_TIMEOUT_MS: u64 = 5000;

/// `pat` occurs in `s` at `i`.
pub open spec fn occurs(s: Seq<char>, pat: Seq<char>, i: int) -> bool {
    &&& 0 <= i && i + pat.len() <= s.len()
    &&& s.subrange(i, i + pat.len()) == pat
}

/// `i` is where `pat` first occurs in `s`.
pub open spec fn first_occurrence(s: Seq<char>, pat: Seq<char>, i: int) -> bool {
    &&& occurs(s, pat, i)
    &&& forall|j: int| 0 <= j < i ==> !#[trigger] occurs(s, pat, j)
}

/// Where `pat` first occurs in `s` (`str::find`).
pub open spec fn find_text(s: Seq<char>, pat: Seq<char>) -> Option<int> {
    if exists|i: int| first_occurrence(s, pat, i) {
        Some(choose|i: int| first_occurrence(s, pat, i))
    } else {
        None
    }
}

/// The text between the first `open` and the first `close` after it, if
/// that text is not empty.
pub open spec fn between(s: Seq<char>, open: Seq<char>, close: Seq<char>) -> Option<Seq<char>> {
    match (find_text(s, open), find_text(s, close)) {
        (Some(b), Some(e)) => if e > b + open.len() {
            Some(s.subrange(b + open.len(), e))
        } else {
            None
        },
        _ => None,
    }
}

/// The message of the day an announcement carries.
pub open spec fn motd_of(data: Seq<char>) -> Option<Seq<char>> {
    between(data, "[MOTD]"@, "[/MOTD]"@)
}

/// The port an announcement carries.
pub open spec fn port_of(data: Seq<char>) -> Option<u16> {
    match between(data, "[AD]"@, "[/AD]"@) {
        Some(t) => u16_from_text(t),
        None => None,
    }
}

/// The ports of the entries, in order.
pub open spec fn entry_ports(entries: Seq<(u16, u64)>) -> Seq<u16> {
    entries.map_values(|e: (u16, u64)| e.0)
}

/// No port is listed twice.
pub open spec fn distinct_ports(entries: Seq<(u16, u64)>) -> bool {
    forall|i: int, j: int| 0 <= i < j < entries.len() ==> #[trigger] entries[i].0 != #[trigger] entries[j].0
}

/// The entries after `port` was heard of at `now`: its old entry goes,
/// and it comes last.
pub open spec fn heard(entries: Seq<(u16, u64)>, port: u16, now: u64) -> Seq<(u16, u64)> {
    if exists|i: int| 0 <= i < entries.len() && entries[i].0 == port {
        let i = choose|i: int| 0 <= i < entries.len() && entries[i].0 == port;
        entries.remove(i).push((port, now))
    } else {
        entries.push((port, now))
    }
}

/// An entry heard of at `t` has timed out at `now`.
pub open spec fn timed_out(t: u64, now: u64) -> bool {
    now >= t && now - t >= PORT_TIMEOUT_MS
}

/// The entries that have not timed out, in order.
pub open spec fn live_entries(entries: Seq<(u16, u64)>, now: u64) -> Seq<(u16, u64)>
    decreases entries.len(),
{
    if entries.len() == 0 {
        entries
    } else {
        let rest = live_entries(entries.drop_last(), now);
        if timed_out(entries.last().1, now) {
            rest
        } else {
            rest.push(entries.last())
        }
    }
}

/// What a scan meets: a pass of the clock at `now`, or a datagram received
/// at `now` together with what the filter answered for its message of the
/// day.
pub enum ScanEvent {
    Tick(u64),
    Packet(Seq<u8>, u64, bool),
}

/// The port an event announces: a datagram with a message of the day that
/// the filter accepted, and a port.
pub open spec fn announced_port(ev: ScanEvent) -> Option<u16> {
    match ev {
        ScanEvent::Packet(p, _, accepted) => {
            let data = utf8_lossy(p);
            match (motd_of(data), port_of(data)) {
                (Some(m), Some(port)) => if accepted {
                    Some(port)
                } else {
                    None
                },
                _ => None,
            }
        },
        ScanEvent::Tick(_) => None,
    }
}

/// The filter `f` answered `accepted` when it was asked about `motd`.
pub open spec fn filter_gave<F: Fn(&str) -> bool>(f: F, motd: Seq<char>, accepted: bool) -> bool {
    exists|s: &str| s@ == motd && #[trigger] call_ensures(f, (s,), accepted)
}

/// The entries after one event: a pass drops what timed out, an accepted
/// announcement is heard, anything else changes nothing.
pub open spec fn scan_step(entries: Seq<(u16, u64)>, ev: ScanEvent) -> Seq<
    (u16, u64),
> {
    match ev {
        ScanEvent::Tick(now) => live_entries(entries, now),
        ScanEvent::Packet(_, now, _) => match announced_port(ev) {
            Some(port) => heard(entries, port, now),
            None => entries,
        },
    }
}

/// The entries after a run of events from a fresh scan.
pub open spec fn scan_run(evs: Seq<ScanEvent>) -> Seq<(u16, u64)>
    decreases evs.len(),
{
    if evs.len() == 0 {
        Seq::empty()
    } else {
        scan_step(scan_run(evs.drop_last()), evs.last())
    }
}

/// Some event of `evs` announced `port`.
pub open spec fn was_announced(evs: Seq<ScanEvent>, port: u16) -> bool {
    exists|j: int| 0 <= j < evs.len() && announced_port(#[trigger] evs[j]) == Some(port)
}

/// The entries left at `now` come from `entries`, none has timed out, and
/// distinct ports stay distinct.
proof fn lemma_live_entries(entries: Seq<(u16, u64)>, now: u64)
    ensures
        forall|k: int|
            0 <= k < live_entries(entries, now).len() ==> entries.contains(
                #[trigger] live_entries(entries, now)[k],
            ) && !timed_out(live_entries(entries, now)[k].1, now),
        distinct_ports(entries) ==> distinct_ports(live_entries(entries, now)),
    decreases entries.len(),
{
    if entries.len() > 0 {
        let init = entries.drop_last();
        let rest = live_entries(init, now);
        lemma_live_entries(init, now);
        let live = live_entries(entries, now);
        assert forall|k: int| 0 <= k < live.len() implies entries.contains(#[trigger] live[k])
            && !timed_out(live[k].1, now) by {
            if k < rest.len() {
                assert(live[k] == rest[k]);
                let w = choose|w: int| 0 <= w < init.len() && init[w] == rest[k];
                assert(entries[w] == rest[k]);
            } else {
                assert(live[k] == entries.last());
                assert(entries[entries.len() - 1] == entries.last());
            }
        }
        if distinct_ports(entries) {
            assert(distinct_ports(init)) by {
                assert forall|a: int, b: int| 0 <= a < b < init.len() implies #[trigger] init[a].0
                    != #[trigger] init[b].0 by {
                    assert(init[a] == entries[a] && init[b] == entries[b]);
                }
            }
            assert forall|a: int, b: int| 0 <= a < b < live.len() implies #[trigger] live[a].0
                != #[trigger] live[b].0 by {
                if b < rest.len() {
                    assert(live[a] == rest[a] && live[b] == rest[b]);
                } else {
                    assert(live[a] == rest[a]);
                    assert(live[b] == entries.last());
                    let w = choose|w: int| 0 <= w < init.len() && init[w] == rest[a];
                    assert(entries[w] == rest[a]);
                    assert(entries[entries.len() - 1] == entries.last());
                }
            }
        }
    }
}

/// Hearing `port` keeps ports distinct, and every entry afterwards is the
/// port just heard or one that was there before.
proof fn lemma_heard(entries: Seq<(u16, u64)>, port: u16, now: u64)
    requires
        distinct_ports(entries),
    ensures
        distinct_ports(heard(entries, port, now)),
        heard(entries, port, now).last() == (port, now),
        forall|k: int|
            0 <= k < heard(entries, port, now).len() ==> (#[trigger] heard(entries, port, now)[k]).0
                == port || entries.contains(heard(entries, port, now)[k]),
{
    let h = heard(entries, port, now);
    if exists|i: int| 0 <= i < entries.len() && entries[i].0 == port {
        let i = choose|i: int| 0 <= i < entries.len() && entries[i].0 == port;
        let r = entries.remove(i);
        assert(h == r.push((port, now)));
        assert forall|k: int| 0 <= k < r.len() implies #[trigger] r[k] == entries[if k < i {
            k
        } else {
            k + 1
        }] by {}
        assert forall|k: int| 0 <= k < h.len() implies (#[trigger] h[k]).0 == port
            || entries.contains(h[k]) by {
            if k < r.len() {
                let w = if k < i {
                    k
                } else {
                    k + 1
                };
                assert(r[k] == entries[w]);
            }
        }
        assert forall|a: int, b: int| 0 <= a < b < h.len() implies #[trigger] h[a].0
            != #[trigger] h[b].0 by {
            let wa = if a < i {
                a
            } else {
                a + 1
            };
            assert(h[a] == entries[wa]);
            if b < r.len() {
                let wb = if b < i {
                    b
                } else {
                    b + 1
                };
                assert(h[b] == entries[wb]);
            } else {
                assert(wa != i);
            }
        }
    } else {
        assert(h == entries.push((port, now)));
        assert forall|k: int| 0 <= k < h.len() implies (#[trigger] h[k]).0 == port
            || entries.contains(h[k]) by {
            if k < entries.len() {
                assert(h[k] == entries[k]);
            }
        }
        assert forall|a: int, b: int| 0 <= a < b < h.len() implies #[trigger] h[a].0
            != #[trigger] h[b].0 by {
            assert(h[a] == entries[a]);
            if b < entries.len() {
                assert(h[b] == entries[b]);
            }
        }
    }
}

/// Whatever the events of a scan, no port is listed twice; every listed
/// port was announced by an accepted datagram of the run; and right after
/// a pass of the clock at `now`, no listed port has gone unheard for the
/// timeout.
pub proof fn lemma_scan_run(evs: Seq<ScanEvent>)
    ensures
        distinct_ports(scan_run(evs)),
        forall|k: int|
            0 <= k < scan_run(evs).len() ==> was_announced(
                evs,
                (#[trigger] scan_run(evs)[k]).0,
            ),
        evs.len() > 0 ==> (evs.last() matches ScanEvent::Tick(now) ==> forall|k: int|
            0 <= k < scan_run(evs).len() ==> !timed_out(
                (#[trigger] scan_run(evs)[k]).1,
                now,
            )),
    decreases evs.len(),
{
    if evs.len() > 0 {
        let init = evs.drop_last();
        let prev = scan_run(init);
        let run = scan_run(evs);
        lemma_scan_run(init);
        assert forall|q: u16| was_announced(init, q) implies was_announced(evs, q) by {
            let j = choose|j: int| 0 <= j < init.len() && announced_port(#[trigger] init[j])
                == Some(q);
            assert(evs[j] == init[j]);
        }
        assert(evs[evs.len() - 1] == evs.last());
        match evs.last() {
            ScanEvent::Tick(now) => {
                lemma_live_entries(prev, now);
                assert forall|k: int| 0 <= k < run.len() implies was_announced(
                    evs,
                    (#[trigger] run[k]).0,
                ) by {
                    let w = choose|w: int| 0 <= w < prev.len() && prev[w] == run[k];
                    assert(was_announced(init, prev[w].0));
                }
            },
            ScanEvent::Packet(_, now, _) => {
                match announced_port(evs.last()) {
                    Some(port) => {
                        lemma_heard(prev, port, now);
                        assert forall|k: int| 0 <= k < run.len() implies was_announced(
                            evs,
                            (#[trigger] run[k]).0,
                        ) by {
                            if run[k].0 != port {
                                let w = choose|w: int| 0 <= w < prev.len() && prev[w] == run[k];
                                assert(was_announced(init, prev[w].0));
                            }
                        }
                    },
                    None => {
                        assert forall|k: int| 0 <= k < run.len() implies was_announced(
                            evs,
                            (#[trigger] run[k]).0,
                        ) by {
                            assert(was_announced(init, prev[k].0));
                        }
                    },
                }
            },
        }
    }
}

/// A list published from entries with distinct ports names no port twice.
pub proof fn lemma_published_distinct(entries: Seq<(u16, u64)>)
    requires
        distinct_ports(entries),
    ensures
        forall|a: int, b: int|
            0 <= a < b < entry_ports(entries).len() ==> #[trigger] entry_ports(entries)[a]
                != #[trigger] entry_ports(entries)[b],
{
    assert forall|a: int, b: int| 0 <= a < b < entry_ports(entries).len() implies #[trigger] entry_ports(
        entries,
    )[a] != #[trigger] entry_ports(entries)[b] by {
        assert(entries[a].0 != entries[b].0);
    }
}

/// The ports announced on the LAN lately, and the list last published.
pub struct MinecraftScanner {
    pub entries: Vec<(u16, u64)>,
    pub ports: Vec<u16>,
}

impl MinecraftScanner {
    /// No port is listed twice.
    pub open spec fn wf(&self) -> bool {
        distinct_ports(self.entries@)
    }

    /// A scan that has heard of nothing yet.
    pub fn new() -> (r: MinecraftScanner)
        ensures
            r.wf(),
            r.entries@.len() == 0,
            r.ports@.len() == 0,
    {
        MinecraftScanner { entries: Vec::new(), ports: Vec::new() }
    }

    /// The ports last published, oldest heard of first.
    pub fn get_ports(&self) -> (r: Vec<u16>)
        ensures
            r@ == self.ports@,
    {
        let mut out: Vec<u16> = Vec::new();
        let mut i: usize = 0;
        while i < self.ports.len()
            invariant
                0 <= i <= self.ports.len(),
                out@ == self.ports@.take(i as int),
            decreases self.ports.len() - i,
        {
            out.push(self.ports[i]);
            i += 1;
            assert(out@ =~= self.ports@.take(i as int));
        }
        assert(self.ports@.take(i as int) =~= self.ports@);
        out
    }

    /// Drops the entries that timed out at `now`; says whether any did.
    pub fn expire(&mut self, now: u64) -> (dirty: bool)
        requires
            old(self).wf(),
        ensures
            final(self).wf(),
            final(self).entries@ == live_entries(old(self).entries@, now),
            final(self).entries@ == scan_step(old(self).entries@, ScanEvent::Tick(now)),
            dirty == (final(self).entries@.len() != old(self).entries@.len()),
            final(self).ports == old(self).ports,
    {
        let ghost old_entries = self.entries@;
        let mut kept: Vec<(u16, u64)> = Vec::new();
        let mut i: usize = 0;
        while i < self.entries.len()
            invariant
                self.entries@ == old_entries,
                distinct_ports(old_entries),
                0 <= i <= self.entries.len(),
                kept@ == live_entries(old_entries.take(i as int), now),
                kept@.len() <= i,
                forall|k: int| 0 <= k < kept@.len() ==> old_entries.take(i as int).contains(
                    #[trigger] kept@[k],
                ),
                distinct_ports(kept@),
            decreases self.entries.len() - i,
        {
            let e = self.entries[i];
            proof {
                assert(old_entries.take(i + 1).drop_last() =~= old_entries.take(i as int));
                assert(old_entries.take(i + 1).last() == e);
            }
            if !(now >= e.1 && now - e.1 >= PORT_TIMEOUT_MS) {
                proof {
                    assert forall|k: int| 0 <= k < kept@.len() implies kept@[k].0 != e.0 by {
                        let w = choose|w: int| 0 <= w < i && old_entries.take(i as int)[w]
                            == kept@[k];
                        assert(old_entries[w] == kept@[k]);
                    }
                }
                kept.push(e);
                proof {
                    assert forall|k: int| 0 <= k < kept@.len() implies old_entries.take(
                        i + 1,
                    ).contains(#[trigger] kept@[k]) by {
                        if k < kept@.len() - 1 {
                            let w = choose|w: int| 0 <= w < i && old_entries.take(i as int)[w]
                                == kept@[k];
                            assert(old_entries.take(i + 1)[w] == kept@[k]);
                        } else {
                            assert(old_entries.take(i + 1)[i as int] == kept@[k]);
                        }
                    }
                }
            } else {
                proof {
                    assert forall|k: int| 0 <= k < kept@.len() implies old_entries.take(
                        i + 1,
                    ).contains(#[trigger] kept@[k]) by {
                        let w = choose|w: int| 0 <= w < i && old_entries.take(i as int)[w]
                            == kept@[k];
                        assert(old_entries.take(i + 1)[w] == kept@[k]);
                    }
                }
            }
            i += 1;
        }
        assert(old_entries.take(i as int) =~= old_entries);
        let dirty = kept.len() != self.entries.len();
        self.entries = kept;
        dirty
    }

    /// Publishes the ports of the entries.
    pub fn publish(&mut self)
        ensures
            final(self).ports@ == entry_ports(old(self).entries@),
            final(self).entries == old(self).entries,
    {
        let mut out: Vec<u16> = Vec::new();
        let mut i: usize = 0;
        while i < self.entries.len()
            invariant
                0 <= i <= self.entries.len(),
                out@ == entry_ports(self.entries@.take(i as int)),
            decreases self.entries.len() - i,
        {
            out.push(self.entries[i].0);
            i += 1;
            assert(out@ =~= entry_ports(self.entries@.take(i as int)));
        }
        assert(self.entries@.take(i as int) =~= self.entries@);
        self.ports = out;
    }

    /// Records that `port` was heard of at `now`; says whether it is new.
    fn hear(&mut self, port: u16, now: u64) -> (new: bool)
        requires
            old(self).wf(),
        ensures
            final(self).wf(),
            final(self).entries@ == heard(old(self).entries@, port, now),
            new == !(exists|i: int|
                0 <= i < old(self).entries@.len() && old(self).entries@[i].0 == port),
            final(self).ports == old(self).ports,
    {
        let ghost es = self.entries@;
        let mut i: usize = 0;
        while i < self.entries.len()
            invariant
                self.entries@ == es,
                es == old(self).entries@,
                distinct_ports(es),
                self.ports == old(self).ports,
                0 <= i <= self.entries.len(),
                forall|k: int| 0 <= k < i ==> es[k].0 != port,
            decreases self.entries.len() - i,
        {
            if self.entries[i].0 == port {
                assert(0 <= i < es.len() && es[i as int].0 == port);
                self.entries.remove(i);
                self.entries.push((port, now));
                proof {
                    let c = choose|c: int| 0 <= c < es.len() && es[c].0 == port;
                    if c != i {
                        assert(es[c].0 == es[i as int].0);
                    }
                    let ns = self.entries@;
                    assert forall|a: int, b: int| 0 <= a < b < ns.len() implies #[trigger] ns[a].0
                        != #[trigger] ns[b].0 by {
                        if b == ns.len() - 1 {
                            if a < i {
                                assert(ns[a] == es[a]);
                            } else {
                                assert(ns[a] == es[a + 1]);
                            }
                        } else if a < i && b < i {
                            assert(ns[a] == es[a] && ns[b] == es[b]);
                        } else if a < i {
                            assert(ns[a] == es[a] && ns[b] == es[b + 1]);
                        } else {
                            assert(ns[a] == es[a + 1] && ns[b] == es[b + 1]);
                        }
                    }
                }
                return false;
            }
            i += 1;
        }
        self.entries.push((port, now));
        proof {
            let ns = self.entries@;
            assert forall|a: int, b: int| 0 <= a < b < ns.len() implies #[trigger] ns[a].0
                != #[trigger] ns[b].0 by {
                if b == ns.len() - 1 {
                    assert(ns[a] == es[a]);
                } else {
                    assert(ns[a] == es[a] && ns[b] == es[b]);
                }
            }
        }
        true
    }

    /// Takes an announcement received at `now`. Where it has a message of
    /// the day, `filter` is asked about exactly that message; one that the
    /// filter accepts and that carries a port is taken (`Some`, saying
    /// whether the port is new), any other is passed over (`None`).
    pub fn offer<F: Fn(&str) -> bool>(&mut self, filter: &F, packet: &[u8], now: u64) -> (r: Option<
        bool,
    >)
        requires
            old(self).wf(),
            forall|s: &str| #[trigger] call_requires(*filter, (s,)),
        ensures
            final(self).wf(),
            final(self).ports == old(self).ports,
            final(self).entries@ == scan_step(
                old(self).entries@,
                ScanEvent::Packet(packet@, now, r is Some),
            ),
            ({
                let data = utf8_lossy(packet@);
                match (motd_of(data), port_of(data)) {
                    (Some(m), Some(p)) => {
                        &&& r is Some ==> {
                            &&& filter_gave(*filter, m, true)
                            &&& final(self).entries@ == heard(old(self).entries@, p, now)
                            &&& r == Some(
                                !(exists|i: int|
                                    0 <= i < old(self).entries@.len() && old(self).entries@[i].0
                                        == p),
                            )
                        }
                        &&& r is None ==> filter_gave(*filter, m, false) && final(self).entries
                            == old(self).entries
                    },
                    _ => r is None && final(self).entries == old(self).entries,
                }
            }),
    {
        let text = lossy_text(packet);
        let data = chars_of(text.as_str());
        let motd = match text_between(&data, "[MOTD]", "[/MOTD]") {
            Some(m) => m,
            None => {
                return None;
            },
        };
        let asked: &str = motd.as_str();
        let accepted = filter(asked);
        assert(asked@ == motd@ && call_ensures(*filter, (asked,), accepted));
        if !accepted {
            return None;
        }
        let port = match text_between(&data, "[AD]", "[/AD]") {
            Some(t) => match parse_u16(t.as_str()) {
                Some(p) => p,
                None => {
                    return None;
                },
            },
            None => {
                return None;
            },
        };
        Some(self.hear(port, now))
    }
}

/// The text a game server's LAN announcement carries.
pub open spec fn announcement_text(motd: Seq<char>, port: u16) -> Seq<char> {
    "[MOTD]"@ + motd + "[/MOTD][AD]"@ + decimal(port as nat) + "[/AD]"@
}

/// The text of a LAN announcement of the game at `port`.
pub fn announcement(motd: &str, port: u16) -> (r: String)
    ensures
        r@ == announcement_text(motd@, port),
{
    let mut cs: Vec<char> = Vec::new();
    push_text(&mut cs, "[MOTD]");
    push_text(&mut cs, motd);
    push_text(&mut cs, "[/MOTD][AD]");
    push_decimal(&mut cs, port as u64);
    push_text(&mut cs, "[/AD]");
    assert(cs@ =~= announcement_text(motd@, port));
    string_of(&cs)
}

/// Where `pat` occurs first at `i`, `find_text` finds it there.
proof fn lemma_find_first(s: Seq<char>, pat: Seq<char>, i: int)
    requires
        first_occurrence(s, pat, i),
    ensures
        find_text(s, pat) == Some(i),
{
    let c = choose|c: int| first_occurrence(s, pat, c);
    if c < i {
        assert(!occurs(s, pat, c));
    }
    if c > i {
        assert(!occurs(s, pat, i));
    }
}

/// `pat` starts with `[` and `s` holds no `[` before `i`, where `pat`
/// occurs: it occurs there first.
proof fn lemma_first_bracket(s: Seq<char>, pat: Seq<char>, i: int, skip: Set<int>)
    requires
        occurs(s, pat, i),
        pat.len() > 0,
        pat[0] == '[',
        forall|j: int| 0 <= j < i && !skip.contains(j) ==> s[j] != '[',
        forall|j: int| #[trigger] skip.contains(j) ==> 0 <= j < i && !occurs(s, pat, j),
    ensures
        first_occurrence(s, pat, i),
{
    assert forall|j: int| 0 <= j < i implies !#[trigger] occurs(s, pat, j) by {
        if !skip.contains(j) && occurs(s, pat, j) {
            assert(s.subrange(j, j + pat.len())[0] == s[j]);
        }
    }
}

/// A scan hears what a LAN announcement carries: its message of the day
/// (where it is not empty and holds no `[`) and its port.
pub proof fn lemma_announcement_heard(motd: Seq<char>, port: u16)
    requires
        motd.len() > 0,
        !motd.contains('['),
    ensures
        motd_of(announcement_text(motd, port)) == Some(motd),
        port_of(announcement_text(motd, port)) == Some(port),
{
    reveal_strlit("[MOTD]");
    reveal_strlit("[/MOTD]");
    reveal_strlit("[/MOTD][AD]");
    reveal_strlit("[AD]");
    reveal_strlit("[/AD]");
    crate::text::lemma_decimal_digits(port as nat);
    crate::text::lemma_u16_decimal(port);
    let a: Seq<char> = "[MOTD]"@;
    let b: Seq<char> = "[/MOTD][AD]"@;
    let c: Seq<char> = "[/AD]"@;
    let d = decimal(port as nat);
    let m = motd;
    let data = announcement_text(motd, port);
    assert(data =~= a + m + b + d + c);
    let n = m.len() as int;
    let dn = d.len() as int;
    assert(forall|j: int| 0 <= j < n ==> data[6 + j] == m[j]);
    assert(forall|j: int| 0 <= j < n ==> m[j] != '[') by {
        assert forall|j: int| 0 <= j < n implies m[j] != '[' by {
            if m[j] == '[' {
                assert(m.contains('['));
            }
        }
    }
    assert(forall|j: int| 0 <= j < dn ==> data[17 + n + j] == d[j]);
    // `[MOTD]` at 0.
    assert(data.subrange(0, 6) =~= "[MOTD]"@);
    assert(first_occurrence(data, "[MOTD]"@, 0));
    lemma_find_first(data, "[MOTD]"@, 0);
    // `[/MOTD]` after the message.
    assert(data.subrange(6 + n, 13 + n) =~= "[/MOTD]"@);
    assert(!occurs(data, "[/MOTD]"@, 0)) by {
        assert(data.subrange(0, 7)[1] == 'M');
    }
    lemma_first_bracket(data, "[/MOTD]"@, 6 + n, set![0int]);
    lemma_find_first(data, "[/MOTD]"@, 6 + n);
    // `[AD]` after that.
    assert(data.subrange(13 + n, 17 + n) =~= "[AD]"@);
    assert(!occurs(data, "[AD]"@, 0)) by {
        assert(data.subrange(0, 4)[1] == 'M');
    }
    assert(!occurs(data, "[AD]"@, 6 + n)) by {
        assert(data.subrange(6 + n, 10 + n)[1] == '/');
    }
    lemma_first_bracket(data, "[AD]"@, 13 + n, set![0int, 6 + n]);
    lemma_find_first(data, "[AD]"@, 13 + n);
    // `[/AD]` after the port.
    assert(data.subrange(17 + n + dn, 22 + n + dn) =~= "[/AD]"@);
    assert(!occurs(data, "[/AD]"@, 0)) by {
        assert(data.subrange(0, 5)[1] == 'M');
    }
    assert(!occurs(data, "[/AD]"@, 6 + n)) by {
        assert(data.subrange(6 + n, 11 + n)[2] == 'M');
    }
    assert(!occurs(data, "[/AD]"@, 13 + n)) by {
        assert(data.subrange(13 + n, 18 + n)[1] == 'A');
    }
    lemma_first_bracket(data, "[/AD]"@, 17 + n + dn, set![0int, 6 + n, 13 + n]);
    lemma_find_first(data, "[/AD]"@, 17 + n + dn);
    assert(data.subrange(6, 6 + n) =~= m);
    assert(data.subrange(17 + n, 17 + n + dn) =~= d);
}

/// Whether `pat` occurs in `s` at `i`.
fn occurs_at(s: &Vec<char>, pat: &Vec<char>, i: usize) -> (r: bool)
    requires
        i <= s@.len(),
    ensures
        r == occurs(s@, pat@, i as int),
{
    if pat.len() > s.len() - i {
        return false;
    }
    let mut k: usize = 0;
    while k < pat.len()
        invariant
            i + pat@.len() <= s@.len(),
            i + pat.len() <= s.len(),
            0 <= k <= pat.len(),
            forall|j: int| 0 <= j < k ==> s@[i + j] == pat@[j],
        decreases pat.len() - k,
    {
        if s[i + k] != pat[k] {
            assert(s@.subrange(i as int, i + pat@.len())[k as int] != pat@[k as int]);
            return false;
        }
        k += 1;
    }
    assert(s@.subrange(i as int, i + pat@.len()) =~= pat@);
    true
}

/// Where `pat` first occurs in `s`.
fn find_in(s: &Vec<char>, pat: &Vec<char>) -> (r: Option<usize>)
    ensures
        match r {
            Some(i) => find_text(s@, pat@) == Some(i as int),
            None => find_text(s@, pat@) is None,
        },
{
    let mut i: usize = 0;
    while i < s.len()
        invariant
            0 <= i <= s@.len(),
            forall|j: int| 0 <= j < i ==> !#[trigger] occurs(s@, pat@, j),
        decreases s@.len() - i,
    {
        if occurs_at(s, pat, i) {
            proof {
                assert(first_occurrence(s@, pat@, i as int));
                let c = choose|c: int| first_occurrence(s@, pat@, c);
                if c < i {
                    assert(!occurs(s@, pat@, c));
                }
                if c > i {
                    assert(occurs(s@, pat@, i as int));
                }
            }
            return Some(i);
        }
        i += 1;
    }
    if occurs_at(s, pat, i) {
        proof {
            assert(first_occurrence(s@, pat@, i as int));
            let c = choose|c: int| first_occurrence(s@, pat@, c);
            if c < i {
                assert(!occurs(s@, pat@, c));
            }
            if c > i {
                assert(occurs(s@, pat@, i as int));
            }
        }
        return Some(i);
    }
    proof {
        if exists|c: int| first_occurrence(s@, pat@, c) {
            let c = choose|c: int| first_occurrence(s@, pat@, c);
            assert(occurs(s@, pat@, c));
            if c < i {
                assert(!occurs(s@, pat@, c));
            }
        }
    }
    None
}

/// The text between the first `open` and the first `close` after it, if
/// that text is not empty.
fn text_between(data: &Vec<char>, open: &str, close: &str) -> (r: Option<String>)
    ensures
        match r {
            Some(t) => between(data@, open@, close@) == Some(t@),
            None => between(data@, open@, close@) is None,
        },
{
    let o = chars_of(open);
    let c = chars_of(close);
    let b = match find_in(data, &o) {
        Some(b) => b,
        None => {
            return None;
        },
    };
    let e = match find_in(data, &c) {
        Some(e) => e,
        None => {
            return None;
        },
    };
    assert(first_occurrence(data@, o@, b as int));
    assert(first_occurrence(data@, c@, e as int));
    if e <= b || e - b <= o.len() {
        return None;
    }
    let mut out: Vec<char> = Vec::new();
    let mut k: usize = b + o.len();
    while k < e
        invariant
            b + o@.len() <= k <= e <= data@.len(),
            out@ == data@.subrange(b + o@.len(), k as int),
        decreases e - k,
    {
        out.push(data[k]);
        k += 1;
        assert(out@ =~= data@.subrange(b + o@.len(), k as int));
    }
    Some(string_of(&out))
}

} // verus!
