//! The ring of recent log lines.
use vstd::prelude::*;
use crate::context::strings_view;
use crate::text::owned;
use std::collections::VecDeque;

verus! {

/// How many lines the ring keeps.
pub const LOG_CAPACITY: usize = 512;

/// The last `LOG_CAPACITY` lines of a history, oldest first.
pub open spec fn last_lines(history: Seq<Seq<char>>) -> Seq<Seq<char>> {
    if history.len() > LOG_CAPACITY {
        history.skip(history.len() - LOG_CAPACITY)
    } else {
        history
    }
}

/// The last `limit` lines of `lines`, oldest first.
pub open spec fn last_n(lines: Seq<Seq<char>>, limit: nat) -> Seq<Seq<char>> {
    if lines.len() > limit {
        lines.skip(lines.len() - limit)
    } else {
        lines
    }
}

/// The most recent log lines, oldest first.
pub struct LogRing {
    pub lines: VecDeque<String>,
}

impl LogRing {
    /// The ring holds at most `LOG_CAPACITY` lines.
    pub open spec fn wf(&self) -> bool {
        self.lines@.len() <= LOG_CAPACITY
    }

    /// An empty ring.
    pub fn new() -> (r: LogRing)
        ensures
            r.wf(),
            r.lines@.len() == 0,
    {
        LogRing { lines: VecDeque::new() }
    }
}

/// Logs a line: the oldest goes where the ring is full.
pub fn log(ring: &mut LogRing, line: &str)
    requires
        old(ring).wf(),
    ensures
        final(ring).wf(),
        strings_view(final(ring).lines@) == last_lines(
            strings_view(old(ring).lines@).push(line@),
        ),
{
    let ghost before = ring.lines@;
    if ring.lines.len() >= LOG_CAPACITY {
        ring.lines.pop_front();
    }
    ring.lines.push_back(owned(line));
    proof {
        let h = strings_view(before).push(line@);
        assert(strings_view(ring.lines@) =~= last_lines(h));
    }
}

/// The ring keeps the last lines of everything logged: a ring holding the
/// last lines of a history holds, after one more line, the last lines of
/// the history with that line.
pub proof fn lemma_log_keeps_last(history: Seq<Seq<char>>, line: Seq<char>)
    ensures
        last_lines(last_lines(history).push(line)) == last_lines(history.push(line)),
{
    assert(last_lines(last_lines(history).push(line)) =~= last_lines(history.push(line)));
}

/// The last `limit` lines logged, oldest first.
pub fn recent(ring: &LogRing, limit: usize) -> (r: Vec<String>)
    ensures
        strings_view(r@) == last_n(strings_view(ring.lines@), limit as nat),
{
    let n = ring.lines.len();
    let start: usize = if n > limit {
        n - limit
    } else {
        0
    };
    let mut out: Vec<String> = Vec::new();
    let mut i: usize = start;
    while i < n
        invariant
            n == ring.lines@.len(),
            start <= i <= n,
            out@ == ring.lines@.subrange(start as int, i as int),
        decreases n - i,
    {
        let line = ring.lines[i].clone();
        assert(line == ring.lines@[i as int]);
        out.push(line);
        i += 1;
        assert(out@ =~= ring.lines@.subrange(start as int, i as int));
    }
    assert(strings_view(ring.lines@).subrange(start as int, n as int) =~= last_n(
        strings_view(ring.lines@),
        limit as nat,
    ));
    out
}

} // verus!
