//! The nonce search engine: the nonce space is split into disjoint spans, one
//! per worker; each worker scans its span in chunks, between which it may be
//! told to stop, and the first solution offered to the result slot wins.

use vstd::prelude::*;
use std::sync::atomic::{AtomicBool, Ordering};
use vstd::arithmetic::div_mod::{lemma_fundamental_div_mod, lemma_mod_pos_bound};
use crate::digest::{candidate_digest, digest_le, hash_candidate, meets_difficulty};

verus! {

/// Nonces a worker scans between two looks at the stop signal.
pub const CHECK_INTERVAL: u64 = 10_000;

/// What one search round works on.
#[derive(Clone, Copy, Debug)]
pub struct Round {
    pub challenge: [u8; 32],
    pub difficulty: [u8; 32],
    pub identity: [u8; 32],
}

/// A nonce together with the digest it produces.
#[derive(Clone, Copy, Debug)]
pub struct Solution {
    pub digest: [u8; 32],
    pub nonce: u64,
}

/// An inclusive range of nonces.
#[derive(Clone, Copy, Debug, PartialEq, Eq, Structural)]
pub struct Span {
    pub first: u64,
    pub last: u64,
}

/// Whether `nonce` yields a digest within the round's difficulty.
pub open spec fn qualifies(round: Round, nonce: u64) -> bool {
    meets_difficulty(candidate_digest(round.challenge@, round.identity@, nonce), round.difficulty@)
}

/// Whether `s` is a solution of the round: its digest is the one its nonce
/// produces, and that digest is within the difficulty.
pub open spec fn is_solution(round: Round, s: Solution) -> bool {
    &&& s.digest@ == candidate_digest(round.challenge@, round.identity@, s.nonce)
    &&& meets_difficulty(s.digest@, round.difficulty@)
}

/// No nonce from `first` to `last`, both included, qualifies.
pub open spec fn none_qualify(round: Round, first: int, last: int) -> bool {
    forall|n: u64| first <= n <= last ==> !qualifies(round, n)
}

/// Returns the smallest nonce from `first` to `last` (both included) that
/// qualifies, with its digest, or `None` where there is none.
pub fn scan(round: &Round, first: u64, last: u64) -> (r: Option<Solution>)
    requires
        first <= last,
    ensures
        match r {
            Some(s) => {
                &&& first <= s.nonce <= last
                &&& is_solution(*round, s)
                &&& none_qualify(*round, first as int, s.nonce - 1)
            },
            None => none_qualify(*round, first as int, last as int),
        },
{
    let mut n: u64 = first;
    loop
        invariant
            first <= n <= last,
            none_qualify(*round, first as int, n - 1),
        decreases last - n,
    {
        let digest = hash_candidate(&round.challenge, &round.identity, n);
        if digest_le(&digest, &round.difficulty) {
            return Some(Solution { digest, nonce: n });
        }
        if n == last {
            return None;
        }
        n = n + 1;
    }
}

/// The distance between the first nonces of neighbouring workers.
pub open spec fn stride(worker_count: u64) -> int {
    u64::MAX as int / worker_count as int
}

/// The span of worker `i` out of `worker_count`: it starts at `i` strides,
/// ends just before the next worker's start, and the last worker's span runs
/// to the largest nonce.
pub open spec fn span_of(worker_count: u64, i: int) -> (int, int) {
    (i * stride(worker_count), if i == worker_count - 1 {
        u64::MAX as int
    } else {
        (i + 1) * stride(worker_count) - 1
    })
}

/// Splits the nonce space into `worker_count` disjoint spans that together
/// cover every nonce.
pub fn worker_spans(worker_count: u64) -> (r: Vec<Span>)
    requires
        worker_count >= 1,
    ensures
        r@.len() == worker_count,
        forall|i: int|
            0 <= i < worker_count ==> (#[trigger] r@[i]).first == span_of(worker_count, i).0
                && r@[i].last == span_of(worker_count, i).1,
{
    let step: u64 = u64::MAX / worker_count;
    assert(step >= 1) by (nonlinear_arith)
        requires
            step == u64::MAX as int / worker_count as int,
            1 <= worker_count <= u64::MAX,
    ;
    let mut r: Vec<Span> = Vec::new();
    let mut i: u64 = 0;
    while i < worker_count
        invariant
            i <= worker_count,
            step == stride(worker_count),
            step >= 1,
            r@.len() == i,
            forall|j: int|
                0 <= j < i ==> (#[trigger] r@[j]).first == span_of(worker_count, j).0
                    && r@[j].last == span_of(worker_count, j).1,
        decreases worker_count - i,
    {
        assert((i + 1) * step <= u64::MAX) by (nonlinear_arith)
            requires
                i + 1 <= worker_count,
                step == u64::MAX as int / worker_count as int,
                worker_count >= 1,
        ;
        assert(i * step <= (i + 1) * step - 1) by (nonlinear_arith)
            requires
                step >= 1,
        ;
        let first: u64 = i * step;
        let last: u64 = if i == worker_count - 1 {
            u64::MAX
        } else {
            (i + 1) * step - 1
        };
        r.push(Span { first, last });
        i = i + 1;
    }
    r
}

proof fn lemma_stride_positive(worker_count: u64)
    requires
        worker_count >= 1,
    ensures
        stride(worker_count) >= 1,
{
    let s = stride(worker_count);
    assert(s >= 1) by (nonlinear_arith)
        requires
            s == u64::MAX as int / worker_count as int,
            1 <= worker_count <= u64::MAX,
    ;
}

/// Every nonce lies in the span of some worker.
pub proof fn lemma_spans_cover(worker_count: u64, n: u64) -> (i: int)
    requires
        worker_count >= 1,
    ensures
        0 <= i < worker_count,
        span_of(worker_count, i).0 <= n <= span_of(worker_count, i).1,
{
    let s = stride(worker_count);
    lemma_stride_positive(worker_count);
    lemma_fundamental_div_mod(n as int, s);
    lemma_mod_pos_bound(n as int, s);
    let q = n as int / s;
    let r = n as int % s;
    assert(q >= 0) by (nonlinear_arith)
        requires
            n as int == s * q + r,
            0 <= r < s,
            n >= 0,
    ;
    if q < worker_count - 1 {
        assert(q * s <= n <= (q + 1) * s - 1) by (nonlinear_arith)
            requires
                n as int == s * q + r,
                0 <= r < s,
        ;
        q
    } else {
        let k = worker_count - 1;
        assert(k * s <= n) by (nonlinear_arith)
            requires
                n as int == s * q + r,
                0 <= r,
                k <= q,
                s >= 1,
        ;
        k
    }
}

/// Where a worker stands in its span.
#[derive(Clone, Copy, Debug, PartialEq, Eq, Structural)]
pub enum WorkerStatus {
    Scanning,
    Solved,
    Exhausted,
    Stopped,
}

/// What one step of a worker came to.
#[derive(Clone, Copy, Debug)]
pub enum Step {
    /// A chunk was scanned without a solution; more of the span is left.
    Continue,
    /// A solution was found; the worker is done.
    Found(Solution),
    /// The whole span was scanned without a solution.
    Exhausted,
    /// The worker was told to stop before it scanned anything.
    Stopped,
}

/// One worker of a search round: it scans its span from `next` on.
#[derive(Clone, Copy, Debug)]
pub struct Worker {
    pub round: Round,
    pub span: Span,
    pub next: u64,
    pub status: WorkerStatus,
}

impl Worker {
    /// The cursor lies in the span, nothing before it qualifies, and an
    /// exhausted worker's whole span holds no solution.
    pub open spec fn wf(&self) -> bool {
        &&& self.span.first <= self.next <= self.span.last
        &&& none_qualify(self.round, self.span.first as int, self.next - 1)
        &&& self.status == WorkerStatus::Exhausted ==> none_qualify(
            self.round,
            self.span.first as int,
            self.span.last as int,
        )
    }

    /// Nonces the worker has yet to scan.
    pub open spec fn remaining(&self) -> nat {
        if self.status == WorkerStatus::Scanning {
            (self.span.last - self.next + 1) as nat
        } else {
            0
        }
    }

    /// A worker about to scan `span` from its first nonce.
    pub fn new(round: Round, span: Span) -> (w: Worker)
        requires
            span.first <= span.last,
        ensures
            w.wf(),
            w.round == round,
            w.span == span,
            w.next == span.first,
            w.status == WorkerStatus::Scanning,
    {
        Worker { round, span, next: span.first, status: WorkerStatus::Scanning }
    }

    /// Stops when told to; otherwise scans the next chunk of at most
    /// `CHECK_INTERVAL` nonces and reports what it found.
    pub fn step(&mut self, stop_requested: bool) -> (r: Step)
        requires
            old(self).wf(),
            old(self).status == WorkerStatus::Scanning,
        ensures
            final(self).wf(),
            final(self).round == old(self).round,
            final(self).span == old(self).span,
            stop_requested ==> r is Stopped && final(self).status == WorkerStatus::Stopped,
            !stop_requested ==> match r {
                Step::Found(s) => {
                    &&& is_solution(old(self).round, s)
                    &&& old(self).next <= s.nonce <= old(self).span.last
                    &&& none_qualify(old(self).round, old(self).span.first as int, s.nonce - 1)
                    &&& final(self).status == WorkerStatus::Solved
                },
                Step::Continue => {
                    &&& old(self).span.last - old(self).next >= CHECK_INTERVAL
                    &&& final(self).next == old(self).next + CHECK_INTERVAL
                    &&& final(self).status == WorkerStatus::Scanning
                },
                Step::Exhausted => {
                    &&& final(self).status == WorkerStatus::Exhausted
                },
                Step::Stopped => false,
            },
    {
        if stop_requested {
            self.status = WorkerStatus::Stopped;
            return Step::Stopped;
        }
        let start = self.next;
        let end = if self.span.last - start >= CHECK_INTERVAL {
            start + (CHECK_INTERVAL - 1)
        } else {
            self.span.last
        };
        match scan(&self.round, start, end) {
            Some(s) => {
                self.status = WorkerStatus::Solved;
                Step::Found(s)
            },
            None => {
                if end == self.span.last {
                    self.status = WorkerStatus::Exhausted;
                    Step::Exhausted
                } else {
                    self.next = end + 1;
                    Step::Continue
                }
            },
        }
    }
}

/// The body of one worker thread: scans `span` a chunk at a time, looking at
/// the shared `found` flag before each chunk. Ends with the first solution in
/// the span, after raising the flag; or exhausted, when the span holds no
/// solution; or stopped, once it sees the flag raised.
pub fn run_worker(round: Round, span: Span, found: &AtomicBool) -> (r: Step)
    requires
        span.first <= span.last,
    ensures
        match r {
            Step::Found(s) => {
                &&& is_solution(round, s)
                &&& span.first <= s.nonce <= span.last
                &&& none_qualify(round, span.first as int, s.nonce - 1)
            },
            Step::Exhausted => none_qualify(round, span.first as int, span.last as int),
            Step::Stopped => true,
            Step::Continue => false,
        },
{
    let mut w = Worker::new(round, span);
    loop
        invariant
            w.wf(),
            w.round == round,
            w.span == span,
            w.status == WorkerStatus::Scanning,
        decreases w.remaining(),
    {
        let stop = found.load(Ordering::Relaxed);
        match w.step(stop) {
            Step::Found(s) => {
                found.store(true, Ordering::Relaxed);
                return Step::Found(s);
            },
            Step::Continue => {},
            Step::Exhausted => {
                return Step::Exhausted;
            },
            Step::Stopped => {
                return Step::Stopped;
            },
        }
    }
}

/// Nonces that the given workers have yet to scan, all together.
pub open spec fn total_remaining(ws: Seq<Worker>) -> nat
    decreases ws.len(),
{
    if ws.len() == 0 {
        0
    } else {
        total_remaining(ws.drop_last()) + ws.last().remaining()
    }
}

proof fn lemma_total_remaining_update(ws: Seq<Worker>, i: int, w: Worker)
    requires
        0 <= i < ws.len(),
    ensures
        total_remaining(ws.update(i, w)) + ws[i].remaining() == total_remaining(ws)
            + w.remaining(),
    decreases ws.len(),
{
    if i == ws.len() - 1 {
        assert(ws.update(i, w).drop_last() =~= ws.drop_last());
    } else {
        assert(ws.update(i, w).drop_last() =~= ws.drop_last().update(i, w));
        lemma_total_remaining_update(ws.drop_last(), i, w);
    }
}

/// What a search of `round` may return: a solution, or `None` only where no
/// nonce at all qualifies.
pub open spec fn search_outcome(round: Round, r: Option<Solution>) -> bool {
    match r {
        Some(s) => is_solution(round, s),
        None => forall|n: u64| !qualifies(round, n),
    }
}

/// Runs one search round with `worker_count` workers, each over its own span,
/// taking turns one chunk at a time. Returns a solution, or `None` where no
/// nonce at all qualifies.
pub fn search(round: &Round, worker_count: u64) -> (r: Option<Solution>)
    requires
        worker_count >= 1,
    ensures
        search_outcome(*round, r),
{
    let spans = worker_spans(worker_count);
    let mut workers: Vec<Worker> = Vec::new();
    let mut k: usize = 0;
    while k < spans.len()
        invariant
            spans@.len() == worker_count,
            k <= spans@.len(),
            workers@.len() == k,
            forall|j: int|
                0 <= j < worker_count ==> (#[trigger] spans@[j]).first == span_of(worker_count, j).0
                    && spans@[j].last == span_of(worker_count, j).1,
            forall|j: int|
                0 <= j < k ==> (#[trigger] workers@[j]).wf() && workers@[j].round == *round
                    && workers@[j].span == spans@[j] && workers@[j].status
                    == WorkerStatus::Scanning,
        decreases spans.len() - k,
    {
        let span = spans[k];
        proof {
            lemma_stride_positive(worker_count);
            assert(span.first <= span.last) by (nonlinear_arith)
                requires
                    span.first == k * stride(worker_count),
                    span.last == span_of(worker_count, k as int).1,
                    stride(worker_count) >= 1,
                    k < worker_count,
            ;
        }
        workers.push(Worker::new(*round, span));
        k = k + 1;
    }
    loop
        invariant
            worker_count >= 1,
            workers@.len() == worker_count,
            forall|j: int|
                0 <= j < worker_count ==> (#[trigger] workers@[j]).wf() && workers@[j].round
                    == *round && workers@[j].span.first == span_of(worker_count, j).0
                    && workers@[j].span.last == span_of(worker_count, j).1 && (
                workers@[j].status == WorkerStatus::Scanning || workers@[j].status
                    == WorkerStatus::Exhausted),
        decreases total_remaining(workers@),
    {
        let ghost before = total_remaining(workers@);
        let mut progressed = false;
        let mut i: usize = 0;
        while i < workers.len()
            invariant
                worker_count >= 1,
                workers@.len() == worker_count,
                i <= worker_count,
                forall|j: int|
                    0 <= j < worker_count ==> (#[trigger] workers@[j]).wf() && workers@[j].round
                        == *round && workers@[j].span.first == span_of(worker_count, j).0
                        && workers@[j].span.last == span_of(worker_count, j).1 && (
                    workers@[j].status == WorkerStatus::Scanning || workers@[j].status
                        == WorkerStatus::Exhausted),
                total_remaining(workers@) <= before,
                progressed ==> total_remaining(workers@) < before,
                !progressed ==> forall|j: int|
                    0 <= j < i ==> (#[trigger] workers@[j]).status == WorkerStatus::Exhausted,
            decreases worker_count - i,
        {
            let mut w = workers[i];
            if w.status == WorkerStatus::Scanning {
                match w.step(false) {
                    Step::Found(s) => {
                        return Some(s);
                    },
                    _ => {},
                }
                proof {
                    lemma_total_remaining_update(workers@, i as int, w);
                }
                workers.set(i, w);
                progressed = true;
            }
            i = i + 1;
        }
        if !progressed {
            assert forall|n: u64| !qualifies(*round, n) by {
                let j = lemma_spans_cover(worker_count, n);
                assert(workers@[j].wf());
            }
            return None;
        }
    }
}

/// The number of workers changes how the work is split, not what is found:
/// two searches of one round, whatever their worker counts, both return a
/// solution of the round, or both return none because there is none.
pub proof fn lemma_worker_count_irrelevant(round: Round, a: Option<Solution>, b: Option<Solution>)
    requires
        search_outcome(round, a),
        search_outcome(round, b),
    ensures
        a is Some <==> b is Some,
        a is Some ==> is_solution(round, a->Some_0),
        b is Some ==> is_solution(round, b->Some_0),
{
    if let Some(s) = a {
        assert(qualifies(round, s.nonce));
    }
    if let Some(s) = b {
        assert(qualifies(round, s.nonce));
    }
}

/// An empty or filled slot for the one solution a round keeps.
#[derive(Clone, Copy, Debug)]
pub struct ResultSlot {
    pub winner: Option<Solution>,
}

/// What the slot holds after `s` is offered to a slot holding `w`: the first
/// solution offered stays, later ones are discarded.
pub open spec fn after_offer(w: Option<Solution>, s: Solution) -> Option<Solution> {
    match w {
        Some(_) => w,
        None => Some(s),
    }
}

/// What the slot holds after each of `offers` is offered in turn.
pub open spec fn after_offers(w: Option<Solution>, offers: Seq<Solution>) -> Option<Solution>
    decreases offers.len(),
{
    if offers.len() == 0 {
        w
    } else {
        after_offer(after_offers(w, offers.drop_last()), offers.last())
    }
}

impl ResultSlot {
    /// An empty slot.
    pub fn new() -> (r: ResultSlot)
        ensures
            r.winner is None,
    {
        ResultSlot { winner: None }
    }

    /// Records `s` if the slot is empty and reports whether it did; a slot
    /// that holds a solution keeps it.
    pub fn offer(&mut self, s: Solution) -> (accepted: bool)
        ensures
            accepted == old(self).winner is None,
            final(self).winner == after_offer(old(self).winner, s),
    {
        if self.winner.is_none() {
            self.winner = Some(s);
            true
        } else {
            false
        }
    }
}

/// However many workers race to offer solutions to an empty slot, exactly one
/// solution is kept: the first offered, which is a solution of the round.
pub proof fn lemma_one_winner(round: Round, offers: Seq<Solution>)
    requires
        offers.len() >= 1,
        forall|i: int| 0 <= i < offers.len() ==> is_solution(round, #[trigger] offers[i]),
    ensures
        after_offers(None, offers) == Some(offers[0]),
        is_solution(round, offers[0]),
    decreases offers.len(),
{
    let rest = offers.drop_last();
    if offers.len() == 1 {
        assert(rest =~= Seq::<Solution>::empty());
    } else {
        assert forall|i: int| 0 <= i < rest.len() implies is_solution(round, #[trigger] rest[i]) by {
            assert(rest[i] == offers[i]);
        }
        lemma_one_winner(round, rest);
        assert(rest[0] == offers[0]);
    }
}

} // verus!
