//! The bounded-concurrency batch scheduler: a pool of at most `limit`
//! workers, each driving one fetch entry to completion, with partial-
//! failure semantics and a start/finish trace over which the concurrency
//! bound is stated.

use vstd::prelude::*;

use crate::fetch::{
    run_fetch, spec_digest_ok, spec_file_view, spec_some_mirror_good, spec_sum_bodies,
    DownloadOutcome, FetchEntry, GlobalProgress, MirrorResponse, ProgressEvent,
};

verus! {

/// One scheduling step of a batch: an entry entered or left the pool.
#[derive(Debug, Clone, Copy, PartialEq, Eq, Structural)]
pub enum BatchEvent {
    /// The entry with this index began streaming.
    Started(usize),
    /// The entry with this index completed (either way).
    Finished(usize),
}

/// How many entries are streaming after the first `k` steps of a trace.
pub open spec fn spec_running_at(tr: Seq<BatchEvent>, k: int) -> int
    decreases k,
{
    if k <= 0 {
        0
    } else {
        spec_running_at(tr, k - 1) + match tr[k - 1] {
            BatchEvent::Started(_) => 1,
            BatchEvent::Finished(_) => -1,
        }
    }
}

proof fn lemma_running_at_push(tr: Seq<BatchEvent>, x: BatchEvent, k: int)
    requires
        0 <= k <= tr.len(),
    ensures
        spec_running_at(tr.push(x), k) == spec_running_at(tr, k),
    decreases k,
{
    if k > 0 {
        assert(tr.push(x)[k - 1] == tr[k - 1]);
        lemma_running_at_push(tr, x, k - 1);
    }
}

/// The bounded worker pool's bookkeeping: which entries are pending,
/// which are streaming, and which are done.
#[derive(Debug, Clone)]
pub struct BatchScheduler {
    limit: usize,
    total: usize,
    next: usize,
    running: Vec<usize>,
    done: Vec<(usize, bool)>,
}

impl BatchScheduler {
    /// The worker limit.
    pub closed spec fn spec_limit(&self) -> int {
        self.limit as int
    }

    /// How many entries the batch has.
    pub closed spec fn spec_total(&self) -> int {
        self.total as int
    }

    /// The next pending entry index.
    pub closed spec fn spec_next(&self) -> int {
        self.next as int
    }

    /// The indices currently streaming.
    pub closed spec fn spec_running(&self) -> Seq<usize> {
        self.running@
    }

    /// The finished entries with their success flags.
    pub closed spec fn spec_done(&self) -> Seq<(usize, bool)> {
        self.done@
    }

    /// Well-formedness: the pool never exceeds its limit, every index is
    /// accounted for exactly once, and only started entries appear.
    pub open spec fn wf(&self) -> bool {
        &&& self.spec_limit() >= 1
        &&& self.spec_next() <= self.spec_total()
        &&& self.spec_running().len() <= self.spec_limit()
        &&& self.spec_running().len() + self.spec_done().len() == self.spec_next()
        &&& forall|j: int|
            0 <= j < self.spec_running().len() ==> (#[trigger] self.spec_running()[j])
                < self.spec_next()
        &&& forall|j: int|
            0 <= j < self.spec_done().len() ==> (#[trigger] self.spec_done()[j]).0
                < self.spec_next()
        &&& forall|j1: int, j2: int|
            0 <= j1 < j2 < self.spec_running().len() ==> self.spec_running()[j1]
                != self.spec_running()[j2]
        &&& forall|j1: int, j2: int|
            0 <= j1 < j2 < self.spec_done().len() ==> (#[trigger] self.spec_done()[j1]).0 != (
            #[trigger] self.spec_done()[j2]).0
        &&& forall|j1: int, j2: int|
            0 <= j1 < self.spec_running().len() && 0 <= j2 < self.spec_done().len() ==> (
            #[trigger] self.spec_running()[j1]) != (#[trigger] self.spec_done()[j2]).0
    }

    /// A fresh pool over `total` entries with `limit` workers.
    pub fn new(limit: usize, total: usize) -> (r: BatchScheduler)
        requires
            limit >= 1,
        ensures
            r.wf(),
            r.spec_limit() == limit,
            r.spec_total() == total,
            r.spec_next() == 0,
            r.spec_running() == Seq::<usize>::empty(),
            r.spec_done() == Seq::<(usize, bool)>::empty(),
    {
        let r = BatchScheduler { limit, total, next: 0, running: Vec::new(), done: Vec::new() };
        proof {
            assert(r.spec_running() =~= Seq::<usize>::empty());
            assert(r.spec_done() =~= Seq::<(usize, bool)>::empty());
        }
        r
    }

    /// Hand the next pending entry to a free worker, if the pool has room
    /// and anything is pending.
    pub fn start_next(&mut self) -> (r: Option<usize>)
        requires
            old(self).wf(),
        ensures
            final(self).wf(),
            final(self).spec_limit() == old(self).spec_limit(),
            final(self).spec_total() == old(self).spec_total(),
            final(self).spec_done() == old(self).spec_done(),
            match r {
                Some(i) => {
                    &&& old(self).spec_running().len() < old(self).spec_limit()
                    &&& old(self).spec_next() < old(self).spec_total()
                    &&& i == old(self).spec_next()
                    &&& final(self).spec_next() == old(self).spec_next() + 1
                    &&& final(self).spec_running() == old(self).spec_running().push(i)
                },
                None => {
                    &&& old(self).spec_running().len() >= old(self).spec_limit() || old(
                        self,
                    ).spec_next() >= old(self).spec_total()
                    &&& *final(self) == *old(self)
                },
            },
    {
        if self.running.len() < self.limit && self.next < self.total {
            let i = self.next;
            self.running.push(i);
            self.next = self.next + 1;
            Some(i)
        } else {
            None
        }
    }

    /// Record that the worker streaming entry `idx` completed it.
    pub fn finish(&mut self, idx: usize, success: bool)
        requires
            old(self).wf(),
            old(self).spec_running().contains(idx),
        ensures
            final(self).wf(),
            final(self).spec_limit() == old(self).spec_limit(),
            final(self).spec_total() == old(self).spec_total(),
            final(self).spec_next() == old(self).spec_next(),
            final(self).spec_done() == old(self).spec_done().push((idx, success)),
            final(self).spec_running().len() == old(self).spec_running().len() - 1,
            forall|x: usize|
                x != idx ==> (final(self).spec_running().contains(x) == old(
                    self,
                ).spec_running().contains(x)),
    {
        let ghost oldrun = self.running@;
        let j = index_of(&self.running, idx);
        let ghost jj = j as int;
        self.running.remove(j);
        self.done.push((idx, success));
        proof {
            let newrun = self.running@;
            assert(newrun == oldrun.remove(jj));
            assert forall|x: usize| x != idx implies (newrun.contains(x) == oldrun.contains(
                x,
            )) by {
                if newrun.contains(x) {
                    let w = choose|w: int| 0 <= w < newrun.len() && newrun[w] == x;
                    if w < jj {
                        assert(oldrun[w] == x);
                    } else {
                        assert(oldrun[w + 1] == x);
                    }
                }
                if oldrun.contains(x) {
                    let w = choose|w: int| 0 <= w < oldrun.len() && oldrun[w] == x;
                    if w < jj {
                        assert(newrun[w] == x);
                    } else {
                        assert(w != jj);
                        assert(newrun[w - 1] == x);
                    }
                }
            }
            assert forall|k1: int, k2: int|
                0 <= k1 < k2 < newrun.len() implies newrun[k1] != newrun[k2] by {
                if k1 < jj {
                    if k2 < jj {
                        assert(oldrun[k1] != oldrun[k2]);
                    } else {
                        assert(oldrun[k1] != oldrun[k2 + 1]);
                    }
                } else {
                    assert(oldrun[k1 + 1] != oldrun[k2 + 1]);
                }
            }
            assert forall|k: int|
                0 <= k < newrun.len() implies (#[trigger] newrun[k]) < self.next by {
                if k < jj {
                    assert(oldrun[k] < self.next);
                } else {
                    assert(oldrun[k + 1] < self.next);
                }
            }
            assert forall|k1: int, k2: int|
                0 <= k1 < newrun.len() && 0 <= k2 < self.done@.len() implies (
            #[trigger] newrun[k1]) != (#[trigger] self.done@[k2]).0 by {
                let x = newrun[k1];
                if k1 < jj {
                    assert(oldrun[k1] == x);
                } else {
                    assert(oldrun[k1 + 1] == x);
                }
                assert(oldrun.contains(x));
                if k2 < self.done@.len() - 1 {
                } else {
                    assert(self.done@[k2].0 == idx);
                    assert(oldrun[jj] == idx);
                }
            }
        }
    }

    /// How many entries are streaming.
    pub fn running_count(&self) -> (r: usize)
        ensures
            r == self.spec_running().len(),
    {
        self.running.len()
    }

    /// How many entries are done.
    pub fn done_count(&self) -> (r: usize)
        ensures
            r == self.spec_done().len(),
    {
        self.done.len()
    }
}

/// Position of `x` in `v`.
fn index_of(v: &Vec<usize>, x: usize) -> (r: usize)
    requires
        v@.contains(x),
    ensures
        r < v@.len(),
        v@[r as int] == x,
{
    let mut j: usize = 0;
    while j < v.len()
        invariant
            j <= v@.len(),
            v@.contains(x),
            forall|k: int| 0 <= k < j ==> v@[k] != x,
        decreases v@.len() - j,
    {
        if v[j] == x {
            return j;
        }
        j = j + 1;
    }
    proof {
        let w = choose|w: int| 0 <= w < v@.len() && v@[w] == x;
        assert(v@[w] != x);
    }
    0
}

/// Concurrency-bound law: a well-formed pool never has more entries
/// streaming than its worker limit; with `new`, `start_next` and
/// `finish` all preserving well-formedness, the bound holds at every
/// instant of a batch.
pub proof fn lemma_concurrency_bound(s: &BatchScheduler)
    requires
        s.wf(),
    ensures
        s.spec_running().len() <= s.spec_limit(),
{
}

/// The worst-case credit one entry can put on the shared counter.
pub open spec fn spec_entry_cost(existing: Option<Vec<u8>>, rs: Seq<MirrorResponse>) -> int {
    spec_file_view(existing).len() + 2 * spec_sum_bodies(rs)
}

/// The worst-case credit of the entries from `from` on.
pub open spec fn spec_batch_cost(
    existing: Seq<Option<Vec<u8>>>,
    responses: Seq<Vec<MirrorResponse>>,
    from: int,
) -> int
    decreases existing.len() - from,
{
    if from < 0 || from >= existing.len() || existing.len() != responses.len() {
        0
    } else {
        spec_entry_cost(existing[from], responses[from]@) + spec_batch_cost(
            existing,
            responses,
            from + 1,
        )
    }
}

proof fn lemma_batch_cost_nonneg(
    existing: Seq<Option<Vec<u8>>>,
    responses: Seq<Vec<MirrorResponse>>,
    from: int,
)
    ensures
        spec_batch_cost(existing, responses, from) >= 0,
    decreases existing.len() - from,
{
    if 0 <= from < existing.len() && existing.len() == responses.len() {
        crate::fetch::lemma_sum_bodies_nonneg(responses[from]@);
        lemma_batch_cost_nonneg(existing, responses, from + 1);
    }
}

/// The bytes a batch's outcomes have credited to the shared counter:
/// each successful entry holds exactly its destination's final size.
pub open spec fn spec_batch_credit(outcomes: Seq<DownloadOutcome>) -> int
    decreases outcomes.len(),
{
    if outcomes.len() == 0 {
        0
    } else {
        spec_batch_credit(outcomes.drop_last()) + (if outcomes.last().success {
            spec_file_view(outcomes.last().file).len() as int
        } else {
            0
        })
    }
}

/// Run a whole batch: a bounded pool of `limit` workers, each pulling
/// the next pending entry and driving its download to completion. One
/// entry's permanent failure never aborts its siblings: every entry gets
/// an outcome, an entry with an already-valid destination completes
/// without transfer, and an entry with some wholly good mirror
/// completes. The returned trace shows every start and finish, and at
/// no instant does it have more than `limit` entries streaming.
pub fn run_batch(
    entries: &Vec<FetchEntry>,
    responses: &Vec<Vec<MirrorResponse>>,
    existing_files: Vec<Option<Vec<u8>>>,
    limit: usize,
    max_retries: u64,
    global: &mut GlobalProgress,
    events: &mut Vec<ProgressEvent>,
) -> (r: (Vec<DownloadOutcome>, Vec<BatchEvent>))
    requires
        limit >= 1,
        entries@.len() == responses@.len(),
        existing_files@.len() == entries@.len(),
        forall|i: int|
            0 <= i < entries@.len() ==> (#[trigger] entries@[i]).urls@.len()
                == responses@[i]@.len(),
        old(global).spec_value() + spec_batch_cost(existing_files@, responses@, 0) <= u64::MAX,
    ensures
        old(events)@.is_prefix_of(final(events)@),
        r.0@.len() == entries@.len(),
        final(global).spec_value() == old(global).spec_value() + spec_batch_credit(r.0@),
        forall|i: int|
            0 <= i < r.0@.len() && (#[trigger] r.0@[i]).success && entries@[i].hash is Some
                ==> spec_digest_ok(entries@[i].hash, spec_file_view(r.0@[i].file)),
        forall|i: int|
            0 <= i < r.0@.len() && max_retries >= 1 && spec_some_mirror_good(
                entries@[i].hash,
                responses@[i]@,
            ) ==> (#[trigger] r.0@[i]).success,
        forall|i: int|
            0 <= i < r.0@.len() && existing_files@[i] is Some && entries@[i].hash is Some
                && spec_digest_ok(entries@[i].hash, spec_file_view(existing_files@[i]))
                && entries@[i].urls@.len() > 0 ==> ((#[trigger] r.0@[i]).success
                && r.0@[i].bytes_transferred == 0 && r.0@[i].file == existing_files@[i]),
        forall|k: int| 0 <= k <= r.1@.len() ==> spec_running_at(r.1@, k) <= limit,
        r.1@.len() == 2 * entries@.len(),
        spec_running_at(r.1@, r.1@.len() as int) == 0,
{
    let ghost old0 = old(global).spec_value();
    let ghost oldev = old(events)@;
    let ghost orig_ex = existing_files@;
    let ghost respv = responses@;
    let total = entries.len();
    let mut sched = BatchScheduler::new(limit, total);
    let mut outcomes: Vec<DownloadOutcome> = Vec::new();
    let mut trace: Vec<BatchEvent> = Vec::new();
    let mut exq = existing_files;
    proof {
        assert(orig_ex.skip(0) =~~= orig_ex);
        lemma_batch_cost_nonneg(orig_ex, respv, 0);
    }
    while outcomes.len() < total
        invariant
            oldev == old(events)@,
            old0 == old(global).spec_value(),
            orig_ex == existing_files@,
            respv == responses@,
            total == entries@.len(),
            entries@.len() == responses@.len(),
            orig_ex.len() == entries@.len(),
            forall|i: int|
                0 <= i < entries@.len() ==> (#[trigger] entries@[i]).urls@.len()
                    == responses@[i]@.len(),
            old0 + spec_batch_cost(orig_ex, respv, 0) <= u64::MAX,
            sched.wf(),
            sched.spec_limit() == limit,
            sched.spec_total() == total,
            sched.spec_running().len() == 0,
            sched.spec_next() == outcomes@.len(),
            sched.spec_done().len() == outcomes@.len(),
            outcomes@.len() <= total,
            exq@ =~~= orig_ex.skip(outcomes@.len() as int),
            global.spec_value() <= old0 + spec_batch_cost(orig_ex, respv, 0) - spec_batch_cost(
                orig_ex,
                respv,
                outcomes@.len() as int,
            ),
            global.spec_value() == old0 + spec_batch_credit(outcomes@),
            forall|i: int|
                0 <= i < outcomes@.len() && (#[trigger] outcomes@[i]).success
                    && entries@[i].hash is Some ==> spec_digest_ok(
                    entries@[i].hash,
                    spec_file_view(outcomes@[i].file),
                ),
            forall|i: int|
                0 <= i < outcomes@.len() && max_retries >= 1 && spec_some_mirror_good(
                    entries@[i].hash,
                    responses@[i]@,
                ) ==> (#[trigger] outcomes@[i]).success,
            forall|i: int|
                0 <= i < outcomes@.len() && orig_ex[i] is Some && entries@[i].hash is Some
                    && spec_digest_ok(entries@[i].hash, spec_file_view(orig_ex[i]))
                    && entries@[i].urls@.len() > 0 ==> ((#[trigger] outcomes@[i]).success
                    && outcomes@[i].bytes_transferred == 0 && outcomes@[i].file == orig_ex[i]),
            forall|k: int| 0 <= k <= trace@.len() ==> spec_running_at(trace@, k) <= limit,
            spec_running_at(trace@, trace@.len() as int) == sched.spec_running().len(),
            trace@.len() == sched.spec_next() + sched.spec_done().len(),
            oldev.is_prefix_of(events@),
        decreases total - outcomes@.len(),
    {
        let wave_start = outcomes.len();
        let remaining = total - wave_start;
        let wave_size = if remaining < limit {
            remaining
        } else {
            limit
        };
        // Hand the wave to the pool: its workers all begin streaming.
        let mut w: usize = 0;
        while w < wave_size
            invariant
                sched.wf(),
                sched.spec_limit() == limit,
                sched.spec_total() == total,
                total == entries@.len(),
                w <= wave_size,
                wave_start + wave_size <= total,
                wave_size <= limit,
                sched.spec_running().len() == w,
                sched.spec_next() == wave_start + w,
                sched.spec_done().len() == wave_start,
                forall|t: int|
                    wave_start <= t < wave_start + w ==> #[trigger] sched.spec_running().contains(
                        t as usize,
                    ),
                forall|k: int| 0 <= k <= trace@.len() ==> spec_running_at(trace@, k) <= limit,
                spec_running_at(trace@, trace@.len() as int) == sched.spec_running().len(),
                trace@.len() == sched.spec_next() + sched.spec_done().len(),
            decreases wave_size - w,
        {
            let ghost oldrun = sched.spec_running();
            let ghost oldtr = trace@;
            let started = sched.start_next();
            let i = match started {
                Some(i) => i,
                None => {
                    proof {
                        assert(false);
                    }
                    0
                },
            };
            trace.push(BatchEvent::Started(i));
            proof {
                lemma_running_at_push(oldtr, BatchEvent::Started(i), oldtr.len() as int);
                assert(trace@[trace@.len() - 1] == BatchEvent::Started(i));
                assert(spec_running_at(trace@, trace@.len() as int) == spec_running_at(
                    oldtr,
                    oldtr.len() as int,
                ) + 1);
                assert forall|k: int|
                    0 <= k <= trace@.len() implies spec_running_at(trace@, k) <= limit by {
                    if k <= oldtr.len() {
                        lemma_running_at_push(oldtr, BatchEvent::Started(i), k);
                    } else {
                        lemma_running_at_push(oldtr, BatchEvent::Started(i), k - 1);
                    }
                }
                assert forall|t: int|
                    wave_start <= t < wave_start + w + 1 implies #[trigger] sched.spec_running().contains(
                        t as usize,
                    ) by {
                    if t < wave_start + w {
                        assert(oldrun.contains(t as usize));
                        let wit = choose|wit: int|
                            0 <= wit < oldrun.len() && oldrun[wit] == t as usize;
                        assert(sched.spec_running()[wit] == t as usize);
                    } else {
                        assert(sched.spec_running()[oldrun.len() as int] == i);
                        assert(i == t as usize);
                    }
                }
            }
            w = w + 1;
        }
        // Drive each streaming entry to completion, in order.
        let mut j: usize = 0;
        while j < wave_size
            invariant
                oldev == old(events)@,
                old0 == old(global).spec_value(),
                orig_ex == existing_files@,
                respv == responses@,
                total == entries@.len(),
                entries@.len() == responses@.len(),
                orig_ex.len() == entries@.len(),
                forall|i: int|
                    0 <= i < entries@.len() ==> (#[trigger] entries@[i]).urls@.len()
                        == responses@[i]@.len(),
                old0 + spec_batch_cost(orig_ex, respv, 0) <= u64::MAX,
                j <= wave_size,
                wave_start + wave_size <= total,
                wave_size <= limit,
                sched.wf(),
                sched.spec_limit() == limit,
                sched.spec_total() == total,
                sched.spec_running().len() == wave_size - j,
                sched.spec_next() == wave_start + wave_size,
                sched.spec_done().len() == wave_start + j,
                outcomes@.len() == wave_start + j,
                forall|t: int|
                    wave_start + j <= t < wave_start + wave_size
                        ==> #[trigger] sched.spec_running().contains(t as usize),
                exq@ =~~= orig_ex.skip(outcomes@.len() as int),
                global.spec_value() <= old0 + spec_batch_cost(orig_ex, respv, 0)
                    - spec_batch_cost(orig_ex, respv, outcomes@.len() as int),
                global.spec_value() == old0 + spec_batch_credit(outcomes@),
                forall|i: int|
                    0 <= i < outcomes@.len() && (#[trigger] outcomes@[i]).success
                        && entries@[i].hash is Some ==> spec_digest_ok(
                        entries@[i].hash,
                        spec_file_view(outcomes@[i].file),
                    ),
                forall|i: int|
                    0 <= i < outcomes@.len() && max_retries >= 1 && spec_some_mirror_good(
                        entries@[i].hash,
                        responses@[i]@,
                    ) ==> (#[trigger] outcomes@[i]).success,
                forall|i: int|
                    0 <= i < outcomes@.len() && orig_ex[i] is Some && entries@[i].hash is Some
                        && spec_digest_ok(entries@[i].hash, spec_file_view(orig_ex[i]))
                        && entries@[i].urls@.len() > 0 ==> ((#[trigger] outcomes@[i]).success
                        && outcomes@[i].bytes_transferred == 0 && outcomes@[i].file
                        == orig_ex[i]),
                forall|k: int| 0 <= k <= trace@.len() ==> spec_running_at(trace@, k) <= limit,
                spec_running_at(trace@, trace@.len() as int) == sched.spec_running().len(),
                trace@.len() == sched.spec_next() + sched.spec_done().len(),
                oldev.is_prefix_of(events@),
            decreases wave_size - j,
        {
            let idx = wave_start + j;
            proof {
                assert(exq@[0] == orig_ex[idx as int]);
                lemma_batch_cost_nonneg(orig_ex, respv, idx as int + 1);
            }
            let ex = exq.remove(0);
            proof {
                assert(exq@ =~~= orig_ex.skip(idx as int + 1));
            }
            let ghost evb = events@;
            let outcome = run_fetch(
                &entries[idx],
                &responses[idx],
                ex,
                max_retries,
                global,
                events,
            );
            proof {
                crate::fetch::lemma_prefix_trans(oldev, evb, events@);
                crate::fetch::lemma_sum_bodies_nonneg(responses@[idx as int]@);
                assert(spec_batch_cost(orig_ex, respv, idx as int) == spec_entry_cost(
                    orig_ex[idx as int],
                    respv[idx as int]@,
                ) + spec_batch_cost(orig_ex, respv, idx as int + 1));
                assert(spec_file_view(outcome.file).len() <= spec_entry_cost(
                    orig_ex[idx as int],
                    respv[idx as int]@,
                ));
            }
            sched.finish(idx, outcome.success);
            let ghost oldtr = trace@;
            trace.push(BatchEvent::Finished(idx));
            proof {
                lemma_running_at_push(oldtr, BatchEvent::Finished(idx), oldtr.len() as int);
                assert(trace@[trace@.len() - 1] == BatchEvent::Finished(idx));
                assert(spec_running_at(trace@, trace@.len() as int) == spec_running_at(
                    oldtr,
                    oldtr.len() as int,
                ) - 1);
                assert forall|k: int|
                    0 <= k <= trace@.len() implies spec_running_at(trace@, k) <= limit by {
                    if k <= oldtr.len() {
                        lemma_running_at_push(oldtr, BatchEvent::Finished(idx), k);
                    } else {
                        lemma_running_at_push(oldtr, BatchEvent::Finished(idx), k - 1);
                    }
                }
            }
            let ghost oldout = outcomes@;
            outcomes.push(outcome);
            proof {
                assert(outcomes@.drop_last() =~= oldout);
                assert(spec_batch_credit(outcomes@) == spec_batch_credit(oldout) + (
                if outcome.success {
                    spec_file_view(outcome.file).len() as int
                } else {
                    0
                }));
            }
            j = j + 1;
        }
        proof {
            lemma_batch_cost_nonneg(orig_ex, respv, outcomes@.len() as int);
        }
    }
    let ghost evb2 = events@;
    events.push(ProgressEvent::AllDone);
    proof {
        assert(events@.subrange(0, oldev.len() as int) =~= evb2.subrange(0, oldev.len() as int));
    }
    (outcomes, trace)
}

/// Split a batch's outcomes into the indices that succeeded and the
/// indices that failed: disjoint, exhaustive, each in ascending order.
pub fn summary(outcomes: &Vec<DownloadOutcome>) -> (r: (Vec<usize>, Vec<usize>))
    ensures
        forall|j: int|
            0 <= j < r.0@.len() ==> (#[trigger] r.0@[j]) < outcomes@.len()
                && outcomes@[r.0@[j] as int].success,
        forall|j: int|
            0 <= j < r.1@.len() ==> (#[trigger] r.1@[j]) < outcomes@.len()
                && !outcomes@[r.1@[j] as int].success,
        r.0@.len() + r.1@.len() == outcomes@.len(),
        forall|i: int|
            0 <= i < outcomes@.len() && (#[trigger] outcomes@[i]).success ==> r.0@.contains(
                i as usize,
            ),
        forall|i: int|
            0 <= i < outcomes@.len() && !(#[trigger] outcomes@[i]).success ==> r.1@.contains(
                i as usize,
            ),
{
    let mut succ: Vec<usize> = Vec::new();
    let mut fail: Vec<usize> = Vec::new();
    let mut i: usize = 0;
    while i < outcomes.len()
        invariant
            i <= outcomes@.len(),
            forall|j: int|
                0 <= j < succ@.len() ==> (#[trigger] succ@[j]) < i && outcomes@[succ@[j] as int].success,
            forall|j: int|
                0 <= j < fail@.len() ==> (#[trigger] fail@[j]) < i && !outcomes@[fail@[j] as int].success,
            succ@.len() + fail@.len() == i,
            forall|k: int|
                0 <= k < i && (#[trigger] outcomes@[k]).success ==> succ@.contains(k as usize),
            forall|k: int|
                0 <= k < i && !(#[trigger] outcomes@[k]).success ==> fail@.contains(k as usize),
        decreases outcomes@.len() - i,
    {
        let ghost olds = succ@;
        let ghost oldf = fail@;
        if outcomes[i].success {
            succ.push(i);
        } else {
            fail.push(i);
        }
        proof {
            assert forall|k: int|
                0 <= k < i + 1 && (#[trigger] outcomes@[k]).success implies succ@.contains(
                    k as usize,
                ) by {
                if k < i {
                    let wit = choose|wit: int| 0 <= wit < olds.len() && olds[wit] == k as usize;
                    assert(succ@[wit] == k as usize);
                } else {
                    assert(succ@[succ@.len() - 1] == k as usize);
                }
            }
            assert forall|k: int|
                0 <= k < i + 1 && !(#[trigger] outcomes@[k]).success implies fail@.contains(
                    k as usize,
                ) by {
                if k < i {
                    let wit = choose|wit: int| 0 <= wit < oldf.len() && oldf[wit] == k as usize;
                    assert(fail@[wit] == k as usize);
                } else {
                    assert(fail@[fail@.len() - 1] == k as usize);
                }
            }
        }
        i = i + 1;
    }
    (succ, fail)
}

} // verus!
