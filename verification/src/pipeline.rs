use vstd::prelude::*;
use crate::sink::{Sink, hits, lemma_hits_push};
use crate::wallet::DerivedWallet;

verus! {

/// The pool of reusable worker-slot tokens that bounds how many derivations
/// run at once. A token is an integer id below the configured capacity; it
/// is either in this free pool or held by exactly one in-flight derivation.
pub struct SlotPool {
    pub capacity: usize,
    pub free: Vec<usize>,
}

impl SlotPool {
    /// Free tokens are distinct ids below the capacity.
    pub open spec fn wf(self) -> bool {
        &&& self.free@.no_duplicates()
        &&& forall|i: int| 0 <= i < self.free@.len() ==> self.free@[i] < self.capacity
        &&& self.free@.len() <= self.capacity
    }

    /// How many tokens are out with in-flight derivations.
    pub open spec fn busy(self) -> int {
        self.capacity - self.free@.len()
    }

    /// A pool pre-filled with the tokens `0 .. capacity`.
    pub fn new(capacity: usize) -> (r: SlotPool)
        ensures
            r.wf(),
            r.capacity == capacity,
            r.free@.len() == capacity,
            r.busy() == 0,
    {
        let mut free: Vec<usize> = Vec::new();
        let mut id: usize = 0;
        while id < capacity
            invariant
                id <= capacity,
                free@.len() == id,
                forall|j: int| 0 <= j < id ==> free@[j] == j,
            decreases capacity - id,
        {
            free.push(id);
            id = id + 1;
        }
        proof {
            assert forall|a: int, b: int| 0 <= a < b < free@.len() implies free@[a] != free@[b] by {
                assert(free@[a] == a);
                assert(free@[b] == b);
            }
        }
        SlotPool { capacity, free }
    }

    /// Takes one free token out of the pool, if any is free.
    pub fn acquire(&mut self) -> (r: Option<usize>)
        requires
            old(self).wf(),
        ensures
            final(self).wf(),
            final(self).capacity == old(self).capacity,
            old(self).free@.len() == 0 ==> r is None && final(self).free@ == old(self).free@,
            old(self).free@.len() > 0 ==> r == Some(old(self).free@.last()) && final(self).free@
                == old(self).free@.drop_last(),
    {
        self.free.pop()
    }

    /// Returns a token to the pool.
    pub fn release(&mut self, id: usize)
        requires
            old(self).wf(),
            id < old(self).capacity,
            !old(self).free@.contains(id),
            old(self).free@.len() < old(self).capacity,
        ensures
            final(self).wf(),
            final(self).capacity == old(self).capacity,
            final(self).free@ == old(self).free@.push(id),
    {
        let ghost before = self.free@;
        self.free.push(id);
        proof {
            assert(forall|k: int| 0 <= k < before.len() ==> #[trigger] before[k] != id);
        }
    }
}

/// What the candidate source did on one step.
#[derive(Debug, PartialEq, Eq)]
pub enum SourceAction {
    /// The candidate was emitted into the intake queue.
    Emitted,
    /// The cancellation flag was set, so the source emitted nothing and
    /// closed its output for good.
    Closed,
}

/// One dispatched derivation: the slot token it holds and the candidate it
/// is deriving. Candidates are carried as opaque tokens; the driver maps
/// each token to the real seed phrase it stands for.
pub struct InFlight {
    pub slot: usize,
    pub candidate: u64,
}

/// The state of the search pipeline, stepped sequentially: an intake queue
/// of bounded capacity fed by the candidate source, the free-slot pool, and
/// the set of in-flight derivations. The cancellation flag is set once by
/// the shutdown controller and only read by the source.
pub struct Pipeline {
    pub slots: SlotPool,
    pub cancelled: bool,
    pub source_closed: bool,
    pub intake: Vec<u64>,
    pub inflight: Vec<InFlight>,
}

impl Pipeline {
    /// Each in-flight derivation holds a distinct token.
    pub open spec fn inflight_distinct(self) -> bool {
        forall|a: int, b: int|
            0 <= a < b < self.inflight@.len() ==> self.inflight@[a].slot != self.inflight@[b].slot
    }

    /// No token is both free and held by an in-flight derivation.
    pub open spec fn inflight_disjoint_from_free(self) -> bool {
        forall|a: int, k: int|
            0 <= a < self.inflight@.len() && 0 <= k < self.slots.free@.len()
                ==> self.inflight@[a].slot != self.slots.free@[k]
    }

    /// The pipeline invariant: the intake queue is bounded by the worker
    /// count, every slot token is either free or held by exactly one
    /// in-flight derivation, and no token is duplicated or lost.
    pub open spec fn wf(self) -> bool {
        &&& self.slots.wf()
        &&& self.slots.capacity >= 1
        &&& self.intake@.len() <= self.slots.capacity
        &&& forall|a: int|
            0 <= a < self.inflight@.len() ==> self.inflight@[a].slot < self.slots.capacity
        &&& self.inflight_distinct()
        &&& self.inflight_disjoint_from_free()
        &&& self.slots.free@.len() + self.inflight@.len() == self.slots.capacity
    }

    /// A fresh pipeline with the given number of worker slots, nothing
    /// queued, nothing in flight, and the flag clear.
    pub fn new(workers: usize) -> (r: Pipeline)
        requires
            workers >= 1,
        ensures
            r.wf(),
            r.slots.capacity == workers,
            !r.cancelled,
            !r.source_closed,
            r.intake@.len() == 0,
            r.inflight@.len() == 0,
    {
        Pipeline {
            slots: SlotPool::new(workers),
            cancelled: false,
            source_closed: false,
            intake: Vec::new(),
            inflight: Vec::new(),
        }
    }

    /// The shutdown controller's only act: set the cancellation flag. It is
    /// idempotent and touches nothing else; already dispatched work drains
    /// normally.
    pub fn cancel(&mut self)
        ensures
            final(self).cancelled,
            final(self).source_closed == old(self).source_closed,
            final(self).slots == old(self).slots,
            final(self).intake == old(self).intake,
            final(self).inflight == old(self).inflight,
    {
        self.cancelled = true;
    }

    /// One step of the candidate source. The source checks the cancellation
    /// flag before emitting: if the flag is set it emits nothing and closes
    /// its output for good; otherwise it emits the candidate into the intake
    /// queue, whose bounded capacity is the caller's backpressure (the
    /// caller must wait for room before offering).
    pub fn source_offer(&mut self, candidate: u64) -> (r: SourceAction)
        requires
            old(self).wf(),
            !old(self).source_closed,
            old(self).cancelled || old(self).intake@.len() < old(self).slots.capacity,
        ensures
            final(self).wf(),
            final(self).cancelled == old(self).cancelled,
            final(self).slots == old(self).slots,
            final(self).inflight == old(self).inflight,
            old(self).cancelled ==> {
                &&& r == SourceAction::Closed
                &&& final(self).source_closed
                &&& final(self).intake == old(self).intake
            },
            !old(self).cancelled ==> {
                &&& r == SourceAction::Emitted
                &&& !final(self).source_closed
                &&& final(self).intake@ == old(self).intake@.push(candidate)
            },
    {
        if self.cancelled {
            self.source_closed = true;
            SourceAction::Closed
        } else {
            self.intake.push(candidate);
            SourceAction::Emitted
        }
    }

    /// One step of the dispatcher: if a candidate is queued and a slot token
    /// is free, the candidate leaves the front of the queue and goes in
    /// flight holding that token. Returns the token used, or nothing when
    /// either the queue is empty or every slot is busy (the concurrency cap).
    pub fn dispatch(&mut self) -> (r: Option<usize>)
        requires
            old(self).wf(),
        ensures
            final(self).wf(),
            final(self).cancelled == old(self).cancelled,
            final(self).source_closed == old(self).source_closed,
            final(self).slots.capacity == old(self).slots.capacity,
            old(self).intake@.len() > 0 && old(self).slots.free@.len() > 0 ==> {
                &&& r == Some(old(self).slots.free@.last())
                &&& final(self).intake@ == old(self).intake@.drop_first()
                &&& final(self).inflight@ == old(self).inflight@.push(
                    (InFlight {
                        slot: old(self).slots.free@.last(),
                        candidate: old(self).intake@[0],
                    }),
                )
                &&& final(self).slots.free@ == old(self).slots.free@.drop_last()
            },
            old(self).intake@.len() == 0 || old(self).slots.free@.len() == 0 ==> {
                &&& r is None
                &&& final(self).intake@ == old(self).intake@
                &&& final(self).inflight@ == old(self).inflight@
                &&& final(self).slots.free@ == old(self).slots.free@
            },
    {
        if self.intake.len() == 0 {
            return None;
        }
        let ghost before = *self;
        match self.slots.acquire() {
            Some(slot) => {
                let candidate = self.intake.remove(0);
                self.inflight.push(InFlight { slot, candidate });
                proof {
                    assert(before.slots.free@.drop_last().len() == before.slots.free@.len() - 1);
                    assert(self.intake@ =~= before.intake@.drop_first());
                    assert forall|a: int, b: int|
                        0 <= a < b < self.inflight@.len() implies self.inflight@[a].slot
                        != self.inflight@[b].slot by {
                        if b < before.inflight@.len() {
                            assert(before.inflight@[a].slot != before.inflight@[b].slot);
                        } else {
                            assert(self.inflight@[b].slot == before.slots.free@.last());
                            assert(before.inflight@[a].slot != before.slots.free@[
                            before.slots.free@.len() - 1]);
                        }
                    }
                    assert forall|a: int, k: int|
                        0 <= a < self.inflight@.len() && 0 <= k
                            < self.slots.free@.len() implies self.inflight@[a].slot
                        != self.slots.free@[k] by {
                        assert(self.slots.free@[k] == before.slots.free@[k]);
                        if a < before.inflight@.len() {
                            assert(before.inflight@[a].slot != before.slots.free@[k]);
                        } else {
                            assert(self.inflight@[a].slot == before.slots.free@.last());
                            assert(before.slots.free@.no_duplicates());
                        }
                    }
                }
                Some(slot)
            },
            None => None,
        }
    }

    /// Completion of the in-flight derivation at position `i`: its slot
    /// token returns to the free pool and its result is handed on for the
    /// sink, unchanged. Completion order is the caller's choice — results
    /// are emitted in completion order, not submission order — and the step
    /// does not look at the cancellation flag, so already dispatched work is
    /// always delivered.
    pub fn complete(&mut self, i: usize, wallet: DerivedWallet) -> (r: DerivedWallet)
        requires
            old(self).wf(),
            i < old(self).inflight@.len(),
        ensures
            final(self).wf(),
            r == wallet,
            final(self).cancelled == old(self).cancelled,
            final(self).source_closed == old(self).source_closed,
            final(self).intake == old(self).intake,
            final(self).slots.capacity == old(self).slots.capacity,
            final(self).inflight@ == old(self).inflight@.remove(i as int),
            final(self).slots.free@ == old(self).slots.free@.push(
                old(self).inflight@[i as int].slot,
            ),
    {
        let ghost before = *self;
        let entry = self.inflight.remove(i);
        proof {
            assert(entry == before.inflight@[i as int]);
            assert forall|k: int|
                0 <= k < self.slots.free@.len() implies self.slots.free@[k] != entry.slot by {
                assert(before.inflight@[i as int].slot != before.slots.free@[k]);
            }
            assert(!self.slots.free@.contains(entry.slot));
        }
        self.slots.release(entry.slot);
        wallet
    }
}

/// Law (slot conservation): in every reachable pipeline state the free and
/// busy slot tokens together are exactly the configured worker count, so the
/// number of in-flight derivations never exceeds that count.
pub proof fn lemma_in_flight_bounded(p: Pipeline)
    requires
        p.wf(),
    ensures
        p.slots.free@.len() + p.inflight@.len() == p.slots.capacity,
        p.inflight@.len() <= p.slots.capacity,
{
}

/// Law (no loss during shutdown): draining delivers everything. Completes
/// every in-flight derivation, front first, handing each given result to
/// the sink in that order. The cancellation flag plays no part: cooperative
/// shutdown only stops new candidates, and everything already dispatched is
/// still delivered and processed — afterwards nothing is in flight, every
/// slot token is back in the pool, and the sink has reported exactly the
/// results the selector accepts, in arrival order.
pub fn drain(p: &mut Pipeline, sink: &mut Sink, results: Vec<DerivedWallet>)
    requires
        old(p).wf(),
        results@.len() == old(p).inflight@.len(),
        forall|i: int| 0 <= i < results@.len() ==> (#[trigger] results@[i]).wf(),
        old(sink).count + results@.len() < u64::MAX,
    ensures
        final(p).wf(),
        final(p).inflight@.len() == 0,
        final(p).slots.free@.len() == final(p).slots.capacity,
        final(p).cancelled == old(p).cancelled,
        final(p).source_closed == old(p).source_closed,
        final(p).intake@ == old(p).intake@,
        final(sink).selector == old(sink).selector,
        final(sink).matched@ == old(sink).matched@ + hits(old(sink).selector, results@),
{
    let ghost orig = results@;
    let ghost sel = sink.selector;
    let ghost matched0 = sink.matched@;
    let ghost count0 = sink.count;
    let mut remaining = results;
    let ghost mut done: Seq<DerivedWallet> = Seq::empty();
    proof {
        assert(orig =~= done + remaining@);
        assert(hits(sel, done) =~= Seq::<DerivedWallet>::empty());
        assert(sink.matched@ =~= matched0 + hits(sel, done));
    }
    while remaining.len() > 0
        invariant
            p.wf(),
            sink.selector == sel,
            remaining@.len() == p.inflight@.len(),
            orig == done + remaining@,
            forall|i: int| 0 <= i < remaining@.len() ==> (#[trigger] remaining@[i]).wf(),
            p.cancelled == old(p).cancelled,
            p.source_closed == old(p).source_closed,
            p.intake@ == old(p).intake@,
            p.slots.capacity == old(p).slots.capacity,
            sink.count <= count0 + done.len(),
            count0 + orig.len() < u64::MAX,
            done.len() + remaining@.len() == orig.len(),
            sink.matched@ == matched0 + hits(sel, done),
        decreases remaining@.len(),
    {
        let ghost rem_before = remaining@;
        let w = remaining.remove(0);
        proof {
            assert(w == rem_before[0]);
            assert(w.wf());
        }
        let delivered = p.complete(0, w);
        let _ = sink.process(delivered);
        proof {
            lemma_hits_push(sel, done, w);
            if crate::selector::selector_matches(sel, w.address.data@) {
                assert(sink.matched@ =~= matched0 + hits(sel, done.push(w)));
            }
            done = done.push(w);
            assert(orig =~= done + remaining@);
        }
    }
    proof {
        assert(orig =~= done);
    }
}

/// How many worker slots to use: a requested positive count stands as it
/// is; a requested count of zero means one less than the available
/// parallelism.
pub fn effective_workers(requested: usize, available: usize) -> (r: usize)
    requires
        requested >= 1 || available >= 1,
    ensures
        requested >= 1 ==> r == requested,
        requested == 0 ==> r == available - 1,
{
    if requested < 1 {
        available - 1
    } else {
        requested
    }
}

} // verus!
