//! Round-robin scheduling policy: a FIFO queue of ready thread ids. The
//! least-recently-dispatched ready thread is picked first; ties are broken by
//! insertion order.

use crate::Tid;
use vstd::prelude::*;

verus! {

/// No thread id occurs twice in the queue.
pub open spec fn no_dup(s: Seq<Tid>) -> bool {
    forall|i: int, j: int| 0 <= i < j < s.len() ==> s[i] != s[j]
}

/// Which thread one dispatch picks from a ready queue: the head, if any.
pub open spec fn run_pick(ready: Seq<Tid>) -> Option<Tid> {
    if ready.len() == 0 {
        None
    } else {
        Some(ready[0])
    }
}

/// The ready queue one dispatch leaves behind.
pub open spec fn run_rest(ready: Seq<Tid>) -> Seq<Tid> {
    if ready.len() == 0 {
        ready
    } else {
        ready.drop_first()
    }
}

/// The ready queue after `n` consecutive dispatches with nothing added.
pub open spec fn ready_after_runs(ready: Seq<Tid>, n: nat) -> Seq<Tid>
    decreases n,
{
    if n == 0 {
        ready
    } else {
        run_rest(ready_after_runs(ready, (n - 1) as nat))
    }
}

/// Which thread dispatch number `n` (counting from zero) picks, when no
/// thread is added or woken in between.
pub open spec fn pick_of_run(ready: Seq<Tid>, n: nat) -> Option<Tid> {
    run_pick(ready_after_runs(ready, n))
}

/// After `n` dispatches the first `n` queue entries are gone and the rest
/// stand in their original order.
pub proof fn lemma_ready_after_runs(ready: Seq<Tid>, n: nat)
    requires
        n <= ready.len(),
    ensures
        ready_after_runs(ready, n) == ready.skip(n as int),
    decreases n,
{
    if n == 0 {
        assert(ready_after_runs(ready, 0) =~= ready.skip(0));
    } else {
        lemma_ready_after_runs(ready, (n - 1) as nat);
        assert(ready.skip(n as int - 1).drop_first() =~= ready.skip(n as int));
    }
}

/// Round-robin fairness: for threads queued ready and never blocking, a
/// sequence of dispatches returns them in FIFO order of insertion — dispatch
/// number `n` picks exactly the queue's `n`-th entry, so over `ready.len()`
/// dispatches every queued thread is picked exactly once before any thread
/// could be picked a second time.
pub proof fn lemma_round_robin_fairness(ready: Seq<Tid>, n: nat)
    requires
        n < ready.len(),
    ensures
        pick_of_run(ready, n) == Some(ready[n as int]),
        no_dup(ready) ==> forall|m: nat| m < n ==> pick_of_run(ready, m) != pick_of_run(ready, n),
{
    lemma_ready_after_runs(ready, n);
    assert(ready.skip(n as int)[0] == ready[n as int]);
    if no_dup(ready) {
        assert forall|m: nat| m < n implies pick_of_run(ready, m) != pick_of_run(ready, n) by {
            lemma_ready_after_runs(ready, m);
            assert(ready.skip(m as int)[0] == ready[m as int]);
        }
    }
}

/// The round-robin policy object: the FIFO ready queue plus the time-slice
/// length the policy was configured with (kept for dispatch accounting; the
/// current design never preempts, so it does not influence picks).
pub struct RRScheduler {
    pub ready: Vec<Tid>,
    pub max_time_slice: usize,
}

impl RRScheduler {
    /// A policy with an empty ready queue.
    pub fn new(max_time_slice: usize) -> (r: RRScheduler)
        ensures
            r.ready@.len() == 0,
            r.max_time_slice == max_time_slice,
    {
        RRScheduler { ready: Vec::new(), max_time_slice }
    }

    /// File `tid` as ready, behind every thread already waiting.
    pub fn push(&mut self, tid: Tid)
        ensures
            final(self).ready@ == old(self).ready@.push(tid),
            final(self).max_time_slice == old(self).max_time_slice,
    {
        self.ready.push(tid);
    }

    /// Pick the next thread: the least-recently-filed ready one.
    pub fn pop(&mut self) -> (r: Option<Tid>)
        ensures
            r == run_pick(old(self).ready@),
            final(self).ready@ == run_rest(old(self).ready@),
            final(self).max_time_slice == old(self).max_time_slice,
    {
        if self.ready.len() == 0 {
            None
        } else {
            let t = self.ready.remove(0);
            proof {
                assert(self.ready@ =~= old(self).ready@.drop_first());
            }
            Some(t)
        }
    }

    /// Take `tid` out of the ready queue (its first occurrence; under the
    /// pool's no-duplicates invariant, its only one). Every other entry keeps
    /// its place and order.
    pub fn remove_tid(&mut self, tid: Tid)
        requires
            no_dup(old(self).ready@),
        ensures
            final(self).max_time_slice == old(self).max_time_slice,
            no_dup(final(self).ready@),
            !final(self).ready@.contains(tid),
            !old(self).ready@.contains(tid) ==> final(self).ready == old(self).ready,
            old(self).ready@.contains(tid) ==> exists|k: int|
                0 <= k < old(self).ready@.len() && old(self).ready@[k] == tid
                    && final(self).ready@ == old(self).ready@.remove(k),
            forall|t: Tid|
                t != tid ==> (final(self).ready@.contains(t) <==> old(self).ready@.contains(t)),
    {
        let ghost s0 = self.ready@;
        let mut i: usize = 0;
        while i < self.ready.len() && self.ready[i] != tid
            invariant
                0 <= i <= self.ready@.len(),
                self.ready@ == s0,
                forall|j: int| 0 <= j < i ==> s0[j] != tid,
            decreases self.ready@.len() - i,
        {
            i = i + 1;
        }
        if i < self.ready.len() {
            self.ready.remove(i);
            proof {
                let s1 = self.ready@;
                assert(s0[i as int] == tid);
                assert(s0.contains(tid));
                assert(s1 == s0.remove(i as int));
                assert forall|a: int, b: int| 0 <= a < b < s1.len() implies s1[a] != s1[b] by {
                    let a0: int = if a < i { a } else { a + 1 };
                    let b0: int = if b < i { b } else { b + 1 };
                    assert(s1[a] == s0[a0] && s1[b] == s0[b0]);
                }
                assert forall|j: int| 0 <= j < s1.len() implies s1[j] != tid by {
                    let j0: int = if j < i { j } else { j + 1 };
                    assert(s1[j] == s0[j0]);
                }
                assert(!s1.contains(tid));
                assert forall|t: Tid| t != tid implies (s1.contains(t) <==> s0.contains(t)) by {
                    if s1.contains(t) {
                        let j = choose|j: int| 0 <= j < s1.len() && s1[j] == t;
                        let j0: int = if j < i { j } else { j + 1 };
                        assert(s0[j0] == t);
                    }
                    if s0.contains(t) {
                        let j0 = choose|j0: int| 0 <= j0 < s0.len() && s0[j0] == t;
                        let j: int = if j0 < i { j0 } else { j0 - 1 };
                        assert(s1[j] == t);
                    }
                }
            }
        } else {
            proof {
                assert(forall|j: int| 0 <= j < s0.len() ==> s0[j] != tid);
                assert(!s0.contains(tid));
            }
        }
    }
}

} // verus!
