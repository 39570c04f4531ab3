//! The central scheduler state: every thread's id, its suspended context and
//! its state, plus the round-robin policy object and the wake-up timer. This
//! is the only shared structure of the design; in the running system each
//! operation is committed under one pool-wide lock held only for the table
//! mutation, never across a context switch, so each operation here is a
//! single atomic step of the scheduling protocol.
//!
//! A live thread is, at any instant, in exactly one of these places: queued
//! ready (context stored, status `Ready`, id in the ready queue), running
//! (context checked out to exactly one processor), stored sleeping (context
//! stored, status `Sleeping`), or exited awaiting join (context dropped,
//! status `Exited`). The well-formedness predicate [`ThreadPool::wf`] pins
//! the parts of this invariant the pool itself can see, and every operation
//! preserves it.

use crate::Tid;
use crate::context::ContextImpl;
use crate::rr::{RRScheduler, no_dup, run_pick, run_rest};
use crate::timer::{Timer, TimerEvent, find_data, insertion_point, lemma_insertion_point};
use vstd::prelude::*;

verus! {

/// A thread's recorded state. A running thread keeps the status it had when
/// dispatched (`Ready`) until it sleeps or exits; `stop` files the context it
/// hands back according to this status.
#[derive(Clone, Copy, PartialEq, Eq, Structural, Debug)]
pub enum Status {
    /// Runnable (queued, or currently running under a processor).
    Ready,
    /// Off the ready set until a timer wake or an explicit wakeup.
    Sleeping,
    /// Finished with the recorded exit payload, retained until joined.
    Exited(usize),
}

/// Everything the pool records about one thread.
pub struct ThreadInfo {
    pub status: Status,
    /// The suspended context, `None` while the thread runs on a processor
    /// (or, once exited, forever).
    pub context: Option<ContextImpl>,
    /// Nobody will join this thread: clean it up as soon as it stops.
    pub detached: bool,
    /// A thread waiting to be woken when this one exits.
    pub waiter: Option<Tid>,
}

/// The scheduling table. Slot index is the thread id; ids grow monotonically
/// and a vacated slot is never reused, so a `Tid` stays unambiguous for the
/// lifetime of the system.
pub struct ThreadPool {
    pub slots: Vec<Option<ThreadInfo>>,
    pub scheduler: RRScheduler,
    pub timer: Timer,
    /// Number of cores the pool was sized for.
    pub max_cpus: usize,
}

impl ThreadPool {
    /// `t` names a thread the pool still tracks.
    pub open spec fn tid_live(&self, t: Tid) -> bool {
        t < self.slots@.len() && self.slots@[t as int] is Some
    }

    /// The record of a live thread.
    pub open spec fn info_of(&self, t: Tid) -> ThreadInfo
        recommends
            self.tid_live(t),
    {
        self.slots@[t as int].unwrap()
    }

    /// The recorded state of a live thread.
    pub open spec fn status_of(&self, t: Tid) -> Status
        recommends
            self.tid_live(t),
    {
        self.info_of(t).status
    }

    /// The pool holds a suspended context for `t`.
    pub open spec fn suspended(&self, t: Tid) -> bool {
        self.tid_live(t) && self.info_of(t).context is Some
    }

    /// `t`'s context is checked out: some processor is running it (or, if the
    /// status is already `Exited`, has just finished it and not yet stopped).
    pub open spec fn is_running(&self, t: Tid) -> bool {
        self.tid_live(t) && self.info_of(t).context is None
    }

    /// The scheduling-table invariant: the ready queue lists distinct live
    /// threads whose contexts are stored and whose status is `Ready` —
    /// never a thread that is running, sleeping or exited — an exited
    /// thread's context is gone for good, and the timer holds at most one
    /// wake condition per thread. This part holds at every step, even
    /// midway through a tick's wake-up drain.
    pub open spec fn wf_core(&self) -> bool {
        &&& no_dup(self.scheduler.ready@)
        &&& forall|i: int|
            0 <= i < self.scheduler.ready@.len() ==> {
                let t = #[trigger] self.scheduler.ready@[i];
                &&& self.tid_live(t)
                &&& self.status_of(t) is Ready
                &&& self.info_of(t).context is Some
            }
        &&& forall|t: Tid|
            #![trigger self.status_of(t)]
            self.tid_live(t) && self.status_of(t) is Exited ==> self.info_of(t).context is None
        &&& self.timer.wf()
        &&& self.timer.events_unique()
    }

    /// Well-formedness between operations: the table invariant, and every
    /// pending wake condition strictly in the future — no wake has silently
    /// passed its tick.
    pub open spec fn wf(&self) -> bool {
        &&& self.wf_core()
        &&& self.timer.events_future()
    }

    /// The table invariant looks only at the slots, the ready queue and
    /// the timer's order and payloads, so it survives any step that leaves
    /// those in place.
    proof fn lemma_wf_core_frame(a: ThreadPool, b: ThreadPool)
        requires
            a.wf_core(),
            b.slots@ == a.slots@,
            b.scheduler.ready@ == a.scheduler.ready@,
            b.timer.wf(),
            b.timer.events_unique(),
        ensures
            b.wf_core(),
    {
        assert forall|i: int|
            0 <= i < b.scheduler.ready@.len() implies {
            let t = #[trigger] b.scheduler.ready@[i];
            &&& b.tid_live(t)
            &&& b.status_of(t) is Ready
            &&& b.info_of(t).context is Some
        } by {
            let t = a.scheduler.ready@[i];
            assert(a.tid_live(t) && a.status_of(t) is Ready && a.info_of(t).context is Some);
        }
        assert forall|t: Tid|
            b.tid_live(t) && b.status_of(t) is Exited implies b.info_of(t).context is None by {
            assert(a.tid_live(t));
            assert(a.status_of(t) is Exited);
        }
    }

    /// A fresh pool around a scheduling policy, sized for `max_cpus` cores.
    pub fn new(scheduler: RRScheduler, max_cpus: usize) -> (r: ThreadPool)
        requires
            scheduler.ready@.len() == 0,
        ensures
            r.wf(),
            r.slots@.len() == 0,
            r.scheduler == scheduler,
            r.max_cpus == max_cpus,
            r.timer.tick == 0,
            r.timer.events@.len() == 0,
    {
        ThreadPool { slots: Vec::new(), scheduler, timer: Timer::new(), max_cpus }
    }

    /// Register a new thread: allocate the next id, record it ready with the
    /// given suspended context, and queue it behind every thread already
    /// ready.
    pub fn add(&mut self, context: ContextImpl) -> (tid: Tid)
        requires
            old(self).wf(),
        ensures
            final(self).wf(),
            tid == old(self).slots@.len(),
            !old(self).tid_live(tid),
            final(self).slots@ == old(self).slots@.push(
                Some(
                    ThreadInfo {
                        status: Status::Ready,
                        context: Some(context),
                        detached: false,
                        waiter: None,
                    },
                ),
            ),
            final(self).scheduler.ready@ == old(self).scheduler.ready@.push(tid),
            final(self).scheduler.max_time_slice == old(self).scheduler.max_time_slice,
            final(self).timer == old(self).timer,
            final(self).max_cpus == old(self).max_cpus,
    {
        let tid: Tid = self.slots.len();
        self.slots.push(
            Some(
                ThreadInfo {
                    status: Status::Ready,
                    context: Some(context),
                    detached: false,
                    waiter: None,
                },
            ),
        );
        self.scheduler.push(tid);
        proof {
            let r0 = old(self).scheduler.ready@;
            let r1 = self.scheduler.ready@;
            assert forall|i: int, j: int| 0 <= i < j < r1.len() implies r1[i] != r1[j] by {
                if j < r0.len() {
                } else {
                    assert(r1[j] == tid);
                    assert(old(self).tid_live(r0[i]));
                }
            }
            assert forall|i: int|
                0 <= i < r1.len() implies {
                let t = #[trigger] r1[i];
                &&& self.tid_live(t)
                &&& self.status_of(t) is Ready
                &&& self.info_of(t).context is Some
            } by {
                if i < r0.len() {
                    assert(old(self).tid_live(r0[i]));
                    assert(self.slots@[r1[i] as int] == old(self).slots@[r1[i] as int]);
                }
            }
            assert forall|t: Tid|
                self.tid_live(t) && self.status_of(t) is Exited implies self.info_of(
                t,
            ).context is None by {
                if t != tid {
                    assert(self.slots@[t as int] == old(self).slots@[t as int]);
                    assert(old(self).tid_live(t));
                    assert(old(self).status_of(t) is Exited);
                }
            }
        }
        tid
    }

    /// Dispatch: pick the next ready thread for the asking core and hand its
    /// context over. The picked thread is exactly [`run_pick`] of the ready
    /// queue — the least-recently-filed ready thread — so it was not running
    /// anywhere, and it leaves the ready set. Returns `None`, legitimately,
    /// when no thread is ready.
    pub fn run(&mut self, cpu_id: usize) -> (r: Option<(Tid, ContextImpl)>)
        requires
            old(self).wf(),
        ensures
            final(self).wf(),
            r is Some <==> old(self).scheduler.ready@.len() > 0,
            final(self).scheduler.ready@ == run_rest(old(self).scheduler.ready@),
            final(self).scheduler.max_time_slice == old(self).scheduler.max_time_slice,
            final(self).timer == old(self).timer,
            final(self).max_cpus == old(self).max_cpus,
            r is None ==> final(self).slots == old(self).slots,
            r is Some ==> ({
                let (tid, ctx) = r.unwrap();
                &&& Some(tid) == run_pick(old(self).scheduler.ready@)
                &&& old(self).tid_live(tid)
                &&& old(self).status_of(tid) is Ready
                &&& old(self).info_of(tid).context == Some(ctx)
                &&& final(self).slots@ == old(self).slots@.update(
                    tid as int,
                    Some(ThreadInfo { context: None, ..old(self).info_of(tid) }),
                )
                &&& !final(self).scheduler.ready@.contains(tid)
            }),
    {
        let picked = self.scheduler.pop();
        match picked {
            None => {
                proof {
                    Self::lemma_wf_core_frame(*old(self), *self);
                }
                None
            },
            Some(tid) => {
                proof {
                    assert(old(self).scheduler.ready@[0] == tid);
                    assert(old(self).tid_live(tid));
                }
                let mut taken: Option<ThreadInfo> = None;
                core::mem::swap(&mut taken, &mut self.slots[tid]);
                let info = taken.unwrap();
                let refiled = ThreadInfo {
                    status: info.status,
                    context: None,
                    detached: info.detached,
                    waiter: info.waiter,
                };
                self.slots[tid] = Some(refiled);
                let ctx = info.context.unwrap();
                proof {
                    assert(self.slots@ =~= old(self).slots@.update(tid as int, Some(refiled)));
                    let r0 = old(self).scheduler.ready@;
                    let r1 = self.scheduler.ready@;
                    assert(r1 =~= r0.drop_first());
                    assert forall|i: int| 0 <= i < r1.len() implies r1[i] != tid by {
                        assert(r1[i] == r0[i + 1]);
                        assert(r0[0] == tid);
                    }
                    assert(!r1.contains(tid));
                    assert forall|i: int|
                        0 <= i < r1.len() implies {
                        let t = #[trigger] r1[i];
                        &&& self.tid_live(t)
                        &&& self.status_of(t) is Ready
                        &&& self.info_of(t).context is Some
                    } by {
                        assert(r1[i] == r0[i + 1]);
                        assert(old(self).tid_live(r0[i + 1]));
                        assert(r1[i] != tid);
                    }
                    assert forall|t: Tid|
                        self.tid_live(t) && self.status_of(t) is Exited implies self.info_of(
                        t,
                    ).context is None by {
                        if t != tid {
                            assert(self.slots@[t as int] == old(self).slots@[t as int]);
                            assert(old(self).tid_live(t));
                            assert(old(self).status_of(t) is Exited);
                        }
                    }
                }
                Some((tid, ctx))
            },
        }
    }

    /// Re-file the context a processor hands back for a thread that stopped
    /// running. The thread's recorded status decides: still `Ready` — it only
    /// yielded, so it re-joins the back of the ready queue; `Sleeping` — the
    /// context is stored and the thread stays off the ready set until woken;
    /// `Exited` — the context is dropped, and a detached thread's whole
    /// record with it, while a joinable one keeps its exit payload for
    /// collection.
    pub fn stop(&mut self, tid: Tid, context: ContextImpl)
        requires
            old(self).wf(),
            old(self).is_running(tid),
        ensures
            final(self).wf(),
            final(self).timer == old(self).timer,
            final(self).max_cpus == old(self).max_cpus,
            final(self).scheduler.max_time_slice == old(self).scheduler.max_time_slice,
            old(self).status_of(tid) is Ready ==> {
                &&& final(self).slots@ == old(self).slots@.update(
                    tid as int,
                    Some(ThreadInfo { context: Some(context), ..old(self).info_of(tid) }),
                )
                &&& final(self).scheduler.ready@ == old(self).scheduler.ready@.push(tid)
            },
            old(self).status_of(tid) is Sleeping ==> {
                &&& final(self).slots@ == old(self).slots@.update(
                    tid as int,
                    Some(ThreadInfo { context: Some(context), ..old(self).info_of(tid) }),
                )
                &&& final(self).scheduler.ready == old(self).scheduler.ready
            },
            old(self).status_of(tid) is Exited ==> {
                &&& final(self).scheduler.ready == old(self).scheduler.ready
                &&& (old(self).info_of(tid).detached ==> final(self).slots@ == old(self).slots@.update(tid as int, None))
                &&& (!old(self).info_of(tid).detached ==> final(self).slots == old(self).slots)
            },
    {
        let ghost r0 = self.scheduler.ready@;
        proof {
            assert forall|i: int| 0 <= i < r0.len() implies r0[i] != tid by {
                assert(old(self).info_of(r0[i]).context is Some);
            }
        }
        let is_ready = match &self.slots[tid] {
            Some(info) => matches!(info.status, Status::Ready),
            None => false,
        };
        let is_exited = match &self.slots[tid] {
            Some(info) => matches!(info.status, Status::Exited(_)),
            None => false,
        };
        if is_exited {
            let detached = match &self.slots[tid] {
                Some(info) => info.detached,
                None => false,
            };
            if detached {
                self.slots[tid] = None;
                proof {
                    assert(self.slots@ =~= old(self).slots@.update(tid as int, None));
                }
            }
            proof {
                assert forall|i: int|
                    0 <= i < self.scheduler.ready@.len() implies {
                    let t = #[trigger] self.scheduler.ready@[i];
                    &&& self.tid_live(t)
                    &&& self.status_of(t) is Ready
                    &&& self.info_of(t).context is Some
                } by {
                    assert(self.scheduler.ready@[i] != tid);
                    assert(self.slots@[self.scheduler.ready@[i] as int] == old(self).slots@[self.scheduler.ready@[i] as int]);
                }
                assert forall|t: Tid|
                    self.tid_live(t) && self.status_of(t) is Exited implies self.info_of(
                    t,
                ).context is None by {
                    if t != tid {
                        assert(self.slots@[t as int] == old(self).slots@[t as int]);
                        assert(old(self).tid_live(t));
                        assert(old(self).status_of(t) is Exited);
                    } else {
                        assert(old(self).info_of(tid).context is None);
                    }
                }
            }
            return ;
        }
        let mut taken: Option<ThreadInfo> = None;
        core::mem::swap(&mut taken, &mut self.slots[tid]);
        let info = taken.unwrap();
        let refiled = ThreadInfo {
            status: info.status,
            context: Some(context),
            detached: info.detached,
            waiter: info.waiter,
        };
        self.slots[tid] = Some(refiled);
        proof {
            assert(self.slots@ =~= old(self).slots@.update(tid as int, Some(refiled)));
        }
        if is_ready {
            self.scheduler.push(tid);
        }
        proof {
            let r1 = self.scheduler.ready@;
            assert forall|i: int, j: int| 0 <= i < j < r1.len() implies r1[i] != r1[j] by {
                if j < r0.len() {
                } else {
                    assert(r1[j] == tid && r1[i] == r0[i]);
                }
            }
            assert forall|i: int|
                0 <= i < r1.len() implies {
                let t = #[trigger] r1[i];
                &&& self.tid_live(t)
                &&& self.status_of(t) is Ready
                &&& self.info_of(t).context is Some
            } by {
                if i < r0.len() {
                    assert(r1[i] == r0[i] && r0[i] != tid);
                    assert(self.slots@[r1[i] as int] == old(self).slots@[r1[i] as int]);
                } else {
                    assert(r1[i] == tid);
                }
            }
            assert forall|t: Tid|
                self.tid_live(t) && self.status_of(t) is Exited implies self.info_of(
                t,
            ).context is None by {
                if t != tid {
                    assert(self.slots@[t as int] == old(self).slots@[t as int]);
                    assert(old(self).tid_live(t));
                    assert(old(self).status_of(t) is Exited);
                }
            }
        }
    }

    /// What the timer queue holds after a thread's pending wake condition,
    /// if any, is cancelled.
    pub open spec fn events_cleared_of(events: Seq<TimerEvent>, tid: Tid) -> Seq<TimerEvent> {
        if find_data(events, tid) < events.len() {
            events.remove(find_data(events, tid))
        } else {
            events
        }
    }

    /// Mark a thread sleeping. Any earlier wake condition of the thread is
    /// cancelled first, so the thread has at most one on file; with
    /// `ticks > 0` a fresh wake event is filed that many ticks in the
    /// future (timed sleep), and with `ticks == 0` the thread parks
    /// indefinitely, woken only by an explicit [`ThreadPool::wakeup`]. The
    /// thread leaves the ready set at once; a running thread keeps
    /// executing until it yields, at which point [`ThreadPool::stop`] files
    /// it as sleeping.
    pub fn sleep(&mut self, tid: Tid, ticks: usize)
        requires
            old(self).wf(),
            old(self).tid_live(tid),
            !(old(self).status_of(tid) is Exited),
            old(self).timer.tick + ticks <= usize::MAX,
        ensures
            final(self).wf(),
            final(self).max_cpus == old(self).max_cpus,
            final(self).scheduler.max_time_slice == old(self).scheduler.max_time_slice,
            final(self).slots@ == old(self).slots@.update(
                tid as int,
                Some(ThreadInfo { status: Status::Sleeping, ..old(self).info_of(tid) }),
            ),
            !final(self).scheduler.ready@.contains(tid),
            forall|t: Tid|
                t != tid ==> (final(self).scheduler.ready@.contains(t) <==> old(self).scheduler.ready@.contains(t)),
            no_dup(final(self).scheduler.ready@),
            final(self).timer.tick == old(self).timer.tick,
            ticks > 0 ==> final(self).timer.events@ == Self::events_cleared_of(
                old(self).timer.events@,
                tid,
            ).insert(
                insertion_point(
                    Self::events_cleared_of(old(self).timer.events@, tid),
                    (old(self).timer.tick + ticks) as usize,
                ),
                TimerEvent { time: (old(self).timer.tick + ticks) as usize, data: tid },
            ),
            ticks > 0 ==> final(self).timer.events@.contains(
                TimerEvent { time: (old(self).timer.tick + ticks) as usize, data: tid },
            ),
            ticks == 0 ==> final(self).timer.events@ == Self::events_cleared_of(
                old(self).timer.events@,
                tid,
            ),
    {
        self.timer.stop(tid);
        self.scheduler.remove_tid(tid);
        let mut taken: Option<ThreadInfo> = None;
        core::mem::swap(&mut taken, &mut self.slots[tid]);
        let info = taken.unwrap();
        let refiled = ThreadInfo {
            status: Status::Sleeping,
            context: info.context,
            detached: info.detached,
            waiter: info.waiter,
        };
        self.slots[tid] = Some(refiled);
        proof {
            assert(self.slots@ =~= old(self).slots@.update(tid as int, Some(refiled)));
        }
        if ticks > 0 {
            let ghost cleared = self.timer.events@;
            self.timer.start(ticks, tid);
            proof {
                let time = (old(self).timer.tick + ticks) as usize;
                let ev = TimerEvent { time, data: tid };
                let ip = insertion_point(cleared, time);
                lemma_insertion_point(cleared, time);
                assert(self.timer.events@[ip] == ev);
                assert(self.timer.events@.contains(ev));
            }
        }
        proof {
            let r1 = self.scheduler.ready@;
            assert forall|i: int|
                0 <= i < r1.len() implies {
                let t = #[trigger] r1[i];
                &&& self.tid_live(t)
                &&& self.status_of(t) is Ready
                &&& self.info_of(t).context is Some
            } by {
                assert(r1.contains(r1[i]));
                assert(r1[i] != tid);
                assert(old(self).scheduler.ready@.contains(r1[i]));
                let k = choose|k: int|
                    0 <= k < old(self).scheduler.ready@.len() && old(self).scheduler.ready@[k]
                        == r1[i];
                assert(old(self).tid_live(r1[i]));
                assert(self.slots@[r1[i] as int] == old(self).slots@[r1[i] as int]);
            }
            assert forall|t: Tid|
                self.tid_live(t) && self.status_of(t) is Exited implies self.info_of(
                t,
            ).context is None by {
                if t != tid {
                    assert(self.slots@[t as int] == old(self).slots@[t as int]);
                    assert(old(self).tid_live(t));
                    assert(old(self).status_of(t) is Exited);
                }
            }
        }
    }

    /// Wake a thread: sleeping becomes ready again, whatever its wake
    /// condition was, and any pending timer event for it is cancelled. If its
    /// context is stored it re-joins the ready queue; if it is still checked
    /// out (it sleeps but has not yet yielded), the status change alone makes
    /// the eventual [`ThreadPool::stop`] re-queue it. Waking a thread that is
    /// not sleeping changes nothing but the timer.
    pub fn wakeup(&mut self, tid: Tid)
        requires
            old(self).wf_core(),
        ensures
            final(self).wf_core(),
            old(self).wf() ==> final(self).wf(),
            final(self).max_cpus == old(self).max_cpus,
            final(self).scheduler.max_time_slice == old(self).scheduler.max_time_slice,
            final(self).timer.tick == old(self).timer.tick,
            final(self).timer.events@ == if find_data(old(self).timer.events@, tid) < old(self).timer.events@.len() {
                old(self).timer.events@.remove(find_data(old(self).timer.events@, tid))
            } else {
                old(self).timer.events@
            },
            old(self).tid_live(tid) && old(self).status_of(tid) is Sleeping ==> {
                &&& final(self).slots@ == old(self).slots@.update(
                    tid as int,
                    Some(ThreadInfo { status: Status::Ready, ..old(self).info_of(tid) }),
                )
                &&& (old(self).info_of(tid).context is Some ==> final(self).scheduler.ready@ == old(self).scheduler.ready@.push(tid))
                &&& (old(self).info_of(tid).context is None ==> final(self).scheduler.ready == old(self).scheduler.ready)
            },
            !(old(self).tid_live(tid) && old(self).status_of(tid) is Sleeping) ==> {
                &&& final(self).slots == old(self).slots
                &&& final(self).scheduler.ready == old(self).scheduler.ready
            },
    {
        self.timer.stop(tid);
        let is_sleeping = if tid < self.slots.len() {
            match &self.slots[tid] {
                Some(info) => matches!(info.status, Status::Sleeping),
                None => false,
            }
        } else {
            false
        };
        if !is_sleeping {
            proof {
                Self::lemma_wf_core_frame(*old(self), *self);
            }
            return ;
        }
        let ghost r0 = self.scheduler.ready@;
        proof {
            assert forall|i: int| 0 <= i < r0.len() implies r0[i] != tid by {
                assert(old(self).status_of(r0[i]) is Ready);
            }
        }
        let mut taken: Option<ThreadInfo> = None;
        core::mem::swap(&mut taken, &mut self.slots[tid]);
        let info = taken.unwrap();
        let has_ctx = info.context.is_some();
        let refiled = ThreadInfo {
            status: Status::Ready,
            context: info.context,
            detached: info.detached,
            waiter: info.waiter,
        };
        self.slots[tid] = Some(refiled);
        proof {
            assert(self.slots@ =~= old(self).slots@.update(tid as int, Some(refiled)));
        }
        if has_ctx {
            self.scheduler.push(tid);
        }
        proof {
            let r1 = self.scheduler.ready@;
            assert forall|i: int, j: int| 0 <= i < j < r1.len() implies r1[i] != r1[j] by {
                if j < r0.len() {
                } else {
                    assert(r1[j] == tid && r1[i] == r0[i]);
                }
            }
            assert forall|i: int|
                0 <= i < r1.len() implies {
                let t = #[trigger] r1[i];
                &&& self.tid_live(t)
                &&& self.status_of(t) is Ready
                &&& self.info_of(t).context is Some
            } by {
                if i < r0.len() {
                    assert(r1[i] == r0[i] && r0[i] != tid);
                    assert(self.slots@[r1[i] as int] == old(self).slots@[r1[i] as int]);
                } else {
                    assert(r1[i] == tid);
                }
            }
            assert forall|t: Tid|
                self.tid_live(t) && self.status_of(t) is Exited implies self.info_of(
                t,
            ).context is None by {
                if t != tid {
                    assert(self.slots@[t as int] == old(self).slots@[t as int]);
                    assert(old(self).tid_live(t));
                    assert(old(self).status_of(t) is Exited);
                }
            }
        }
    }

    /// Record that a running thread has finished with the given result
    /// payload. The payload is retained until collected by
    /// [`ThreadPool::try_remove`] (or discarded on stop if the thread is
    /// detached), and a registered waiter is woken so its join can re-check.
    pub fn exit(&mut self, tid: Tid, code: usize)
        requires
            old(self).wf(),
            old(self).is_running(tid),
            !(old(self).status_of(tid) is Exited),
        ensures
            final(self).wf(),
            final(self).max_cpus == old(self).max_cpus,
            final(self).scheduler.max_time_slice == old(self).scheduler.max_time_slice,
            final(self).tid_live(tid),
            final(self).info_of(tid) == (ThreadInfo {
                status: Status::Exited(code),
                context: None,
                detached: old(self).info_of(tid).detached,
                waiter: None,
            }),
            final(self).timer.tick == old(self).timer.tick,
            forall|t: Tid|
                t < old(self).slots@.len() && t != tid && !(old(self).info_of(tid).waiter == Some(
                    t,
                )) ==> final(self).slots@[t as int] == old(self).slots@[t as int],
            final(self).slots@.len() == old(self).slots@.len(),
            old(self).info_of(tid).waiter is None ==> {
                &&& final(self).scheduler.ready == old(self).scheduler.ready
                &&& final(self).timer == old(self).timer
            },
            old(self).info_of(tid).waiter matches Some(w) ==> ((w != tid && old(self).tid_live(w)
                && old(self).status_of(w) is Sleeping && old(self).info_of(w).context is Some) ==> {
                &&& final(self).tid_live(w)
                &&& final(self).status_of(w) is Ready
                &&& final(self).scheduler.ready@ == old(self).scheduler.ready@.push(w)
            }),
    {
        let ghost r0 = self.scheduler.ready@;
        proof {
            assert forall|i: int| 0 <= i < r0.len() implies r0[i] != tid by {
                assert(old(self).info_of(r0[i]).context is Some);
            }
        }
        let mut taken: Option<ThreadInfo> = None;
        core::mem::swap(&mut taken, &mut self.slots[tid]);
        let info = taken.unwrap();
        let waiter = info.waiter;
        let refiled = ThreadInfo {
            status: Status::Exited(code),
            context: None,
            detached: info.detached,
            waiter: None,
        };
        self.slots[tid] = Some(refiled);
        proof {
            assert(self.slots@ =~= old(self).slots@.update(tid as int, Some(refiled)));
            let r1 = self.scheduler.ready@;
            assert forall|i: int|
                0 <= i < r1.len() implies {
                let t = #[trigger] r1[i];
                &&& self.tid_live(t)
                &&& self.status_of(t) is Ready
                &&& self.info_of(t).context is Some
            } by {
                assert(r1[i] != tid);
                assert(self.slots@[r1[i] as int] == old(self).slots@[r1[i] as int]);
            }
            assert forall|t: Tid|
                self.tid_live(t) && self.status_of(t) is Exited implies self.info_of(
                t,
            ).context is None by {
                if t != tid {
                    assert(self.slots@[t as int] == old(self).slots@[t as int]);
                    assert(old(self).tid_live(t));
                    assert(old(self).status_of(t) is Exited);
                }
            }
        }
        match waiter {
            None => {},
            Some(w) => {
                let ghost m = *self;
                self.wakeup(w);
                proof {
                    if w == tid {
                        assert(m.status_of(w) is Exited);
                        assert(self.slots == m.slots);
                    } else {
                        if m.tid_live(w) && m.status_of(w) is Sleeping {
                            assert(self.slots@[tid as int] == m.slots@[tid as int]);
                        }
                        if old(self).tid_live(w) && old(self).status_of(w) is Sleeping && old(self).info_of(w).context is Some {
                            assert(m.slots@[w as int] == old(self).slots@[w as int]);
                            assert(m.tid_live(w) && m.status_of(w) is Sleeping && m.info_of(
                                w,
                            ).context is Some);
                        }
                    }
                    assert forall|t: Tid|
                        t < old(self).slots@.len() && t != tid && !(old(self).info_of(tid).waiter
                            == Some(t)) implies self.slots@[t as int] == old(self).slots@[t as int] by {
                        assert(m.slots@[t as int] == old(self).slots@[t as int]);
                    }
                }
            },
        }
    }

    /// What a join attempt on `t` collects from pool `p`: the exit payload,
    /// exactly when `t` is recorded exited.
    pub open spec fn try_remove_pick(p: ThreadPool, t: Tid) -> Option<usize> {
        if p.tid_live(t) && p.status_of(t) is Exited {
            match p.status_of(t) {
                Status::Exited(code) => Some(code),
                _ => None,
            }
        } else {
            None
        }
    }

    /// Non-blocking join attempt: if the thread has exited, remove its whole
    /// record and hand back the exit payload; otherwise change nothing and
    /// return `None`. Succeeds exactly once: the removal makes every later
    /// attempt return `None` again.
    pub fn try_remove(&mut self, tid: Tid) -> (r: Option<usize>)
        requires
            old(self).wf(),
        ensures
            final(self).wf(),
            r == Self::try_remove_pick(*old(self), tid),
            r is Some ==> final(self).slots@ == old(self).slots@.update(tid as int, None),
            r is None ==> final(self).slots == old(self).slots,
            final(self).scheduler == old(self).scheduler,
            final(self).timer == old(self).timer,
            final(self).max_cpus == old(self).max_cpus,
            r is Some ==> !final(self).tid_live(tid),
    {
        if tid >= self.slots.len() {
            return None;
        }
        let code_opt = match &self.slots[tid] {
            Some(info) => match info.status {
                Status::Exited(code) => Some(code),
                _ => None,
            },
            None => None,
        };
        match code_opt {
            None => None,
            Some(code) => {
                proof {
                    assert forall|i: int|
                        0 <= i < self.scheduler.ready@.len() implies self.scheduler.ready@[i]
                        != tid by {
                        assert(old(self).status_of(self.scheduler.ready@[i]) is Ready);
                    }
                }
                self.slots[tid] = None;
                proof {
                    assert(self.slots@ =~= old(self).slots@.update(tid as int, None));
                    assert forall|i: int|
                        0 <= i < self.scheduler.ready@.len() implies {
                        let t = #[trigger] self.scheduler.ready@[i];
                        &&& self.tid_live(t)
                        &&& self.status_of(t) is Ready
                        &&& self.info_of(t).context is Some
                    } by {
                        assert(self.scheduler.ready@[i] != tid);
                        assert(self.slots@[self.scheduler.ready@[i] as int] == old(self).slots@[self.scheduler.ready@[i] as int]);
                    }
                    assert forall|t: Tid|
                        self.tid_live(t) && self.status_of(t) is Exited implies self.info_of(
                        t,
                    ).context is None by {
                        assert(t != tid);
                        assert(self.slots@[t as int] == old(self).slots@[t as int]);
                        assert(old(self).tid_live(t));
                        assert(old(self).status_of(t) is Exited);
                    }
                }
                Some(code)
            },
        }
    }

    /// Register that `waiting` wants to be woken when `target` exits. If
    /// `target` is already gone or already exited, nothing is recorded — the
    /// joiner's next [`ThreadPool::try_remove`] will succeed anyway.
    pub fn wait(&mut self, waiting: Tid, target: Tid)
        requires
            old(self).wf(),
        ensures
            final(self).wf(),
            final(self).scheduler == old(self).scheduler,
            final(self).timer == old(self).timer,
            final(self).max_cpus == old(self).max_cpus,
            old(self).tid_live(target) && !(old(self).status_of(target) is Exited) ==> final(self).slots@ == old(self).slots@.update(
                target as int,
                Some(ThreadInfo { waiter: Some(waiting), ..old(self).info_of(target) }),
            ),
            !(old(self).tid_live(target) && !(old(self).status_of(target) is Exited)) ==> final(self).slots == old(self).slots,
    {
        if target >= self.slots.len() {
            return ;
        }
        let eligible = match &self.slots[target] {
            Some(info) => !matches!(info.status, Status::Exited(_)),
            None => false,
        };
        if !eligible {
            return ;
        }
        let mut taken: Option<ThreadInfo> = None;
        core::mem::swap(&mut taken, &mut self.slots[target]);
        let info = taken.unwrap();
        let refiled = ThreadInfo {
            status: info.status,
            context: info.context,
            detached: info.detached,
            waiter: Some(waiting),
        };
        self.slots[target] = Some(refiled);
        proof {
            assert(self.slots@ =~= old(self).slots@.update(target as int, Some(refiled)));
            assert forall|i: int|
                0 <= i < self.scheduler.ready@.len() implies {
                let t = #[trigger] self.scheduler.ready@[i];
                &&& self.tid_live(t)
                &&& self.status_of(t) is Ready
                &&& self.info_of(t).context is Some
            } by {
                if self.scheduler.ready@[i] != target {
                    assert(self.slots@[self.scheduler.ready@[i] as int] == old(self).slots@[self.scheduler.ready@[i] as int]);
                } else {
                    assert(old(self).status_of(target) is Ready);
                }
            }
            assert forall|t: Tid|
                self.tid_live(t) && self.status_of(t) is Exited implies self.info_of(
                t,
            ).context is None by {
                if t != target {
                    assert(self.slots@[t as int] == old(self).slots@[t as int]);
                    assert(old(self).tid_live(t));
                    assert(old(self).status_of(t) is Exited);
                }
            }
        }
    }

    /// Declare that nobody will ever join `tid`. An already-exited thread is
    /// cleaned up immediately; a live one is marked so that its eventual stop
    /// discards the record instead of retaining the exit payload.
    pub fn detach(&mut self, tid: Tid)
        requires
            old(self).wf(),
        ensures
            final(self).wf(),
            final(self).scheduler == old(self).scheduler,
            final(self).timer == old(self).timer,
            final(self).max_cpus == old(self).max_cpus,
            old(self).tid_live(tid) && old(self).status_of(tid) is Exited ==> final(self).slots@
                == old(self).slots@.update(tid as int, None),
            old(self).tid_live(tid) && !(old(self).status_of(tid) is Exited) ==> final(self).slots@
                == old(self).slots@.update(
                tid as int,
                Some(ThreadInfo { detached: true, ..old(self).info_of(tid) }),
            ),
            !old(self).tid_live(tid) ==> final(self).slots == old(self).slots,
    {
        if tid >= self.slots.len() {
            return ;
        }
        let state = match &self.slots[tid] {
            Some(info) => {
                if matches!(info.status, Status::Exited(_)) {
                    2
                } else {
                    1
                }
            },
            None => 0,
        };
        if state == 0 {
            return ;
        }
        if state == 2 {
            proof {
                assert forall|i: int|
                    0 <= i < self.scheduler.ready@.len() implies self.scheduler.ready@[i] != tid by {
                    assert(old(self).status_of(self.scheduler.ready@[i]) is Ready);
                }
            }
            self.slots[tid] = None;
            proof {
                assert(self.slots@ =~= old(self).slots@.update(tid as int, None));
                assert forall|i: int|
                    0 <= i < self.scheduler.ready@.len() implies {
                    let t = #[trigger] self.scheduler.ready@[i];
                    &&& self.tid_live(t)
                    &&& self.status_of(t) is Ready
                    &&& self.info_of(t).context is Some
                } by {
                    assert(self.scheduler.ready@[i] != tid);
                    assert(self.slots@[self.scheduler.ready@[i] as int] == old(self).slots@[self.scheduler.ready@[i] as int]);
                }
                assert forall|t: Tid|
                    self.tid_live(t) && self.status_of(t) is Exited implies self.info_of(
                    t,
                ).context is None by {
                    assert(t != tid);
                    assert(self.slots@[t as int] == old(self).slots@[t as int]);
                    assert(old(self).tid_live(t));
                    assert(old(self).status_of(t) is Exited);
                }
            }
            return ;
        }
        let mut taken: Option<ThreadInfo> = None;
        core::mem::swap(&mut taken, &mut self.slots[tid]);
        let info = taken.unwrap();
        let refiled = ThreadInfo {
            status: info.status,
            context: info.context,
            detached: true,
            waiter: info.waiter,
        };
        self.slots[tid] = Some(refiled);
        proof {
            assert(self.slots@ =~= old(self).slots@.update(tid as int, Some(refiled)));
            assert forall|i: int|
                0 <= i < self.scheduler.ready@.len() implies {
                let t = #[trigger] self.scheduler.ready@[i];
                &&& self.tid_live(t)
                &&& self.status_of(t) is Ready
                &&& self.info_of(t).context is Some
            } by {
                if self.scheduler.ready@[i] != tid {
                    assert(self.slots@[self.scheduler.ready@[i] as int] == old(self).slots@[self.scheduler.ready@[i] as int]);
                } else {
                    assert(old(self).status_of(tid) is Ready);
                }
            }
            assert forall|t: Tid|
                self.tid_live(t) && self.status_of(t) is Exited implies self.info_of(
                t,
            ).context is None by {
                if t != tid {
                    assert(self.slots@[t as int] == old(self).slots@[t as int]);
                    assert(old(self).tid_live(t));
                    assert(old(self).status_of(t) is Exited);
                }
            }
        }
    }

    /// One pool-observed tick: advance the counter and wake every sleeper
    /// whose timed wake condition falls due now. Thread records change only
    /// from `Sleeping` to `Ready`, and only for a thread whose wake
    /// condition was due at the new tick; every such due sleeper *is* woken
    /// (re-queued at once when its context is stored); and the wake
    /// conditions that survive are exactly those not yet due.
    pub fn tick(&mut self)
        requires
            old(self).wf(),
            old(self).timer.tick < usize::MAX,
        ensures
            final(self).wf(),
            final(self).timer.tick == old(self).timer.tick + 1,
            final(self).max_cpus == old(self).max_cpus,
            final(self).scheduler.max_time_slice == old(self).scheduler.max_time_slice,
            final(self).slots@.len() == old(self).slots@.len(),
            forall|t: Tid| final(self).tid_live(t) <==> old(self).tid_live(t),
            forall|t: Tid|
                #![trigger final(self).info_of(t)]
                old(self).tid_live(t) ==> {
                    &&& final(self).info_of(t).context == old(self).info_of(t).context
                    &&& final(self).info_of(t).detached == old(self).info_of(t).detached
                    &&& final(self).info_of(t).waiter == old(self).info_of(t).waiter
                    &&& (final(self).status_of(t) == old(self).status_of(t) || (old(self).status_of(t) is Sleeping && final(self).status_of(t) is Ready))
                },
            forall|t: Tid|
                old(self).scheduler.ready@.contains(t) ==> final(self).scheduler.ready@.contains(t),
            forall|t: Tid|
                old(self).tid_live(t) && old(self).status_of(t) is Sleeping && final(self).status_of(t) is Ready ==> old(self).timer.events@.contains(
                    TimerEvent { time: (old(self).timer.tick + 1) as usize, data: t },
                ),
            forall|t: Tid|
                old(self).tid_live(t) && old(self).status_of(t) is Sleeping && old(self).timer.events@.contains(
                    TimerEvent { time: (old(self).timer.tick + 1) as usize, data: t },
                ) ==> final(self).status_of(t) is Ready && (old(self).info_of(t).context is Some
                    ==> final(self).scheduler.ready@.contains(t)),
            forall|j: int|
                0 <= j < final(self).timer.events@.len() ==> old(self).timer.events@.contains(
                    #[trigger] final(self).timer.events@[j],
                ) && final(self).timer.events@[j].time > old(self).timer.tick + 1,
            forall|j: int|
                0 <= j < old(self).timer.events@.len() && (#[trigger] old(self).timer.events@[j]).time != old(self).timer.tick + 1 ==> final(self).timer.events@.contains(
                    old(self).timer.events@[j],
                ),
    {
        self.timer.tick();
        proof {
            Self::lemma_wf_core_frame(*old(self), *self);
            assert forall|j: int|
                0 <= j < self.timer.events@.len() implies self.timer.events@[j].time
                >= self.timer.tick && old(self).timer.events@.contains(
                #[trigger] self.timer.events@[j],
            ) by {
                assert(old(self).timer.events@[j].time > old(self).timer.tick);
            }
        }
        loop
            invariant
                self.wf_core(),
                self.timer.tick == old(self).timer.tick + 1,
                self.max_cpus == old(self).max_cpus,
                self.scheduler.max_time_slice == old(self).scheduler.max_time_slice,
                self.slots@.len() == old(self).slots@.len(),
                forall|t: Tid| self.tid_live(t) <==> old(self).tid_live(t),
                forall|t: Tid|
                    #![trigger self.info_of(t)]
                    old(self).tid_live(t) ==> {
                        &&& self.info_of(t).context == old(self).info_of(t).context
                        &&& self.info_of(t).detached == old(self).info_of(t).detached
                        &&& self.info_of(t).waiter == old(self).info_of(t).waiter
                        &&& (self.status_of(t) == old(self).status_of(t) || (old(self).status_of(t) is Sleeping && self.status_of(t) is Ready))
                    },
                forall|t: Tid|
                    old(self).scheduler.ready@.contains(t) ==> self.scheduler.ready@.contains(t),
                forall|j: int|
                    0 <= j < self.timer.events@.len() ==> old(self).timer.events@.contains(
                        #[trigger] self.timer.events@[j],
                    ) && self.timer.events@[j].time >= self.timer.tick,
                forall|t: Tid|
                    old(self).tid_live(t) && old(self).status_of(t) is Sleeping && self.status_of(t) is Ready ==> old(self).timer.events@.contains(
                        TimerEvent { time: self.timer.tick as usize, data: t },
                    ),
                forall|j: int|
                    0 <= j < old(self).timer.events@.len() && (#[trigger] old(self).timer.events@[j]).time != old(self).timer.tick + 1 ==> self.timer.events@.contains(
                        old(self).timer.events@[j],
                    ),
                forall|t: Tid|
                    #![trigger old(self).status_of(t)]
                    old(self).tid_live(t) && old(self).status_of(t) is Sleeping && old(self).timer.events@.contains(
                        TimerEvent { time: (old(self).timer.tick + 1) as usize, data: t },
                    ) ==> (self.status_of(t) is Ready && (old(self).info_of(t).context is Some
                        ==> self.scheduler.ready@.contains(t))) || (self.timer.events@.contains(
                        TimerEvent { time: (old(self).timer.tick + 1) as usize, data: t },
                    ) && self.status_of(t) is Sleeping),
            ensures
                forall|j: int|
                    0 <= j < self.timer.events@.len() ==> (#[trigger] self.timer.events@[j]).time
                        > self.timer.tick,
            decreases self.timer.events@.len(),
        {
            let ghost at_head = *self;
            let due = self.timer.pop();
            proof {
                Self::lemma_wf_core_frame(at_head, *self);
            }
            match due {
                None => {
                    proof {
                        // the head was not due, so by sorted order nothing is:
                        // every survivor is strictly past the new tick
                        assert forall|j: int|
                            0 <= j < self.timer.events@.len() implies self.timer.events@[j].time
                            > old(self).timer.tick + 1 by {
                            assert(self.timer.events@[0].time <= self.timer.events@[j].time);
                            assert(self.timer.events@[0].time != self.timer.tick);
                        }
                    }
                    break ;
                },
                Some(t) => {
                    let ghost before = *self;
                    let ghost popped = TimerEvent {
                        time: at_head.timer.tick as usize,
                        data: t,
                    };
                    proof {
                        assert(at_head.timer.events@[0] == popped);
                        assert(old(self).timer.events@.contains(popped));
                        // the popped event was the thread's only one, so the
                        // wakeup below cancels nothing further
                        assert forall|j: int|
                            0 <= j < before.timer.events@.len() implies before.timer.events@[j].data
                            != t by {
                            assert(before.timer.events@[j] == at_head.timer.events@[j + 1]);
                        }
                        crate::timer::lemma_find_data(before.timer.events@, t);
                        assert(find_data(before.timer.events@, t) == before.timer.events@.len());
                    }
                    self.wakeup(t);
                    proof {
                        assert(self.timer.events@ == before.timer.events@);
                        assert(self.timer.events@.len() < at_head.timer.events@.len());
                        let woke = before.tid_live(t) && before.status_of(t) is Sleeping;
                        assert forall|u: Tid| self.tid_live(u) <==> old(self).tid_live(u) by {
                            assert(self.slots@.len() == before.slots@.len());
                            if u < old(self).slots@.len() {
                                if woke && u == t {
                                } else if woke {
                                    assert(self.slots@[u as int] == before.slots@[u as int]);
                                } else {
                                    assert(self.slots == before.slots);
                                }
                                assert(before.tid_live(u) <==> at_head.tid_live(u));
                            }
                        }
                        assert forall|u: Tid|
                            old(self).tid_live(u) implies {
                            &&& self.info_of(u).context == old(self).info_of(u).context
                            &&& self.info_of(u).detached == old(self).info_of(u).detached
                            &&& self.info_of(u).waiter == old(self).info_of(u).waiter
                            &&& (self.status_of(u) == old(self).status_of(u) || (old(self).status_of(u) is Sleeping && self.status_of(u) is Ready))
                        } by {
                            assert(at_head.info_of(u).context == old(self).info_of(u).context);
                            assert(before.slots == at_head.slots);
                            if woke && u == t {
                                assert(self.info_of(u).context == before.info_of(u).context);
                                assert(self.info_of(u).detached == before.info_of(u).detached);
                                assert(self.info_of(u).waiter == before.info_of(u).waiter);
                                assert(self.status_of(u) is Ready);
                                assert(before.status_of(u) is Sleeping);
                            } else if woke {
                                assert(self.slots@[u as int] == before.slots@[u as int]);
                            } else {
                                assert(self.slots == before.slots);
                                assert(self.slots@[u as int] == before.slots@[u as int]);
                            }
                        }
                        assert forall|u: Tid|
                            old(self).scheduler.ready@.contains(
                                u,
                            ) implies self.scheduler.ready@.contains(u) by {
                            assert(before.scheduler.ready@.contains(u));
                            if self.scheduler.ready@ != before.scheduler.ready@ {
                                let k = choose|k: int|
                                    0 <= k < before.scheduler.ready@.len()
                                        && before.scheduler.ready@[k] == u;
                                assert(self.scheduler.ready@[k] == u);
                            }
                        }
                        // the wake-or-pending account, per qualifying thread
                        assert forall|u: Tid|
                            #![trigger old(self).status_of(u)]
                            old(self).tid_live(u) && old(self).status_of(u) is Sleeping && old(self).timer.events@.contains(
                                TimerEvent { time: (old(self).timer.tick + 1) as usize, data: u },
                            ) implies (self.status_of(u) is Ready && (old(self).info_of(u).context is Some
                                ==> self.scheduler.ready@.contains(u))) || (self.timer.events@.contains(
                                TimerEvent { time: (old(self).timer.tick + 1) as usize, data: u },
                            ) && self.status_of(u) is Sleeping) by {
                            let ev = TimerEvent { time: (old(self).timer.tick + 1) as usize, data: u };
                            if u == t {
                                if at_head.status_of(t) is Ready {
                                    // already handled in an earlier round
                                    assert(self.status_of(u) is Ready);
                                    if old(self).info_of(u).context is Some {
                                        assert(self.scheduler.ready@.contains(u));
                                    }
                                } else {
                                    assert(at_head.status_of(t) is Sleeping);
                                    assert(before.status_of(t) is Sleeping);
                                    assert(woke);
                                    assert(self.status_of(u) is Ready);
                                    if old(self).info_of(u).context is Some {
                                        assert(before.info_of(t).context is Some);
                                        assert(self.scheduler.ready@
                                            == before.scheduler.ready@.push(t));
                                        assert(self.scheduler.ready@[self.scheduler.ready@.len()
                                            - 1] == t);
                                        assert(self.scheduler.ready@.contains(t));
                                    }
                                }
                            } else {
                                // untouched this round: its account carries over
                                if at_head.status_of(u) is Ready && old(self).tid_live(u) {
                                    assert(self.status_of(u) is Ready || self.status_of(u) == at_head.status_of(u));
                                }
                                if at_head.timer.events@.contains(ev) && at_head.status_of(u) is Sleeping {
                                    let k = choose|k: int|
                                        0 <= k < at_head.timer.events@.len()
                                            && at_head.timer.events@[k] == ev;
                                    assert(k != 0);
                                    assert(before.timer.events@[k - 1] == ev);
                                    assert(self.timer.events@.contains(ev));
                                    assert(self.status_of(u) == at_head.status_of(u));
                                } else {
                                    assert(at_head.status_of(u) is Ready && (old(self).info_of(
                                        u,
                                    ).context is Some ==> at_head.scheduler.ready@.contains(u)));
                                    assert(self.status_of(u) is Ready);
                                    if old(self).info_of(u).context is Some {
                                        let k = choose|k: int|
                                            0 <= k < at_head.scheduler.ready@.len()
                                                && at_head.scheduler.ready@[k] == u;
                                        assert(before.scheduler.ready@.contains(u));
                                        if self.scheduler.ready@ != before.scheduler.ready@ {
                                            let k2 = choose|k2: int|
                                                0 <= k2 < before.scheduler.ready@.len()
                                                    && before.scheduler.ready@[k2] == u;
                                            assert(self.scheduler.ready@[k2] == u);
                                        }
                                    }
                                }
                            }
                        }
                        // survivors stay within the queue as it stood at entry
                        assert forall|j: int|
                            0 <= j < self.timer.events@.len() implies old(self).timer.events@.contains(
                            #[trigger] self.timer.events@[j],
                        ) && self.timer.events@[j].time >= self.timer.tick by {
                            assert(self.timer.events@[j] == before.timer.events@[j]);
                            assert(before.timer.events@[j] == at_head.timer.events@[j + 1]);
                            assert(at_head.timer.events@.contains(at_head.timer.events@[j + 1]));
                        }
                        assert forall|j: int|
                            0 <= j < old(self).timer.events@.len() && (#[trigger] old(self).timer.events@[j]).time != old(self).timer.tick + 1 implies self.timer.events@.contains(
                            old(self).timer.events@[j],
                        ) by {
                            let ev = old(self).timer.events@[j];
                            assert(at_head.timer.events@.contains(ev));
                            let k = choose|k: int|
                                0 <= k < at_head.timer.events@.len() && at_head.timer.events@[k]
                                    == ev;
                            assert(at_head.timer.events@[0].time == at_head.timer.tick);
                            assert(k != 0);
                            assert(before.timer.events@[k - 1] == ev);
                            assert(self.timer.events@.contains(ev));
                        }
                    }
                },
            }
        }
        proof {
            // at the drain's end every qualifying sleeper has been woken:
            // its event cannot still be pending among the survivors
            assert forall|t: Tid|
                old(self).tid_live(t) && old(self).status_of(t) is Sleeping && old(self).timer.events@.contains(
                    TimerEvent { time: (old(self).timer.tick + 1) as usize, data: t },
                ) implies self.status_of(t) is Ready && (old(self).info_of(t).context is Some
                ==> self.scheduler.ready@.contains(t)) by {
                let ev = TimerEvent { time: (old(self).timer.tick + 1) as usize, data: t };
                if self.timer.events@.contains(ev) {
                    let k = choose|k: int|
                        0 <= k < self.timer.events@.len() && self.timer.events@[k] == ev;
                    assert(self.timer.events@[k].time > old(self).timer.tick + 1);
                    assert(false);
                }
            }
            assert forall|j: int|
                0 <= j < self.timer.events@.len() implies self.timer.events@[j].time
                > self.timer.tick by {}
        }
    }
}

/// Mutual exclusion of execution: a dispatch never picks a thread whose
/// context is checked out to a processor — two processors can never become
/// simultaneous owners of one thread's context.
pub proof fn lemma_run_excludes_running(p: ThreadPool, t: Tid)
    requires
        p.wf(),
        p.is_running(t),
    ensures
        run_pick(p.scheduler.ready@) != Some(t),
{
    if p.scheduler.ready@.len() > 0 {
        assert(p.info_of(p.scheduler.ready@[0]).context is Some);
    }
}

/// A sleeping thread is never picked by a dispatch: it stays off the ready
/// set until it is re-filed, which — by the contracts of
/// [`ThreadPool::tick`] and [`ThreadPool::wakeup`] — happens only at a tick
/// at which its filed wake condition falls due, or through an explicit
/// wakeup, whichever comes first.
pub proof fn lemma_run_excludes_sleeping(p: ThreadPool, t: Tid)
    requires
        p.wf(),
        p.tid_live(t),
        p.status_of(t) is Sleeping,
    ensures
        run_pick(p.scheduler.ready@) != Some(t),
{
    if p.scheduler.ready@.len() > 0 {
        assert(p.status_of(p.scheduler.ready@[0]) is Ready);
    }
}

/// Join/exit ordering: a join attempt collects a result exactly when exit
/// has been recorded — never strictly before — and the successful attempt
/// removes the record, so any later attempt on the same id finds nothing.
pub proof fn lemma_join_collects_exactly_once(p: ThreadPool, q: ThreadPool, t: Tid, code: usize)
    requires
        ThreadPool::try_remove_pick(p, t) == Some(code),
        q.slots@ == p.slots@.update(t as int, None::<ThreadInfo>),
    ensures
        p.status_of(t) == Status::Exited(code),
        ThreadPool::try_remove_pick(q, t) == None::<usize>,
{
}

} // verus!
