//! Per-core dispatch: one `Processor` per physical core owns the core's
//! idle/dispatch-loop context and the context of whichever thread presently
//! runs there. Its operations are the only legal way to move the CPU between
//! "running a thread" and "running the dispatch loop".
//!
//! The per-core caller loop is: dispatch the next ready thread, then idle
//! briefly (halt) when nothing was ready, and ask again — so a core never
//! busy-spins indefinitely.

use crate::Tid;
use crate::context::{ContextImpl, LocalContext, RawContext};
use crate::thread_pool::ThreadPool;
use vstd::prelude::*;

verus! {

/// The state of an initialized processor.
pub struct ProcessorInner {
    /// Index of the core this processor stands for.
    pub id: usize,
    /// The currently running thread and its (stale while running) context
    /// snapshot; `None` only while the core is inside the dispatch loop.
    pub thread: Option<(Tid, ContextImpl)>,
    /// The dispatch loop's own context.
    pub loop_context: ContextImpl,
}

/// One instance per physical core, created empty at link time and filled in
/// by that core during bring-up.
pub struct Processor {
    pub inner: Option<ProcessorInner>,
}

impl Processor {
    /// The processor has been initialized by its core.
    pub open spec fn initialized(&self) -> bool {
        self.inner is Some
    }

    /// A thread is currently running on this core.
    pub open spec fn running(&self) -> bool {
        self.initialized() && self.inner.unwrap().thread is Some
    }

    /// Id of the thread currently running on this core.
    pub open spec fn running_tid(&self) -> Tid
        recommends
            self.running(),
    {
        self.inner.unwrap().thread.unwrap().0
    }

    /// Whether the processor has been initialized, as a runtime question.
    pub fn is_initialized(&self) -> (r: bool)
        ensures
            r == self.initialized(),
    {
        self.inner.is_some()
    }

    /// Whether a thread is currently running here, as a runtime question.
    pub fn is_running(&self) -> (r: bool)
        ensures
            r == self.running(),
    {
        match &self.inner {
            Some(inner) => inner.thread.is_some(),
            None => false,
        }
    }

    /// An empty processor slot, before its core comes up.
    pub fn new() -> (r: Processor)
        ensures
            !r.initialized(),
    {
        Processor { inner: None }
    }

    /// One-time initialization by the owning core: records the core id and
    /// the freshly built dispatch-loop context; no thread runs yet.
    pub fn init(&mut self, id: usize, context: ContextImpl)
        ensures
            final(self).inner == Some(ProcessorInner { id, thread: None, loop_context: context }),
            final(self).initialized(),
            !final(self).running(),
    {
        self.inner = Some(ProcessorInner { id, thread: None, loop_context: context });
    }

    /// Id of the thread running on the calling core. Calling this with no
    /// thread running is a scheduler invariant violation, so that input is
    /// excluded outright.
    pub fn tid(&self) -> (r: Tid)
        requires
            self.running(),
        ensures
            r == self.running_tid(),
    {
        match &self.inner {
            Some(inner) => {
                match &inner.thread {
                    Some((tid, _)) => *tid,
                    None => unreached(),
                }
            },
            None => unreached(),
        }
    }

    /// Called from inside the running thread: save the core's registers into
    /// the thread's context and load the dispatch loop's. The thread stays
    /// recorded as running — when later re-scheduled, control resumes exactly
    /// after this switch with its registers restored, so the thread observes
    /// the yield as an ordinary call that eventually returns.
    pub fn yield_now(&mut self, cpu: &mut RawContext)
        requires
            old(self).running(),
        ensures
            final(self).initialized() && final(self).running(),
            final(self).inner.unwrap().id == old(self).inner.unwrap().id,
            final(self).inner.unwrap().loop_context == old(self).inner.unwrap().loop_context,
            final(self).running_tid() == old(self).running_tid(),
            ({
                let ctx = final(self).inner.unwrap().thread.unwrap().1;
                &&& ctx.raw == *old(cpu)
                &&& ctx.stack@ == old(self).inner.unwrap().thread.unwrap().1.stack@
            }),
            *final(cpu) == old(self).inner.unwrap().loop_context.raw,
    {
        let mut taken: Option<ProcessorInner> = None;
        core::mem::swap(&mut taken, &mut self.inner);
        let inner = taken.unwrap();
        let ProcessorInner { id, thread, loop_context } = inner;
        let (tid, mut ctx) = thread.unwrap();
        ctx.switch_to(cpu, &loop_context.raw);
        self.inner = Some(ProcessorInner { id, thread: Some((tid, ctx)), loop_context });
    }

    /// Ask the pool for the next ready thread for this core. If one exists it
    /// becomes the running thread and the dispatch loop's context switches
    /// into it — in the machine this call then does not return until that
    /// thread yields or exits. If none is ready, nothing changes and the
    /// caller idles before asking again.
    pub fn run_next(&mut self, cpu_id: usize, pool: &mut ThreadPool, cpu: &mut RawContext)
        requires
            old(self).initialized(),
            !old(self).running(),
            old(pool).wf(),
        ensures
            final(pool).wf(),
            final(self).initialized(),
            final(self).inner.unwrap().id == old(self).inner.unwrap().id,
            old(pool).scheduler.ready@.len() == 0 ==> {
                &&& !final(self).running()
                &&& final(self).inner == old(self).inner
                &&& *final(cpu) == *old(cpu)
                &&& final(pool).slots == old(pool).slots
                &&& final(pool).scheduler.ready@ == old(pool).scheduler.ready@
                &&& final(pool).scheduler.max_time_slice == old(pool).scheduler.max_time_slice
                &&& final(pool).timer == old(pool).timer
                &&& final(pool).max_cpus == old(pool).max_cpus
            },
            old(pool).scheduler.ready@.len() > 0 ==> {
                let tid = old(pool).scheduler.ready@[0];
                &&& final(self).running()
                &&& final(self).running_tid() == tid
                &&& old(pool).tid_live(tid)
                &&& Some(final(self).inner.unwrap().thread.unwrap().1) == old(pool).info_of(
                    tid,
                ).context
                &&& final(self).inner.unwrap().loop_context.raw == *old(cpu)
                &&& *final(cpu) == final(self).inner.unwrap().thread.unwrap().1.raw
                &&& final(pool).scheduler.ready@ == old(pool).scheduler.ready@.drop_first()
                &&& final(pool).is_running(tid)
            },
    {
        match pool.run(cpu_id) {
            None => {},
            Some((tid, next_ctx)) => {
                let mut taken: Option<ProcessorInner> = None;
                core::mem::swap(&mut taken, &mut self.inner);
                let inner = taken.unwrap();
                let ProcessorInner { id, thread: _, loop_context } = inner;
                let mut loop_context = loop_context;
                loop_context.switch_to(cpu, &next_ctx.raw);
                self.inner = Some(
                    ProcessorInner { id, thread: Some((tid, next_ctx)), loop_context },
                );
            },
        }
    }

    /// Take the running thread off this core entirely and hand its context
    /// back to the pool's `stop`, which files it as sleeping or exited per
    /// its recorded state. Used when a thread blocks or exits — never for a
    /// plain yield.
    pub fn stop_running(&mut self, pool: &mut ThreadPool)
        requires
            old(self).running(),
            old(pool).wf(),
            old(pool).is_running(old(self).running_tid()),
        ensures
            final(pool).wf(),
            final(self).initialized(),
            !final(self).running(),
            final(self).inner.unwrap().id == old(self).inner.unwrap().id,
            final(self).inner.unwrap().loop_context == old(self).inner.unwrap().loop_context,
            ({
                let tid = old(self).running_tid();
                let ctx = old(self).inner.unwrap().thread.unwrap().1;
                &&& (old(pool).status_of(tid) is Ready ==> {
                    &&& final(pool).slots@ == old(pool).slots@.update(
                        tid as int,
                        Some(
                            crate::thread_pool::ThreadInfo {
                                context: Some(ctx),
                                ..old(pool).info_of(tid)
                            },
                        ),
                    )
                    &&& final(pool).scheduler.ready@ == old(pool).scheduler.ready@.push(tid)
                })
                &&& (old(pool).status_of(tid) is Sleeping ==> final(pool).slots@ == old(
                    pool,
                ).slots@.update(
                    tid as int,
                    Some(
                        crate::thread_pool::ThreadInfo {
                            context: Some(ctx),
                            ..old(pool).info_of(tid)
                        },
                    ),
                ))
                &&& (old(pool).status_of(tid) is Exited ==> final(pool).scheduler.ready == old(
                    pool,
                ).scheduler.ready)
            }),
    {
        let mut taken: Option<ProcessorInner> = None;
        core::mem::swap(&mut taken, &mut self.inner);
        let inner = taken.unwrap();
        let ProcessorInner { id, thread, loop_context } = inner;
        let (tid, ctx) = thread.unwrap();
        pool.stop(tid, ctx);
        self.inner = Some(ProcessorInner { id, thread: None, loop_context });
    }
}

} // verus!
