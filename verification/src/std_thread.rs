//! The user-facing thread surface built on top of the processor and the
//! pool: spawn, join, sleep, yield, park and unpark.
//!
//! In the machine these operate on the calling core's processor and the
//! shared pool through global handles; here both are explicit parameters, so
//! every call names the state it touches. The blocking calls (`join`,
//! `sleep`, `park`) are one round of their re-checking wait loop: they
//! record the wait and yield back to the dispatch loop, which re-runs them
//! when the thread is next scheduled.

use crate::Tid;
use crate::context::{ContextImpl, RawContext, WORD_SIZE};
use crate::processor::Processor;
use crate::thread_pool::{Status, ThreadPool};
use vstd::prelude::*;

verus! {

/// Default stack size handed to freshly spawned threads.
pub const SPAWN_STACK_SIZE: usize = 16 * 1024;

/// How many timer ticks a wall-time duration stands for: the tick runs at
/// one hundredth of a second, and a fraction below one tick is dropped.
pub open spec fn ticks_of_duration(secs: u64, subsec_nanos: u32) -> int {
    secs * 100 + subsec_nanos / 10_000_000
}

/// Convert a duration, given as whole seconds and the sub-second nanosecond
/// remainder, to the tick count the sleep machinery uses.
pub fn dur_to_ticks(secs: u64, subsec_nanos: u32) -> (r: usize)
    requires
        secs * 100 + subsec_nanos / 10_000_000 <= usize::MAX,
        subsec_nanos < 1_000_000_000,
    ensures
        r == ticks_of_duration(secs, subsec_nanos),
{
    (secs * 100) as usize + (subsec_nanos / 10_000_000) as usize
}

/// A handle naming one kernel thread.
pub struct Thread {
    pub tid: Tid,
}

impl Thread {
    /// The thread's id.
    pub fn id(&self) -> (r: Tid)
        ensures
            r == self.tid,
    {
        self.tid
    }

    /// Wake this thread from a park or a timed sleep: one call of the
    /// pool's wakeup. A sleeping thread becomes ready regardless of its
    /// wake condition — re-queued at once when its context is stored, or
    /// re-queued by its eventual stop when it is still checked out — its
    /// pending timer event is cancelled, and a thread in any other state is
    /// left as it was.
    pub fn unpark(&self, pool: &mut ThreadPool)
        requires
            old(pool).wf(),
        ensures
            final(pool).wf(),
            final(pool).timer.tick == old(pool).timer.tick,
            final(pool).timer.events@ == (if crate::timer::find_data(
                old(pool).timer.events@,
                self.tid,
            ) < old(pool).timer.events@.len() {
                old(pool).timer.events@.remove(
                    crate::timer::find_data(old(pool).timer.events@, self.tid),
                )
            } else {
                old(pool).timer.events@
            }),
            old(pool).tid_live(self.tid) && old(pool).status_of(self.tid) is Sleeping ==> {
                &&& final(pool).slots@ == old(pool).slots@.update(
                    self.tid as int,
                    Some(
                        crate::thread_pool::ThreadInfo {
                            status: Status::Ready,
                            ..old(pool).info_of(self.tid)
                        },
                    ),
                )
                &&& final(pool).status_of(self.tid) is Ready
                &&& (old(pool).info_of(self.tid).context is Some ==> final(pool).scheduler.ready@
                    == old(pool).scheduler.ready@.push(self.tid))
                &&& (old(pool).info_of(self.tid).context is None ==> final(pool).scheduler.ready
                    == old(pool).scheduler.ready)
            },
            !(old(pool).tid_live(self.tid) && old(pool).status_of(self.tid) is Sleeping) ==> {
                &&& final(pool).slots == old(pool).slots
                &&& final(pool).scheduler.ready == old(pool).scheduler.ready
            },
    {
        pool.wakeup(self.tid);
    }
}

/// The thread running on the calling core.
pub fn current(processor: &Processor) -> (r: Thread)
    requires
        processor.running(),
    ensures
        r.tid == processor.running_tid(),
{
    Thread { tid: processor.tid() }
}

/// Package a new thread around the entry trampoline at address `entry_fn`
/// and register it with the pool. The trampoline invokes the thread body,
/// records the boxed result via the pool's `exit`, then yields forever — it
/// is never rescheduled, since its state is `Exited`. Returns the handle to
/// join or detach.
pub fn spawn(pool: &mut ThreadPool, entry_fn: u64) -> (r: JoinHandle)
    requires
        old(pool).wf(),
    ensures
        final(pool).wf(),
        r.thread.tid == old(pool).slots@.len(),
        final(pool).tid_live(r.thread.tid),
        final(pool).status_of(r.thread.tid) is Ready,
        final(pool).scheduler.ready@ == old(pool).scheduler.ready@.push(r.thread.tid),
        final(pool).slots@.len() == old(pool).slots@.len() + 1,
        forall|t: Tid|
            t < old(pool).slots@.len() ==> final(pool).slots@[t as int] == old(
                pool,
            ).slots@[t as int],
{
    let context = ContextImpl::new_with_entry(SPAWN_STACK_SIZE, entry_fn);
    let tid = pool.add(context);
    JoinHandle { thread: Thread { tid } }
}

/// Yield the calling thread: switch back to the dispatch loop, leaving the
/// thread recorded as running so that it resumes here when next scheduled.
/// Calling this with no thread running is an invariant violation, excluded
/// outright. In the machine this runs with interrupts disabled around the
/// switch.
pub fn yield_now(processor: &mut Processor, cpu: &mut RawContext)
    requires
        old(processor).running(),
    ensures
        final(processor).running(),
        final(processor).running_tid() == old(processor).running_tid(),
        *final(cpu) == old(processor).inner.unwrap().loop_context.raw,
{
    processor.yield_now(cpu);
}

/// Park the calling thread indefinitely: mark it sleeping with no timed wake
/// condition, then yield. Only [`Thread::unpark`] (or the pool's wakeup)
/// makes it runnable again.
pub fn park(pool: &mut ThreadPool, processor: &mut Processor, cpu: &mut RawContext)
    requires
        old(processor).running(),
        old(pool).wf(),
        old(pool).tid_live(old(processor).running_tid()),
        !(old(pool).status_of(old(processor).running_tid()) is Exited),
    ensures
        final(pool).wf(),
        final(processor).running(),
        final(processor).running_tid() == old(processor).running_tid(),
        final(pool).status_of(old(processor).running_tid()) is Sleeping,
        final(pool).timer.tick == old(pool).timer.tick,
        final(pool).timer.events@ == ThreadPool::events_cleared_of(
            old(pool).timer.events@,
            old(processor).running_tid(),
        ),
        !final(pool).scheduler.ready@.contains(old(processor).running_tid()),
{
    let tid = current(processor).id();
    pool.sleep(tid, 0);
    yield_now(processor, cpu);
}

/// Park the calling thread and run the given action in between: the thread
/// is marked sleeping *before* the action runs and only then yields, so a
/// wakeup the action triggers cannot be lost — it lands after the thread is
/// already recorded sleeping, making it ready again before it has even left
/// the core. The action is invoked exactly once (its postcondition is
/// established), and the calling thread ends up parked exactly as
/// [`park`] leaves it.
pub fn park_action<F: FnOnce() -> ()>(
    pool: &mut ThreadPool,
    processor: &mut Processor,
    cpu: &mut RawContext,
    f: F,
)
    requires
        old(processor).running(),
        old(pool).wf(),
        old(pool).tid_live(old(processor).running_tid()),
        !(old(pool).status_of(old(processor).running_tid()) is Exited),
        call_requires(f, ()),
    ensures
        final(pool).wf(),
        final(processor).running(),
        final(processor).running_tid() == old(processor).running_tid(),
        final(pool).status_of(old(processor).running_tid()) is Sleeping,
        final(pool).timer.tick == old(pool).timer.tick,
        final(pool).timer.events@ == ThreadPool::events_cleared_of(
            old(pool).timer.events@,
            old(processor).running_tid(),
        ),
        !final(pool).scheduler.ready@.contains(old(processor).running_tid()),
        call_ensures(f, (), ()),
{
    let tid = current(processor).id();
    pool.sleep(tid, 0);
    f();
    yield_now(processor, cpu);
}

/// Put the calling thread to sleep for a wall-time duration: convert it to
/// ticks, file the timed wake condition, and yield. With a duration below
/// one tick this parks until an explicit wakeup, since the rounding
/// leaves no timed condition.
pub fn sleep(
    pool: &mut ThreadPool,
    processor: &mut Processor,
    cpu: &mut RawContext,
    secs: u64,
    subsec_nanos: u32,
)
    requires
        old(processor).running(),
        old(pool).wf(),
        old(pool).tid_live(old(processor).running_tid()),
        !(old(pool).status_of(old(processor).running_tid()) is Exited),
        subsec_nanos < 1_000_000_000,
        secs * 100 + subsec_nanos / 10_000_000 <= usize::MAX,
        old(pool).timer.tick + ticks_of_duration(secs, subsec_nanos) <= usize::MAX,
    ensures
        final(pool).wf(),
        final(processor).running(),
        final(processor).running_tid() == old(processor).running_tid(),
        final(pool).status_of(old(processor).running_tid()) is Sleeping,
        !final(pool).scheduler.ready@.contains(old(processor).running_tid()),
        ticks_of_duration(secs, subsec_nanos) > 0 ==> final(pool).timer.events@.contains(
            crate::timer::TimerEvent {
                time: (old(pool).timer.tick + ticks_of_duration(secs, subsec_nanos)) as usize,
                data: old(processor).running_tid(),
            },
        ),
{
    let ticks = dur_to_ticks(secs, subsec_nanos);
    let tid = current(processor).id();
    pool.sleep(tid, ticks);
    yield_now(processor, cpu);
}

/// A handle for collecting one thread's exit payload.
pub struct JoinHandle {
    pub thread: Thread,
}

impl JoinHandle {
    /// The thread this handle joins.
    pub fn thread(&self) -> (r: &Thread)
        ensures
            r == &self.thread,
    {
        &self.thread
    }

    /// One round of the blocking join loop: collect the exit payload if the
    /// target has exited — which is the only way this returns `Ok` — and
    /// otherwise register interest in the target's exit and yield, returning
    /// `Err` so the dispatch loop re-runs the round when the joiner is next
    /// scheduled. The machine's join repeats this round until it returns `Ok`;
    /// success strictly follows the target's `exit`, never precedes it.
    pub fn join(
        self,
        pool: &mut ThreadPool,
        processor: &mut Processor,
        cpu: &mut RawContext,
    ) -> (r: Result<usize, ()>)
        requires
            old(processor).running(),
            old(pool).wf(),
        ensures
            final(pool).wf(),
            final(processor).running(),
            final(processor).running_tid() == old(processor).running_tid(),
            (match ThreadPool::try_remove_pick(*old(pool), self.thread.tid) {
                Some(code) => r == Ok::<usize, ()>(code),
                None => r is Err,
            }),
            r matches Ok(code) ==> {
                &&& old(pool).status_of(self.thread.tid) == Status::Exited(code)
                &&& !final(pool).tid_live(self.thread.tid)
            },
            r is Err ==> !(old(pool).tid_live(self.thread.tid) && old(pool).status_of(
                self.thread.tid,
            ) is Exited),
            r is Err && old(pool).tid_live(self.thread.tid) ==> final(pool).tid_live(
                self.thread.tid,
            ) && final(pool).info_of(self.thread.tid).waiter == Some(
                old(processor).running_tid(),
            ),
            r is Err && !old(pool).tid_live(self.thread.tid) ==> final(pool).slots == old(
                pool,
            ).slots,
    {
        let target = self.thread.tid;
        match pool.try_remove(target) {
            Some(code) => Ok(code),
            None => {
                let me = current(processor).id();
                pool.wait(me, target);
                yield_now(processor, cpu);
                Err(())
            },
        }
    }
}

} // verus!
